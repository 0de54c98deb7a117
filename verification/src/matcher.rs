//! The selector matcher: pure predicates deciding whether a request, or a
//! response together with its originating request's context, matches a
//! `Selector`. An absent selector field never causes a mismatch.

use vstd::prelude::*;
use crate::bytes::{bytes_eq, is_prefix_of, starts_with_bytes};
use crate::headers::pairs_view;
use crate::message::{Request, RequestView, Response, ResponseView};
use crate::rule::{Selector, SelectorView};
use crate::uri::{Uri, UriView};

verus! {

/// Some occurrence of `name` on the target carries exactly `value`.
pub open spec fn header_present(
    hs: Seq<(Seq<u8>, Seq<u8>)>,
    name: Seq<u8>,
    value: Seq<u8>,
) -> bool {
    exists|i: int| 0 <= i < hs.len() && hs[i].0 == name && hs[i].1 == value
}

/// Every required pair is present on the target; unlisted headers and
/// extra occurrences are ignored.
pub open spec fn headers_match(
    target: Seq<(Seq<u8>, Seq<u8>)>,
    required: Seq<(Seq<u8>, Seq<u8>)>,
) -> bool {
    forall|i: int|
        0 <= i < required.len() ==> header_present(
            target,
            #[trigger] required[i].0,
            required[i].1,
        )
}

/// Whether a request matches a selector: every present field must hold.
/// The response-only fields (`code`, `response_headers`) are not consulted
/// on the request side.
pub open spec fn spec_select_request(port: u16, req: RequestView, sel: SelectorView) -> bool {
    &&& match sel.port {
        Some(p) => p == port,
        None => true,
    }
    &&& match sel.path {
        Some(p) => is_prefix_of(p, req.uri.path_or_root()),
        None => true,
    }
    &&& match sel.method {
        Some(m) => m == req.method,
        None => true,
    }
    &&& match sel.headers {
        Some(hs) => headers_match(req.headers, hs),
        None => true,
    }
}

/// Whether a response matches a selector. The port, URI, method and
/// request headers are the originating request's, captured before any
/// request-side action ran.
pub open spec fn spec_select_response(
    port: u16,
    uri: UriView,
    method: Seq<u8>,
    request_headers: Seq<(Seq<u8>, Seq<u8>)>,
    resp: ResponseView,
    sel: SelectorView,
) -> bool {
    &&& match sel.port {
        Some(p) => p == port,
        None => true,
    }
    &&& match sel.path {
        Some(p) => is_prefix_of(p, uri.path_or_root()),
        None => true,
    }
    &&& match sel.method {
        Some(m) => m == method,
        None => true,
    }
    &&& match sel.code {
        Some(c) => c == resp.code,
        None => true,
    }
    &&& match sel.headers {
        Some(hs) => headers_match(request_headers, hs),
        None => true,
    }
    &&& match sel.response_headers {
        Some(hs) => headers_match(resp.headers, hs),
        None => true,
    }
}

/// Scans for an occurrence of `name` carrying exactly `value`.
pub fn header_present_exec(hs: &Vec<(Vec<u8>, Vec<u8>)>, name: &Vec<u8>, value: &Vec<u8>) -> (r:
    bool)
    ensures
        r == header_present(pairs_view(hs@), name@, value@),
{
    let mut i: usize = 0;
    while i < hs.len()
        invariant
            i <= hs@.len(),
            forall|j: int|
                0 <= j < i ==> !(pairs_view(hs@)[j].0 == name@ && pairs_view(hs@)[j].1 == value@),
        decreases hs@.len() - i,
    {
        if bytes_eq(&hs[i].0, name) && bytes_eq(&hs[i].1, value) {
            proof {
                assert(pairs_view(hs@)[i as int].0 == name@ && pairs_view(hs@)[i as int].1
                    == value@);
            }
            return true;
        }
        proof {
            assert(pairs_view(hs@)[i as int] == (hs@[i as int].0@, hs@[i as int].1@));
        }
        i = i + 1;
    }
    false
}

/// Checks every required pair against the target headers.
pub fn headers_match_exec(target: &Vec<(Vec<u8>, Vec<u8>)>, required: &Vec<(Vec<u8>, Vec<u8>)>) -> (
    r: bool)
    ensures
        r == headers_match(pairs_view(target@), pairs_view(required@)),
{
    let mut i: usize = 0;
    while i < required.len()
        invariant
            i <= required@.len(),
            forall|j: int|
                0 <= j < i ==> header_present(
                    pairs_view(target@),
                    #[trigger] pairs_view(required@)[j].0,
                    pairs_view(required@)[j].1,
                ),
        decreases required@.len() - i,
    {
        let ok = header_present_exec(target, &required[i].0, &required[i].1);
        proof {
            assert(pairs_view(required@)[i as int] == (required@[i as int].0@,
            required@[i as int].1@));
        }
        if !ok {
            proof {
                assert(!header_present(
                    pairs_view(target@),
                    pairs_view(required@)[i as int].0,
                    pairs_view(required@)[i as int].1,
                ));
            }
            return false;
        }
        proof {
            assert(header_present(
                pairs_view(target@),
                pairs_view(required@)[i as int].0,
                pairs_view(required@)[i as int].1,
            ));
        }
        i = i + 1;
    }
    true
}

/// Prefix test of the selector path against the URI's path.
fn path_matches(uri: &Uri, p: &Vec<u8>) -> (r: bool)
    ensures
        r == is_prefix_of(p@, uri@.path_or_root()),
{
    match &uri.path_and_query {
        Some(pq) => starts_with_bytes(&pq.path, p),
        None => {
            let mut root: Vec<u8> = Vec::new();
            root.push(0x2f);
            proof {
                assert(root@ =~= seq![0x2fu8]);
            }
            starts_with_bytes(&root, p)
        },
    }
}

/// Whether `selector` matches the request intercepted on `port`.
pub fn select_request(port: u16, request: &Request, selector: &Selector) -> (r: bool)
    ensures
        r == spec_select_request(port, request@, selector@),
{
    match &selector.port {
        Some(p) => {
            if port != *p {
                return false;
            }
        },
        None => {},
    }
    match &selector.path {
        Some(p) => {
            if !path_matches(&request.uri, p) {
                return false;
            }
        },
        None => {},
    }
    match &selector.method {
        Some(m) => {
            if !bytes_eq(&request.method, m) {
                return false;
            }
        },
        None => {},
    }
    match &selector.headers {
        Some(hs) => {
            if !headers_match_exec(&request.headers, hs) {
                return false;
            }
        },
        None => {},
    }
    true
}

/// Whether `selector` matches the response, given the originating
/// request's port, URI, method and headers as captured context.
pub fn select_response(
    port: u16,
    uri: &Uri,
    method: &Vec<u8>,
    request_headers: &Vec<(Vec<u8>, Vec<u8>)>,
    response: &Response,
    selector: &Selector,
) -> (r: bool)
    ensures
        r == spec_select_response(
            port,
            uri@,
            method@,
            pairs_view(request_headers@),
            response@,
            selector@,
        ),
{
    match &selector.port {
        Some(p) => {
            if port != *p {
                return false;
            }
        },
        None => {},
    }
    match &selector.path {
        Some(p) => {
            if !path_matches(uri, p) {
                return false;
            }
        },
        None => {},
    }
    match &selector.method {
        Some(m) => {
            if !bytes_eq(method, m) {
                return false;
            }
        },
        None => {},
    }
    match &selector.code {
        Some(c) => {
            if response.code != *c {
                return false;
            }
        },
        None => {},
    }
    match &selector.headers {
        Some(hs) => {
            if !headers_match_exec(request_headers, hs) {
                return false;
            }
        },
        None => {},
    }
    match &selector.response_headers {
        Some(hs) => {
            if !headers_match_exec(&response.headers, hs) {
                return false;
            }
        },
        None => {},
    }
    true
}

} // verus!
