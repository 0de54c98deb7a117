//! The engine's laws, each proved against the contracts in the other
//! modules: what holds of every selector, every URI and every action set,
//! not just of the concrete cases exercised by the tests.

use vstd::prelude::*;
use crate::apply::{spec_apply_request_action, spec_apply_response_action, ApplyError};
use crate::bytes::is_prefix_of;
use crate::matcher::{header_present, headers_match, spec_select_request, spec_select_response};
use crate::message::{RequestView, ResponseView};
use crate::query::{lemma_parse_pieces_concat, lemma_parse_query_unfold, lemma_split_amp_concat,
    parse_query, split_amp};
use crate::rule::{ActionsView, SelectorView};
use crate::uri::{query_wf, spec_append_queries, spec_replace_path, InvalidUri, PathAndQueryView,
    UriView};

verus! {

/// A selector with every field absent matches any request on any port.
pub proof fn lemma_empty_selector_matches_request(port: u16, req: RequestView, sel: SelectorView)
    requires
        sel.port is None,
        sel.path is None,
        sel.method is None,
        sel.headers is None,
    ensures
        spec_select_request(port, req, sel),
{
}

/// A selector with every field absent matches any response, whatever
/// request context it is evaluated with.
pub proof fn lemma_empty_selector_matches_response(
    port: u16,
    uri: UriView,
    method: Seq<u8>,
    request_headers: Seq<(Seq<u8>, Seq<u8>)>,
    resp: ResponseView,
    sel: SelectorView,
)
    requires
        sel.port is None,
        sel.path is None,
        sel.method is None,
        sel.headers is None,
        sel.code is None,
        sel.response_headers is None,
    ensures
        spec_select_response(port, uri, method, request_headers, resp, sel),
{
}

/// With only the path field present, a request matches exactly when its
/// path starts with the selector path; the query string plays no part in
/// the comparison.
pub proof fn lemma_path_selector_is_prefix_test(
    port: u16,
    req: RequestView,
    sel: SelectorView,
    p: Seq<u8>,
)
    requires
        sel.path == Some(p),
        sel.port is None,
        sel.method is None,
        sel.headers is None,
    ensures
        spec_select_request(port, req, sel) == is_prefix_of(p, req.uri.path_or_root()),
{
}

/// Header matching is existential over occurrences: a selector requiring
/// one `(name, value)` pair matches exactly when some occurrence of that
/// name carries that value, however many other occurrences there are.
pub proof fn lemma_header_selector_existential(
    port: u16,
    req: RequestView,
    sel: SelectorView,
    name: Seq<u8>,
    value: Seq<u8>,
)
    requires
        sel.headers == Some(seq![(name, value)]),
        sel.port is None,
        sel.path is None,
        sel.method is None,
    ensures
        spec_select_request(port, req, sel) == header_present(req.headers, name, value),
{
    let required = seq![(name, value)];
    assert(required[0] == (name, value));
    if header_present(req.headers, name, value) {
        assert forall|i: int| 0 <= i < required.len() implies header_present(
            req.headers,
            #[trigger] required[i].0,
            required[i].1,
        ) by {
            assert(required[i] == (name, value));
        }
    }
    if headers_match(req.headers, required) {
        assert(header_present(req.headers, required[0].0, required[0].1));
    }
}

/// Appending an absent or an empty query fragment changes nothing.
pub proof fn lemma_append_queries_identity(u: UriView)
    ensures
        spec_append_queries(u, None) == Ok::<UriView, InvalidUri>(u),
        spec_append_queries(u, Some(Seq::empty())) == Ok::<UriView, InvalidUri>(u),
{
}

/// Appending a fragment never removes or reorders the existing query
/// pairs: whenever the old query and the fragment both decode, the new
/// query decodes to exactly the old pairs followed by the fragment's
/// pairs.
pub proof fn lemma_append_queries_preserves_pairs(u: UriView, q: Seq<u8>, frag: Seq<u8>)
    requires
        u.query() == Some(q),
        frag.len() > 0,
        query_wf(frag),
        parse_query(q) is Some,
        parse_query(frag) is Some,
    ensures
        spec_append_queries(u, Some(frag)) is Ok,
        spec_append_queries(u, Some(frag))->Ok_0.query() == Some(q + seq![0x26u8] + frag),
        parse_query(q + seq![0x26u8] + frag) == Some(
            parse_query(q)->Some_0 + parse_query(frag)->Some_0,
        ),
{
    let joined = q + seq![0x26u8] + frag;
    lemma_split_amp_concat(q, frag);
    lemma_parse_pieces_concat(split_amp(q), split_amp(frag));
    lemma_parse_query_unfold(q);
    lemma_parse_query_unfold(frag);
    lemma_parse_query_unfold(joined);
    assert(joined.len() > 0);
}

/// The query codec round trip: a pair list re-encoded by the engine
/// always decodes back to exactly itself.
pub proof fn lemma_query_codec_round_trip(m: Seq<(Seq<u8>, Seq<u8>)>)
    ensures
        parse_query(crate::query::encode_pairs(m)) == Some(m),
{
    crate::query::lemma_parse_query_encode_pairs(m);
}

/// Replacing queries is idempotent once the override map equals the
/// merged result: applying the same overrides a second time yields the
/// URI the first application produced. The overrides are a map, so their
/// keys are unique.
pub proof fn lemma_replace_queries_idempotent(u: UriView, ov: Seq<(Seq<u8>, Seq<u8>)>)
    requires
        crate::query::unique_keys(ov),
        crate::uri::spec_replaced_pairs(u, ov) == Some(ov),
    ensures
        crate::uri::spec_replace_queries(u, Some(ov)) is Ok,
        crate::uri::spec_replace_queries(
            crate::uri::spec_replace_queries(u, Some(ov))->Ok_0,
            Some(ov),
        ) == crate::uri::spec_replace_queries(u, Some(ov)),
{
    let enc = crate::query::encode_pairs(ov);
    let u1 = crate::uri::spec_replace_queries(u, Some(ov))->Ok_0;
    assert(u1.path_and_query is Some);
    assert(u1.path_or_root() == u.path_or_root());
    crate::query::lemma_collapse_unique(ov);
    if enc.len() == 0 {
        assert(u1.query() is None);
        assert(parse_query(Seq::empty()) == Some(Seq::<(Seq<u8>, Seq<u8>)>::empty()));
        assert(crate::query::merge_pairs(Seq::empty(), Seq::<(Seq<u8>, Seq<u8>)>::empty())
            == Seq::<(Seq<u8>, Seq<u8>)>::empty());
        assert(crate::query::collapse(Seq::<(Seq<u8>, Seq<u8>)>::empty())
            =~= Seq::<(Seq<u8>, Seq<u8>)>::empty());
    } else {
        assert(u1.query() == Some(enc));
        crate::query::lemma_parse_query_encode_pairs(ov);
        crate::query::lemma_merge_self(ov);
    }
}

/// Replacing the path with the empty string normalizes it to the root
/// path and keeps the original query, whenever the URI has a path at all.
pub proof fn lemma_replace_path_empty_is_root(u: UriView)
    requires
        u.path_and_query is Some,
    ensures
        spec_replace_path(u, Some(Seq::empty())) == Ok::<UriView, InvalidUri>(
            UriView {
                path_and_query: Some(
                    PathAndQueryView { path: seq![0x2fu8], query: u.query() },
                ),
            },
        ),
{
    assert(crate::uri::path_wf(seq![0x2fu8]));
}

/// Abort always short-circuits a request-side apply: whatever else the
/// action set holds, the result is the abort failure and no mutated
/// request is handed out.
pub proof fn lemma_abort_short_circuits_request(req: RequestView, a: ActionsView)
    requires
        a.abort,
    ensures
        spec_apply_request_action(req, a) == Err::<RequestView, ApplyError>(ApplyError::Abort),
{
}

/// Abort always short-circuits a response-side apply.
pub proof fn lemma_abort_short_circuits_response(resp: ResponseView, a: ActionsView)
    requires
        a.abort,
    ensures
        spec_apply_response_action(resp, a) == Err::<ResponseView, ApplyError>(ApplyError::Abort),
{
}

} // verus!
