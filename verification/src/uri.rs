//! URI model and the rewrite steps that act on it.
//!
//! A URI is carried as its optional path-and-query component: the decoded
//! path bytes plus, when present, the raw (still percent-encoded) query
//! bytes. The scheme and authority of a full URI never take part in any
//! rewrite, so they stay with the caller.

use vstd::prelude::*;
use crate::bytes::{clone_bytes, find_byte, find_byte_in, lemma_find_byte, push_all};

verus! {

/// Bytes accepted inside a path: printable ASCII without space, `?` and `#`.
pub open spec fn is_path_byte(b: u8) -> bool {
    0x21 <= b <= 0x7e && b != 0x3f && b != 0x23
}

/// Bytes accepted inside a raw query: printable ASCII without space and `#`.
pub open spec fn is_query_byte(b: u8) -> bool {
    0x21 <= b <= 0x7e && b != 0x23
}

/// A well-formed path is non-empty, starts with `/` and holds path bytes.
pub open spec fn path_wf(p: Seq<u8>) -> bool {
    &&& p.len() >= 1
    &&& p[0] == 0x2f
    &&& forall|i: int| 0 <= i < p.len() ==> is_path_byte(#[trigger] p[i])
}

/// A well-formed raw query holds query bytes only.
pub open spec fn query_wf(q: Seq<u8>) -> bool {
    forall|i: int| 0 <= i < q.len() ==> is_query_byte(#[trigger] q[i])
}

/// Path plus optional raw query string.
#[derive(Debug, Clone)]
pub struct PathAndQuery {
    pub path: Vec<u8>,
    pub query: Option<Vec<u8>>,
}

/// The part of a URI the rewriters act on; `None` when the URI carries no
/// path-and-query component at all.
#[derive(Debug, Clone)]
pub struct Uri {
    pub path_and_query: Option<PathAndQuery>,
}

/// Mathematical model of a `PathAndQuery`.
pub struct PathAndQueryView {
    pub path: Seq<u8>,
    pub query: Option<Seq<u8>>,
}

/// Mathematical model of a `Uri`.
pub struct UriView {
    pub path_and_query: Option<PathAndQueryView>,
}

impl View for PathAndQuery {
    type V = PathAndQueryView;

    open spec fn view(&self) -> PathAndQueryView {
        PathAndQueryView {
            path: self.path@,
            query: match self.query {
                Some(q) => Some(q@),
                None => None,
            },
        }
    }
}

impl View for Uri {
    type V = UriView;

    open spec fn view(&self) -> UriView {
        UriView {
            path_and_query: match self.path_and_query {
                Some(pq) => Some(pq@),
                None => None,
            },
        }
    }
}

impl PathAndQueryView {
    /// Well-formedness of the component.
    pub open spec fn wf(self) -> bool {
        &&& path_wf(self.path)
        &&& match self.query {
            Some(q) => query_wf(q),
            None => true,
        }
    }
}

impl UriView {
    /// Well-formedness of the whole model.
    pub open spec fn wf(self) -> bool {
        match self.path_and_query {
            Some(pq) => pq.wf(),
            None => true,
        }
    }

    /// The path the matcher sees; a URI without a path-and-query component
    /// reads as the root path.
    pub open spec fn path_or_root(self) -> Seq<u8> {
        match self.path_and_query {
            Some(pq) => pq.path,
            None => seq![0x2fu8],
        }
    }

    /// The raw query, when one is present.
    pub open spec fn query(self) -> Option<Seq<u8>> {
        match self.path_and_query {
            Some(pq) => pq.query,
            None => None,
        }
    }
}

/// A rewrite step could not re-encode its result as a valid URI component.
#[derive(Debug, Clone, PartialEq, Eq, Structural)]
pub struct InvalidUri;

impl Uri {
    /// Whether the whole URI model is well-formed.
    pub fn check_wf(&self) -> (r: bool)
        ensures
            r == self@.wf(),
    {
        match &self.path_and_query {
            None => true,
            Some(pq) => {
                if !check_path_wf(&pq.path) {
                    return false;
                }
                match &pq.query {
                    None => true,
                    Some(q) => check_query_wf(q),
                }
            },
        }
    }
}

/// Whether `p` is a well-formed path.
pub fn check_path_wf(p: &Vec<u8>) -> (r: bool)
    ensures
        r == path_wf(p@),
{
    if p.len() == 0 {
        return false;
    }
    if p[0] != 0x2f {
        return false;
    }
    let mut i: usize = 0;
    while i < p.len()
        invariant
            i <= p.len(),
            p@.len() >= 1,
            p@[0] == 0x2f,
            forall|j: int| 0 <= j < i ==> is_path_byte(#[trigger] p@[j]),
        decreases p.len() - i,
    {
        let b: u8 = p[i];
        if !(0x21 <= b && b <= 0x7e && b != 0x3f && b != 0x23) {
            return false;
        }
        i = i + 1;
    }
    true
}

/// Whether `q` is a well-formed raw query.
pub fn check_query_wf(q: &Vec<u8>) -> (r: bool)
    ensures
        r == query_wf(q@),
{
    let mut i: usize = 0;
    while i < q.len()
        invariant
            i <= q.len(),
            forall|j: int| 0 <= j < i ==> is_query_byte(#[trigger] q@[j]),
        decreases q.len() - i,
    {
        let b: u8 = q[i];
        if !(0x21 <= b && b <= 0x7e && b != 0x23) {
            return false;
        }
        i = i + 1;
    }
    true
}

/// What parsing raw path-and-query bytes yields: split at the first `?`,
/// then both halves must be well-formed.
pub open spec fn spec_parse_path_and_query(raw: Seq<u8>) -> Result<PathAndQueryView, InvalidUri> {
    let i = find_byte(raw, 0x3f);
    if i < 0 {
        if path_wf(raw) {
            Ok(PathAndQueryView { path: raw, query: None })
        } else {
            Err(InvalidUri)
        }
    } else {
        let p = raw.take(i);
        let q = raw.skip(i + 1);
        if path_wf(p) && query_wf(q) {
            Ok(PathAndQueryView { path: p, query: Some(q) })
        } else {
            Err(InvalidUri)
        }
    }
}

/// Parses raw bytes such as `/a/b?k=v` into a path-and-query component.
pub fn parse_path_and_query(raw: &Vec<u8>) -> (r: Result<PathAndQuery, InvalidUri>)
    ensures
        match r {
            Ok(pq) => spec_parse_path_and_query(raw@) == Ok::<PathAndQueryView, InvalidUri>(pq@)
                && pq@.wf(),
            Err(e) => spec_parse_path_and_query(raw@) == Err::<PathAndQueryView, InvalidUri>(e),
        },
{
    match find_byte_in(raw, 0x3f) {
        None => {
            if check_path_wf(raw) {
                Ok(PathAndQuery { path: clone_bytes(raw), query: None })
            } else {
                Err(InvalidUri)
            }
        },
        Some(i) => {
            let n: usize = raw.len();
            proof {
                lemma_find_byte(raw@, 0x3f);
                assert(i < n);
            }
            let mut p: Vec<u8> = Vec::new();
            let mut j: usize = 0;
            while j < i
                invariant
                    j <= i,
                    i <= raw@.len(),
                    p@ == raw@.take(j as int),
                decreases i - j,
            {
                p.push(raw[j]);
                proof {
                    assert(raw@.take(j + 1) =~= raw@.take(j as int).push(raw@[j as int]));
                }
                j = j + 1;
            }
            let mut q: Vec<u8> = Vec::new();
            let mut k: usize = i + 1;
            while k < raw.len()
                invariant
                    i + 1 <= k <= raw@.len(),
                    q@ == raw@.subrange(i + 1, k as int),
                decreases raw.len() - k,
            {
                q.push(raw[k]);
                proof {
                    assert(raw@.subrange(i + 1, k + 1) =~= raw@.subrange(i + 1, k as int).push(
                        raw@[k as int],
                    ));
                }
                k = k + 1;
            }
            proof {
                assert(q@ =~= raw@.skip(i + 1));
            }
            if check_path_wf(&p) && check_query_wf(&q) {
                Ok(PathAndQuery { path: p, query: Some(q) })
            } else {
                Err(InvalidUri)
            }
        },
    }
}

/// Parses raw bytes into a whole URI model with the component present.
pub fn parse_uri(raw: &Vec<u8>) -> (r: Result<Uri, InvalidUri>)
    ensures
        match r {
            Ok(u) => spec_parse_path_and_query(raw@) matches Ok(pq) && u@.path_and_query
                == Some(pq) && u@.wf(),
            Err(e) => spec_parse_path_and_query(raw@) == Err::<PathAndQueryView, InvalidUri>(e),
        },
{
    match parse_path_and_query(raw) {
        Ok(pq) => Ok(Uri { path_and_query: Some(pq) }),
        Err(e) => Err(e),
    }
}

/// What `append_queries` yields on the model: an empty or absent fragment
/// changes nothing; otherwise the fragment is raw-concatenated to the query
/// with `&` when a query exists, attached with `?` when none does, and the
/// path defaults to `/` when the URI has no component at all.
pub open spec fn spec_append_queries(u: UriView, frag: Option<Seq<u8>>) -> Result<
    UriView,
    InvalidUri,
> {
    let f = match frag {
        Some(f) => f,
        None => Seq::empty(),
    };
    if f.len() == 0 {
        Ok(u)
    } else if !query_wf(f) {
        Err(InvalidUri)
    } else {
        match u.path_and_query {
            Some(pq) => match pq.query {
                Some(q) => Ok(
                    UriView {
                        path_and_query: Some(
                            PathAndQueryView { path: pq.path, query: Some(q + seq![0x26u8] + f) },
                        ),
                    },
                ),
                None => Ok(
                    UriView {
                        path_and_query: Some(PathAndQueryView { path: pq.path, query: Some(f) }),
                    },
                ),
            },
            None => Ok(
                UriView {
                    path_and_query: Some(
                        PathAndQueryView { path: seq![0x2fu8], query: Some(f) },
                    ),
                },
            ),
        }
    }
}

/// Concatenates a raw, pre-encoded query fragment onto the URI's query
/// string; duplicate keys deliberately accumulate. On an error the URI is
/// left unchanged.
pub fn append_queries(uri: &mut Uri, raw_queries: Option<&Vec<u8>>) -> (r: Result<(), InvalidUri>)
    requires
        old(uri)@.wf(),
    ensures
        final(uri)@.wf(),
        match r {
            Ok(_) => spec_append_queries(old(uri)@, view_opt_bytes(raw_queries)) == Ok::<
                UriView,
                InvalidUri,
            >(final(uri)@),
            Err(e) => spec_append_queries(old(uri)@, view_opt_bytes(raw_queries)) == Err::<
                UriView,
                InvalidUri,
            >(e) && final(uri)@ == old(uri)@,
        },
{
    let frag: &Vec<u8> = match raw_queries {
        Some(f) => f,
        None => {
            return Ok(());
        },
    };
    if frag.len() == 0 {
        return Ok(());
    }
    if !check_query_wf(frag) {
        return Err(InvalidUri);
    }
    match &uri.path_and_query {
        Some(pq) => {
            let new_query: Vec<u8> = match &pq.query {
                Some(q) => {
                    let mut nq = clone_bytes(q);
                    nq.push(0x26);
                    push_all(&mut nq, frag);
                    proof {
                        assert(nq@ =~= q@ + seq![0x26u8] + frag@);
                    }
                    nq
                },
                None => clone_bytes(frag),
            };
            let new_path = clone_bytes(&pq.path);
            *uri = Uri {
                path_and_query: Some(PathAndQuery { path: new_path, query: Some(new_query) }),
            };
            Ok(())
        },
        None => {
            let mut root: Vec<u8> = Vec::new();
            root.push(0x2f);
            proof {
                assert(root@ =~= seq![0x2fu8]);
            }
            *uri = Uri {
                path_and_query: Some(PathAndQuery { path: root, query: Some(clone_bytes(frag)) }),
            };
            Ok(())
        },
    }
}

/// View of an optional byte vector argument.
pub open spec fn view_opt_bytes(v: Option<&Vec<u8>>) -> Option<Seq<u8>> {
    match v {
        Some(b) => Some(b@),
        None => None,
    }
}

/// What `replace_path` yields on the model: an absent path changes nothing;
/// an empty one stands for the root path; a URI without a path-and-query
/// component is left unchanged since there is nothing to anchor the
/// replacement to; otherwise the new path must be well-formed and the old
/// query is kept.
pub open spec fn spec_replace_path(u: UriView, new_path: Option<Seq<u8>>) -> Result<
    UriView,
    InvalidUri,
> {
    match new_path {
        None => Ok(u),
        Some(p0) => {
            let p = if p0.len() == 0 {
                seq![0x2fu8]
            } else {
                p0
            };
            match u.path_and_query {
                None => Ok(u),
                Some(pq) => if path_wf(p) {
                    Ok(
                        UriView {
                            path_and_query: Some(PathAndQueryView { path: p, query: pq.query }),
                        },
                    )
                } else {
                    Err(InvalidUri)
                },
            }
        },
    }
}

/// Replaces the path, keeping the query string. On an error the URI is left
/// unchanged.
pub fn replace_path(uri: &mut Uri, raw_path: Option<&Vec<u8>>) -> (r: Result<(), InvalidUri>)
    requires
        old(uri)@.wf(),
    ensures
        final(uri)@.wf(),
        match r {
            Ok(_) => spec_replace_path(old(uri)@, view_opt_bytes(raw_path)) == Ok::<
                UriView,
                InvalidUri,
            >(final(uri)@),
            Err(e) => spec_replace_path(old(uri)@, view_opt_bytes(raw_path)) == Err::<
                UriView,
                InvalidUri,
            >(e) && final(uri)@ == old(uri)@,
        },
{
    let p0: &Vec<u8> = match raw_path {
        Some(p) => p,
        None => {
            return Ok(());
        },
    };
    if uri.path_and_query.is_none() {
        return Ok(());
    }
    let new_path: Vec<u8> = if p0.len() == 0 {
        let mut root: Vec<u8> = Vec::new();
        root.push(0x2f);
        proof {
            assert(root@ =~= seq![0x2fu8]);
        }
        root
    } else {
        clone_bytes(p0)
    };
    if !check_path_wf(&new_path) {
        return Err(InvalidUri);
    }
    let old_query: Option<Vec<u8>> = match &uri.path_and_query {
        Some(pq) => match &pq.query {
            Some(q) => Some(clone_bytes(q)),
            None => None,
        },
        None => None,
    };
    *uri = Uri { path_and_query: Some(PathAndQuery { path: new_path, query: old_query }) };
    Ok(())
}

/// What `replace_queries` yields on the model: absent overrides change
/// nothing; otherwise the existing query is decoded into a key-value map
/// (duplicate keys collapse, last value wins), the overrides are merged in
/// by key, and the result is re-encoded onto the existing path (the root
/// path when the URI had no component). A query that does not decode is an
/// error and leaves the URI unchanged.
pub open spec fn spec_replace_queries(
    u: UriView,
    overrides: Option<Seq<(Seq<u8>, Seq<u8>)>>,
) -> Result<UriView, InvalidUri> {
    match overrides {
        None => Ok(u),
        Some(ov) => {
            let oldq = match u.query() {
                Some(q) => q,
                None => Seq::empty(),
            };
            match crate::query::parse_query(oldq) {
                None => Err(InvalidUri),
                Some(pairs) => {
                    let merged = crate::query::merge_pairs(crate::query::collapse(pairs), ov);
                    let enc = crate::query::encode_pairs(merged);
                    Ok(
                        UriView {
                            path_and_query: Some(
                                PathAndQueryView {
                                    path: u.path_or_root(),
                                    query: if enc.len() == 0 {
                                        None
                                    } else {
                                        Some(enc)
                                    },
                                },
                            ),
                        },
                    )
                },
            }
        },
    }
}

/// The merged key-value map `replace_queries` re-encodes, before encoding.
pub open spec fn spec_replaced_pairs(
    u: UriView,
    ov: Seq<(Seq<u8>, Seq<u8>)>,
) -> Option<Seq<(Seq<u8>, Seq<u8>)>> {
    let oldq = match u.query() {
        Some(q) => q,
        None => Seq::empty(),
    };
    match crate::query::parse_query(oldq) {
        None => None,
        Some(pairs) => Some(crate::query::merge_pairs(crate::query::collapse(pairs), ov)),
    }
}

/// Decodes the existing query, merges the override map into it key by key
/// (a key present in the overrides replaces all prior values of that key),
/// and re-encodes. On an error the URI is left unchanged.
pub fn replace_queries(uri: &mut Uri, overrides: Option<&Vec<(Vec<u8>, Vec<u8>)>>) -> (r: Result<
    (),
    InvalidUri,
>)
    requires
        old(uri)@.wf(),
    ensures
        final(uri)@.wf(),
        match r {
            Ok(_) => spec_replace_queries(old(uri)@, view_opt_pairs(overrides)) == Ok::<
                UriView,
                InvalidUri,
            >(final(uri)@),
            Err(e) => spec_replace_queries(old(uri)@, view_opt_pairs(overrides)) == Err::<
                UriView,
                InvalidUri,
            >(e) && final(uri)@ == old(uri)@,
        },
{
    let ov: &Vec<(Vec<u8>, Vec<u8>)> = match overrides {
        Some(o) => o,
        None => {
            return Ok(());
        },
    };
    let oldq: Vec<u8> = match &uri.path_and_query {
        Some(pq) => match &pq.query {
            Some(q) => clone_bytes(q),
            None => Vec::new(),
        },
        None => Vec::new(),
    };
    proof {
        match old(uri)@.query() {
            Some(q) => {
                assert(oldq@ == q);
            },
            None => {
                assert(oldq@ =~= Seq::<u8>::empty());
            },
        }
    }
    let pairs = match crate::query::parse_query_exec(&oldq) {
        Some(p) => p,
        None => {
            return Err(InvalidUri);
        },
    };
    let mut merged: Vec<(Vec<u8>, Vec<u8>)> = Vec::new();
    proof {
        assert(crate::headers::pairs_view(merged@) =~= Seq::<(Seq<u8>, Seq<u8>)>::empty());
    }
    crate::query::merge_exec(&mut merged, &pairs);
    crate::query::merge_exec(&mut merged, ov);
    let enc = crate::query::encode_pairs_exec(&merged);
    let path: Vec<u8> = match &uri.path_and_query {
        Some(pq) => clone_bytes(&pq.path),
        None => {
            let mut root: Vec<u8> = Vec::new();
            root.push(0x2f);
            proof {
                assert(root@ =~= seq![0x2fu8]);
            }
            root
        },
    };
    proof {
        crate::query::lemma_encode_pairs_wf(crate::headers::pairs_view(merged@));
        assert(path_wf(path@));
    }
    let query: Option<Vec<u8>> = if enc.len() == 0 {
        None
    } else {
        Some(enc)
    };
    *uri = Uri { path_and_query: Some(PathAndQuery { path, query }) };
    Ok(())
}

/// How a URI renders back to raw bytes: the path, then `?` and the query
/// when one is present; a URI without the component renders as the root
/// path.
pub open spec fn spec_paq_bytes(u: UriView) -> Seq<u8> {
    match u.path_and_query {
        Some(pq) => match pq.query {
            Some(q) => pq.path + seq![0x3fu8] + q,
            None => pq.path,
        },
        None => seq![0x2fu8],
    }
}

impl Uri {
    /// Renders the path-and-query component back to raw bytes.
    pub fn to_paq_bytes(&self) -> (r: Vec<u8>)
        ensures
            r@ == spec_paq_bytes(self@),
    {
        match &self.path_and_query {
            Some(pq) => match &pq.query {
                Some(q) => {
                    let mut r = clone_bytes(&pq.path);
                    r.push(0x3f);
                    push_all(&mut r, q);
                    proof {
                        assert(r@ =~= pq.path@ + seq![0x3fu8] + q@);
                    }
                    r
                },
                None => clone_bytes(&pq.path),
            },
            None => {
                let mut root: Vec<u8> = Vec::new();
                root.push(0x2f);
                proof {
                    assert(root@ =~= seq![0x2fu8]);
                }
                root
            },
        }
    }
}

/// View of an optional pair-list argument.
pub open spec fn view_opt_pairs(v: Option<&Vec<(Vec<u8>, Vec<u8>)>>) -> Option<
    Seq<(Seq<u8>, Seq<u8>)>,
> {
    match v {
        Some(ps) => Some(crate::headers::pairs_view(ps@)),
        None => None,
    }
}

} // verus!
