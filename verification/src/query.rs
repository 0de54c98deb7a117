//! Url-encoded query strings: percent decoding and encoding, parsing a raw
//! query into key/value pairs, re-encoding pairs, and the insert-or-update
//! merge that `replace_queries` builds on.
//!
//! Decoding maps `+` to a space and `%XY` to the byte `0xXY`; a malformed
//! escape is an error. Encoding keeps ASCII alphanumerics and `*`, `-`,
//! `.`, `_`, writes a space as `+` and everything else as `%XY` with
//! uppercase hex digits.

use vstd::prelude::*;
use crate::bytes::{bytes_eq, clone_bytes, copy_range, find_byte, find_byte_from, find_byte_in,
    lemma_find_byte, push_all};
use crate::headers::{lemma_pairs_view_push, pairs_view};
use crate::uri::{is_query_byte, query_wf};

verus! {

/// ASCII hex digit, either case.
pub open spec fn is_hex_digit(b: u8) -> bool {
    (0x30 <= b <= 0x39) || (0x41 <= b <= 0x46) || (0x61 <= b <= 0x66)
}

/// Numeric value of a hex digit.
pub open spec fn hex_val(b: u8) -> u8 {
    if 0x30 <= b <= 0x39 {
        (b - 0x30) as u8
    } else if 0x41 <= b <= 0x46 {
        (b - 0x41 + 10) as u8
    } else {
        (b - 0x61 + 10) as u8
    }
}

/// Uppercase hex digit for a value below sixteen.
pub open spec fn hex_char(v: u8) -> u8 {
    if v < 10 {
        (0x30 + v) as u8
    } else {
        (0x41 + v - 10) as u8
    }
}

/// Bytes that encode as themselves: ASCII alphanumerics and `*-._`.
pub open spec fn is_unreserved(b: u8) -> bool {
    (0x30 <= b <= 0x39) || (0x41 <= b <= 0x5a) || (0x61 <= b <= 0x7a) || b == 0x2a || b == 0x2d
        || b == 0x2e || b == 0x5f
}

/// Percent-decoding of one token stream; `None` on a malformed escape.
pub open spec fn pct_decode(s: Seq<u8>) -> Option<Seq<u8>>
    decreases s.len(),
{
    if s.len() == 0 {
        Some(Seq::empty())
    } else if s[0] == 0x25 {
        if s.len() >= 3 && is_hex_digit(s[1]) && is_hex_digit(s[2]) {
            match pct_decode(s.skip(3)) {
                Some(r) => Some(seq![(16 * hex_val(s[1]) + hex_val(s[2])) as u8] + r),
                None => None,
            }
        } else {
            None
        }
    } else if s[0] == 0x2b {
        match pct_decode(s.skip(1)) {
            Some(r) => Some(seq![0x20u8] + r),
            None => None,
        }
    } else {
        match pct_decode(s.skip(1)) {
            Some(r) => Some(seq![s[0]] + r),
            None => None,
        }
    }
}

/// Encoding of a single byte.
pub open spec fn pct_encode_byte(b: u8) -> Seq<u8> {
    if is_unreserved(b) {
        seq![b]
    } else if b == 0x20 {
        seq![0x2bu8]
    } else {
        seq![0x25u8, hex_char(b / 16), hex_char(b % 16)]
    }
}

/// Percent-encoding of a byte string.
pub open spec fn pct_encode(s: Seq<u8>) -> Seq<u8>
    decreases s.len(),
{
    if s.len() == 0 {
        Seq::empty()
    } else {
        pct_encode_byte(s[0]) + pct_encode(s.drop_first())
    }
}

/// The query split at every `&`; empty pieces are kept here and dropped by
/// the pair parser.
pub open spec fn split_amp(s: Seq<u8>) -> Seq<Seq<u8>>
    decreases s.len(),
    via split_amp_decreases
{
    let i = find_byte(s, 0x26);
    if i < 0 {
        seq![s]
    } else {
        seq![s.take(i)] + split_amp(s.skip(i + 1))
    }
}

#[via_fn]
proof fn split_amp_decreases(s: Seq<u8>) {
    lemma_find_byte(s, 0x26);
}

/// One `key=value` piece decoded; a piece without `=` reads as a key with
/// an empty value.
pub open spec fn parse_piece(p: Seq<u8>) -> Option<(Seq<u8>, Seq<u8>)> {
    let i = find_byte(p, 0x3d);
    let rk = if i < 0 {
        p
    } else {
        p.take(i)
    };
    let rv = if i < 0 {
        Seq::<u8>::empty()
    } else {
        p.skip(i + 1)
    };
    match (pct_decode(rk), pct_decode(rv)) {
        (Some(k), Some(v)) => Some((k, v)),
        _ => None,
    }
}

/// All pieces decoded in order; empty pieces vanish; one malformed piece
/// fails the whole parse.
pub open spec fn parse_pieces(ps: Seq<Seq<u8>>) -> Option<Seq<(Seq<u8>, Seq<u8>)>>
    decreases ps.len(),
{
    if ps.len() == 0 {
        Some(Seq::empty())
    } else if ps[0].len() == 0 {
        parse_pieces(ps.drop_first())
    } else {
        match (parse_piece(ps[0]), parse_pieces(ps.drop_first())) {
            (Some(p), Some(r)) => Some(seq![p] + r),
            _ => None,
        }
    }
}

/// The key/value pairs a raw query decodes to; the empty query holds none.
pub open spec fn parse_query(q: Seq<u8>) -> Option<Seq<(Seq<u8>, Seq<u8>)>> {
    if q.len() == 0 {
        Some(Seq::empty())
    } else {
        parse_pieces(split_amp(q))
    }
}

/// One pair re-encoded as `key=value`.
pub open spec fn encode_pair(p: (Seq<u8>, Seq<u8>)) -> Seq<u8> {
    pct_encode(p.0) + seq![0x3du8] + pct_encode(p.1)
}

/// All pairs re-encoded, joined with `&`.
pub open spec fn encode_pairs(ps: Seq<(Seq<u8>, Seq<u8>)>) -> Seq<u8>
    decreases ps.len(),
{
    if ps.len() == 0 {
        Seq::empty()
    } else if ps.len() == 1 {
        encode_pair(ps[0])
    } else {
        encode_pair(ps[0]) + seq![0x26u8] + encode_pairs(ps.drop_first())
    }
}

/// Insert-or-update: the first pair keyed `k` takes the value `v` in
/// place; an absent key is appended at the end.
pub open spec fn upsert(m: Seq<(Seq<u8>, Seq<u8>)>, k: Seq<u8>, v: Seq<u8>) -> Seq<
    (Seq<u8>, Seq<u8>),
>
    decreases m.len(),
{
    if m.len() == 0 {
        seq![(k, v)]
    } else if m[0].0 == k {
        seq![(k, v)] + m.drop_first()
    } else {
        seq![m[0]] + upsert(m.drop_first(), k, v)
    }
}

/// `upsert` folded over `ov`, in order.
pub open spec fn merge_pairs(
    m: Seq<(Seq<u8>, Seq<u8>)>,
    ov: Seq<(Seq<u8>, Seq<u8>)>,
) -> Seq<(Seq<u8>, Seq<u8>)>
    decreases ov.len(),
{
    if ov.len() == 0 {
        m
    } else {
        merge_pairs(upsert(m, ov[0].0, ov[0].1), ov.drop_first())
    }
}

/// Duplicate keys collapsed: keys keep their first-occurrence order and
/// the last value for a key wins.
pub open spec fn collapse(ps: Seq<(Seq<u8>, Seq<u8>)>) -> Seq<(Seq<u8>, Seq<u8>)> {
    merge_pairs(Seq::empty(), ps)
}

/// Element-wise view of a list of byte vectors.
pub open spec fn vecs_view(v: Seq<Vec<u8>>) -> Seq<Seq<u8>> {
    Seq::new(v.len(), |i: int| v[i]@)
}

proof fn lemma_vecs_view_push(v: Seq<Vec<u8>>, x: Vec<u8>)
    ensures
        vecs_view(v.push(x)) == vecs_view(v).push(x@),
{
    assert forall|k: int| 0 <= k < v.len() + 1 implies vecs_view(v.push(x))[k] == vecs_view(
        v,
    ).push(x@)[k] by {
        if k < v.len() {
            assert(v.push(x)[k] == v[k]);
        } else {
            assert(v.push(x)[k] == x);
        }
    }
    assert(vecs_view(v.push(x)) =~= vecs_view(v).push(x@));
}

proof fn lemma_opt_prepend_empty(r: Option<Seq<u8>>)
    ensures
        opt_prepend(Seq::empty(), r) == r,
{
    match r {
        Some(x) => {
            assert(Seq::<u8>::empty() + x =~= x);
        },
        None => {},
    }
}

/// `Some` prepends the prefix, `None` stays `None`.
pub open spec fn opt_prepend(a: Seq<u8>, r: Option<Seq<u8>>) -> Option<Seq<u8>> {
    match r {
        Some(x) => Some(a + x),
        None => None,
    }
}

/// As `opt_prepend`, for pair lists.
pub open spec fn opt_prepend_pairs(
    a: Seq<(Seq<u8>, Seq<u8>)>,
    r: Option<Seq<(Seq<u8>, Seq<u8>)>>,
) -> Option<Seq<(Seq<u8>, Seq<u8>)>> {
    match r {
        Some(x) => Some(a + x),
        None => None,
    }
}

/// Decodes `s`; `None` on a malformed percent escape.
pub fn pct_decode_exec(s: &Vec<u8>) -> (r: Option<Vec<u8>>)
    ensures
        match r {
            Some(v) => pct_decode(s@) == Some(v@),
            None => pct_decode(s@) == None::<Seq<u8>>,
        },
{
    let mut acc: Vec<u8> = Vec::new();
    let mut i: usize = 0;
    proof {
        assert(acc@ =~= Seq::<u8>::empty());
        assert(s@.skip(0) =~= s@);
        lemma_opt_prepend_empty(pct_decode(s@));
    }
    while i < s.len()
        invariant
            i <= s@.len(),
            pct_decode(s@) == opt_prepend(acc@, pct_decode(s@.skip(i as int))),
        decreases s@.len() - i,
    {
        let ghost t = s@.skip(i as int);
        proof {
            assert(t[0] == s@[i as int]);
        }
        let b: u8 = s[i];
        if b == 0x25 {
            if s.len() - i <= 2 {
                proof {
                    assert(t.len() < 3);
                }
                return None;
            }
            let h1: u8 = s[i + 1];
            let h2: u8 = s[i + 2];
            proof {
                assert(t[1] == s@[i + 1]);
                assert(t[2] == s@[i + 2]);
            }
            let v1: u8 = if 0x30 <= h1 && h1 <= 0x39 {
                h1 - 0x30
            } else if 0x41 <= h1 && h1 <= 0x46 {
                h1 - 0x41 + 10
            } else if 0x61 <= h1 && h1 <= 0x66 {
                h1 - 0x61 + 10
            } else {
                return None;
            };
            let v2: u8 = if 0x30 <= h2 && h2 <= 0x39 {
                h2 - 0x30
            } else if 0x41 <= h2 && h2 <= 0x46 {
                h2 - 0x41 + 10
            } else if 0x61 <= h2 && h2 <= 0x66 {
                h2 - 0x61 + 10
            } else {
                return None;
            };
            proof {
                assert(v1 == hex_val(h1) && v1 < 16);
                assert(v2 == hex_val(h2) && v2 < 16);
            }
            let ghost acc0 = acc@;
            acc.push(16 * v1 + v2);
            proof {
                assert(t.skip(3) =~= s@.skip(i + 3));
                assert forall|x: Option<Seq<u8>>| true implies opt_prepend(acc0, match x {
                    Some(r0) => Some(seq![(16 * hex_val(t[1]) + hex_val(t[2])) as u8] + r0),
                    None => None,
                }) == opt_prepend(acc@, x) by {
                    match x {
                        Some(r0) => {
                            assert(acc0 + (seq![(16 * hex_val(t[1]) + hex_val(t[2])) as u8] + r0)
                                =~= acc@ + r0);
                        },
                        None => {},
                    }
                }
            }
            i = i + 3;
        } else if b == 0x2b {
            let ghost acc0 = acc@;
            acc.push(0x20);
            proof {
                assert(t.skip(1) =~= s@.skip(i + 1));
                assert forall|x: Option<Seq<u8>>| true implies opt_prepend(acc0, match x {
                    Some(r0) => Some(seq![0x20u8] + r0),
                    None => None,
                }) == opt_prepend(acc@, x) by {
                    match x {
                        Some(r0) => {
                            assert(acc0 + (seq![0x20u8] + r0) =~= acc@ + r0);
                        },
                        None => {},
                    }
                }
            }
            i = i + 1;
        } else {
            let ghost acc0 = acc@;
            acc.push(b);
            proof {
                assert(t.skip(1) =~= s@.skip(i + 1));
                assert forall|x: Option<Seq<u8>>| true implies opt_prepend(acc0, match x {
                    Some(r0) => Some(seq![t[0]] + r0),
                    None => None,
                }) == opt_prepend(acc@, x) by {
                    match x {
                        Some(r0) => {
                            assert(acc0 + (seq![t[0]] + r0) =~= acc@ + r0);
                        },
                        None => {},
                    }
                }
            }
            i = i + 1;
        }
    }
    proof {
        assert(s@.skip(s@.len() as int) =~= Seq::<u8>::empty());
        assert(acc@ + Seq::<u8>::empty() =~= acc@);
    }
    Some(acc)
}

/// Encodes `s`.
pub fn pct_encode_exec(s: &Vec<u8>) -> (r: Vec<u8>)
    ensures
        r@ == pct_encode(s@),
{
    let mut acc: Vec<u8> = Vec::new();
    let mut i: usize = 0;
    proof {
        assert(acc@ =~= Seq::<u8>::empty());
        assert(s@.skip(0) =~= s@);
        assert(Seq::<u8>::empty() + pct_encode(s@) =~= pct_encode(s@));
    }
    while i < s.len()
        invariant
            i <= s@.len(),
            pct_encode(s@) == acc@ + pct_encode(s@.skip(i as int)),
        decreases s@.len() - i,
    {
        let ghost t = s@.skip(i as int);
        proof {
            assert(t[0] == s@[i as int]);
            assert(t.drop_first() =~= s@.skip(i + 1));
        }
        let b: u8 = s[i];
        let ghost acc0 = acc@;
        if (0x30 <= b && b <= 0x39) || (0x41 <= b && b <= 0x5a) || (0x61 <= b && b <= 0x7a) || b
            == 0x2a || b == 0x2d || b == 0x2e || b == 0x5f {
            acc.push(b);
            proof {
                assert(acc@ =~= acc0 + pct_encode_byte(t[0]));
            }
        } else if b == 0x20 {
            acc.push(0x2b);
            proof {
                assert(acc@ =~= acc0 + pct_encode_byte(t[0]));
            }
        } else {
            let hi: u8 = b / 16;
            let lo: u8 = b % 16;
            let c1: u8 = if hi < 10 {
                0x30 + hi
            } else {
                0x41 + hi - 10
            };
            let c2: u8 = if lo < 10 {
                0x30 + lo
            } else {
                0x41 + lo - 10
            };
            acc.push(0x25);
            acc.push(c1);
            acc.push(c2);
            proof {
                assert(c1 == hex_char(hi));
                assert(c2 == hex_char(lo));
                assert(acc@ =~= acc0 + pct_encode_byte(t[0]));
            }
        }
        proof {
            assert(acc0 + (pct_encode_byte(t[0]) + pct_encode(s@.skip(i + 1))) =~= acc@
                + pct_encode(s@.skip(i + 1)));
        }
        i = i + 1;
    }
    proof {
        assert(s@.skip(s@.len() as int) =~= Seq::<u8>::empty());
        assert(acc@ + Seq::<u8>::empty() =~= acc@);
    }
    acc
}

/// Splits `q` at every `&`.
pub fn split_amp_exec(q: &Vec<u8>) -> (r: Vec<Vec<u8>>)
    ensures
        vecs_view(r@) == split_amp(q@),
{
    let n: usize = q.len();
    let mut pieces: Vec<Vec<u8>> = Vec::new();
    let mut pos: usize = 0;
    proof {
        assert(q@.skip(0) =~= q@);
        assert(vecs_view(pieces@) =~= Seq::<Seq<u8>>::empty());
        assert(vecs_view(pieces@) + split_amp(q@) =~= split_amp(q@));
    }
    loop
        invariant
            pos <= n,
            n == q@.len(),
            split_amp(q@) == vecs_view(pieces@) + split_amp(q@.skip(pos as int)),
        decreases n - pos,
    {
        let ghost s = q@.skip(pos as int);
        match find_byte_from(q, 0x26, pos) {
            Some(j) => {
                let piece = copy_range(q, pos, j);
                let ghost pre = pieces@;
                pieces.push(piece);
                proof {
                    lemma_vecs_view_push(pre, piece);
                    assert(s.take(j - pos) =~= q@.subrange(pos as int, j as int));
                    assert(s.skip(j - pos + 1) =~= q@.skip(j + 1));
                    assert(vecs_view(pre) + (seq![piece@] + split_amp(q@.skip(j + 1))) =~=
                        vecs_view(pieces@) + split_amp(q@.skip(j + 1)));
                }
                pos = j + 1;
            },
            None => {
                let piece = copy_range(q, pos, n);
                let ghost pre = pieces@;
                pieces.push(piece);
                proof {
                    lemma_vecs_view_push(pre, piece);
                    assert(s =~= q@.subrange(pos as int, n as int));
                    assert(vecs_view(pre) + seq![piece@] =~= vecs_view(pieces@));
                    assert(vecs_view(pre) + split_amp(s) =~= vecs_view(pieces@));
                }
                return pieces;
            },
        }
    }
}

/// Decodes one `key=value` piece.
pub fn parse_piece_exec(p: &Vec<u8>) -> (r: Option<(Vec<u8>, Vec<u8>)>)
    ensures
        match r {
            Some(kv) => parse_piece(p@) == Some((kv.0@, kv.1@)),
            None => parse_piece(p@) == None::<(Seq<u8>, Seq<u8>)>,
        },
{
    let n: usize = p.len();
    let (rk, rv): (Vec<u8>, Vec<u8>) = match find_byte_in(p, 0x3d) {
        None => (clone_bytes(p), Vec::new()),
        Some(i) => {
            proof {
                lemma_find_byte(p@, 0x3d);
            }
            (copy_range(p, 0, i), copy_range(p, i + 1, n))
        },
    };
    proof {
        let i = find_byte(p@, 0x3d);
        if i < 0 {
            assert(rk@ == p@);
            assert(rv@ =~= Seq::<u8>::empty());
        } else {
            assert(rk@ =~= p@.take(i));
            assert(rv@ =~= p@.skip(i + 1));
        }
    }
    let k = match pct_decode_exec(&rk) {
        Some(k) => k,
        None => {
            return None;
        },
    };
    let v = match pct_decode_exec(&rv) {
        Some(v) => v,
        None => {
            return None;
        },
    };
    Some((k, v))
}

/// Decodes a list of pieces, dropping empty ones.
pub fn parse_pieces_exec(pieces: &Vec<Vec<u8>>) -> (r: Option<Vec<(Vec<u8>, Vec<u8>)>>)
    ensures
        match r {
            Some(ps) => parse_pieces(vecs_view(pieces@)) == Some(pairs_view(ps@)),
            None => parse_pieces(vecs_view(pieces@)) == None::<Seq<(Seq<u8>, Seq<u8>)>>,
        },
{
    let ghost vv = vecs_view(pieces@);
    let mut acc: Vec<(Vec<u8>, Vec<u8>)> = Vec::new();
    let mut i: usize = 0;
    proof {
        assert(vv.skip(0) =~= vv);
        assert(pairs_view(acc@) =~= Seq::<(Seq<u8>, Seq<u8>)>::empty());
    }
    while i < pieces.len()
        invariant
            i <= pieces@.len(),
            vv == vecs_view(pieces@),
            parse_pieces(vv) == opt_prepend_pairs(pairs_view(acc@), parse_pieces(
                vv.skip(i as int),
            )),
        decreases pieces@.len() - i,
    {
        let ghost t = vv.skip(i as int);
        proof {
            assert(t[0] == vv[i as int]);
            assert(t.drop_first() =~= vv.skip(i + 1));
        }
        if pieces[i].len() == 0 {
            proof {
                assert(vv[i as int].len() == 0);
            }
            i = i + 1;
        } else {
            match parse_piece_exec(&pieces[i]) {
                None => {
                    return None;
                },
                Some(kv) => {
                    let ghost acc0 = acc@;
                    let ghost pv = (kv.0@, kv.1@);
                    acc.push(kv);
                    proof {
                        lemma_pairs_view_push(acc0, kv);
                        assert forall|x: Option<Seq<(Seq<u8>, Seq<u8>)>>| true implies
                            opt_prepend_pairs(pairs_view(acc0), match x {
                            Some(r0) => Some(seq![pv] + r0),
                            None => None,
                        }) == opt_prepend_pairs(pairs_view(acc@), x) by {
                            match x {
                                Some(r0) => {
                                    assert(pairs_view(acc0) + (seq![pv] + r0) =~= pairs_view(acc@)
                                        + r0);
                                },
                                None => {},
                            }
                        }
                    }
                    i = i + 1;
                },
            }
        }
    }
    proof {
        assert(vv.skip(vv.len() as int) =~= Seq::<Seq<u8>>::empty());
        assert(pairs_view(acc@) + Seq::<(Seq<u8>, Seq<u8>)>::empty() =~= pairs_view(acc@));
    }
    Some(acc)
}

/// Decodes a whole raw query into pairs.
pub fn parse_query_exec(q: &Vec<u8>) -> (r: Option<Vec<(Vec<u8>, Vec<u8>)>>)
    ensures
        match r {
            Some(ps) => parse_query(q@) == Some(pairs_view(ps@)),
            None => parse_query(q@) == None::<Seq<(Seq<u8>, Seq<u8>)>>,
        },
{
    if q.len() == 0 {
        let empty: Vec<(Vec<u8>, Vec<u8>)> = Vec::new();
        proof {
            assert(pairs_view(empty@) =~= Seq::<(Seq<u8>, Seq<u8>)>::empty());
        }
        return Some(empty);
    }
    let pieces = split_amp_exec(q);
    parse_pieces_exec(&pieces)
}

/// Encodes one pair as `key=value`.
pub fn encode_pair_exec(k: &Vec<u8>, v: &Vec<u8>) -> (r: Vec<u8>)
    ensures
        r@ == encode_pair((k@, v@)),
{
    let mut r = pct_encode_exec(k);
    r.push(0x3d);
    let ev = pct_encode_exec(v);
    push_all(&mut r, &ev);
    proof {
        assert(r@ =~= pct_encode(k@) + seq![0x3du8] + pct_encode(v@));
    }
    r
}

/// Encodes all pairs, joined with `&`.
pub fn encode_pairs_exec(ps: &Vec<(Vec<u8>, Vec<u8>)>) -> (r: Vec<u8>)
    ensures
        r@ == encode_pairs(pairs_view(ps@)),
{
    let ghost pv = pairs_view(ps@);
    let mut acc: Vec<u8> = Vec::new();
    let mut i: usize = 0;
    while i < ps.len()
        invariant
            i <= ps@.len(),
            pv == pairs_view(ps@),
            i == 0 ==> acc@ == Seq::<u8>::empty(),
            0 < i < ps@.len() ==> encode_pairs(pv) == acc@ + seq![0x26u8] + encode_pairs(
                pv.skip(i as int),
            ),
            0 < i == ps@.len() ==> encode_pairs(pv) == acc@,
        decreases ps@.len() - i,
    {
        let ghost acc0 = acc@;
        let first = i == 0;
        if !first {
            acc.push(0x26);
        }
        let e = encode_pair_exec(&ps[i].0, &ps[i].1);
        push_all(&mut acc, &e);
        proof {
            let t = pv.skip(i as int);
            assert(t[0] == pv[i as int]);
            assert(t.drop_first() =~= pv.skip(i + 1));
            assert(pv[i as int] == (ps@[i as int].0@, ps@[i as int].1@));
            let ei = encode_pair(pv[i as int]);
            if first {
                assert(pv.skip(0) =~= pv);
                assert(acc@ =~= ei);
                if i + 1 < ps@.len() {
                    assert(encode_pairs(t) == ei + seq![0x26u8] + encode_pairs(t.drop_first()));
                } else {
                    assert(t.len() == 1);
                }
            } else {
                assert(acc@ =~= (acc0 + seq![0x26u8]) + ei);
                if i + 1 < ps@.len() {
                    assert(encode_pairs(t) == ei + seq![0x26u8] + encode_pairs(t.drop_first()));
                    assert(acc0 + seq![0x26u8] + (ei + seq![0x26u8] + encode_pairs(
                        pv.skip(i + 1),
                    )) =~= acc@ + seq![0x26u8] + encode_pairs(pv.skip(i + 1)));
                } else {
                    assert(t.len() == 1);
                    assert(encode_pairs(t) == ei);
                    assert(acc0 + seq![0x26u8] + ei =~= acc@);
                }
            }
        }
        i = i + 1;
    }
    acc
}

/// Concatenation on parse results: both sides must decode.
pub open spec fn opt_concat_pairs(
    a: Option<Seq<(Seq<u8>, Seq<u8>)>>,
    b: Option<Seq<(Seq<u8>, Seq<u8>)>>,
) -> Option<Seq<(Seq<u8>, Seq<u8>)>> {
    match (a, b) {
        (Some(x), Some(y)) => Some(x + y),
        _ => None,
    }
}

/// Splitting distributes over a `&` placed between two strings.
pub proof fn lemma_split_amp_concat(a: Seq<u8>, b: Seq<u8>)
    ensures
        split_amp(a + seq![0x26u8] + b) == split_amp(a) + split_amp(b),
    decreases a.len(),
{
    let s = a + seq![0x26u8] + b;
    lemma_find_byte(a, 0x26);
    lemma_find_byte(s, 0x26);
    let fa = find_byte(a, 0x26);
    let fs = find_byte(s, 0x26);
    assert forall|j: int| 0 <= j < a.len() implies s[j] == a[j] by {}
    assert(s[a.len() as int] == 0x26);
    if fa < 0 {
        assert forall|j: int| 0 <= j < a.len() implies s[j] != 0x26 by {}
        assert(fs >= 0);
        if fs < a.len() {
            assert(s[fs] == 0x26);
        }
        assert(fs == a.len());
        assert(s.take(fs) =~= a);
        assert(s.skip(fs + 1) =~= b);
        assert(split_amp(s) == seq![a] + split_amp(b));
        assert(split_amp(a) == seq![a]);
    } else {
        assert(s[fa] == 0x26);
        assert(fs >= 0);
        if fs < fa {
            assert(s[fs] == a[fs] && a[fs] != 0x26);
        }
        if fa < fs {
            assert(s[fa] != 0x26);
        }
        assert(fs == fa);
        assert(s.take(fs) =~= a.take(fa));
        assert(s.skip(fs + 1) =~= a.skip(fa + 1) + seq![0x26u8] + b);
        lemma_split_amp_concat(a.skip(fa + 1), b);
        assert(split_amp(s) == seq![a.take(fa)] + (split_amp(a.skip(fa + 1)) + split_amp(b)));
        assert(split_amp(a) == seq![a.take(fa)] + split_amp(a.skip(fa + 1)));
        assert(seq![a.take(fa)] + (split_amp(a.skip(fa + 1)) + split_amp(b)) =~= (seq![
            a.take(fa),
        ] + split_amp(a.skip(fa + 1))) + split_amp(b));
    }
}

/// Parsing pieces distributes over list concatenation.
pub proof fn lemma_parse_pieces_concat(xs: Seq<Seq<u8>>, ys: Seq<Seq<u8>>)
    ensures
        parse_pieces(xs + ys) == opt_concat_pairs(parse_pieces(xs), parse_pieces(ys)),
    decreases xs.len(),
{
    if xs.len() == 0 {
        assert(xs + ys =~= ys);
        match parse_pieces(ys) {
            Some(py) => {
                assert(Seq::<(Seq<u8>, Seq<u8>)>::empty() + py =~= py);
            },
            None => {},
        }
    } else {
        assert((xs + ys)[0] == xs[0]);
        assert((xs + ys).drop_first() =~= xs.drop_first() + ys);
        lemma_parse_pieces_concat(xs.drop_first(), ys);
        if xs[0].len() == 0 {
        } else {
            match (parse_piece(xs[0]), parse_pieces(xs.drop_first()), parse_pieces(ys)) {
                (Some(p), Some(r), Some(py)) => {
                    assert(seq![p] + (r + py) =~= (seq![p] + r) + py);
                },
                _ => {},
            }
        }
    }
}

/// `parse_query` agrees with parsing the split pieces, on every query.
pub proof fn lemma_parse_query_unfold(q: Seq<u8>)
    ensures
        parse_query(q) == parse_pieces(split_amp(q)),
{
    if q.len() == 0 {
        lemma_find_byte(q, 0x26);
        assert(split_amp(q) == seq![q]);
        assert(seq![q][0].len() == 0);
        assert(seq![q].drop_first() =~= Seq::<Seq<u8>>::empty());
        assert(parse_pieces(Seq::<Seq<u8>>::empty()) == Some(Seq::<(Seq<u8>, Seq<u8>)>::empty()));
    }
}

/// No byte of `s` equals `c`.
pub open spec fn no_byte(s: Seq<u8>, c: u8) -> bool {
    forall|i: int| 0 <= i < s.len() ==> s[i] != c
}

proof fn lemma_no_byte_concat(a: Seq<u8>, b: Seq<u8>, c: u8)
    requires
        no_byte(a, c),
        no_byte(b, c),
    ensures
        no_byte(a + b, c),
{
    assert forall|i: int| 0 <= i < (a + b).len() implies (a + b)[i] != c by {
        if i < a.len() {
            assert((a + b)[i] == a[i]);
        } else {
            assert((a + b)[i] == b[i - a.len()]);
        }
    }
}

/// Encoding a value below sixteen as a hex digit and reading it back is
/// the identity.
proof fn lemma_hex_roundtrip(v: u8)
    requires
        v < 16,
    ensures
        is_hex_digit(hex_char(v)),
        hex_val(hex_char(v)) == v,
{
}

/// Percent-encoding never emits a byte that is not a digit, an upper-case
/// hex letter, an unreserved byte, `+` or `%`; in particular it never
/// emits the separators `&` and `=`.
proof fn lemma_pct_encode_no_byte(s: Seq<u8>, c: u8)
    requires
        !is_unreserved(c),
        c != 0x2b,
        c != 0x25,
        !(0x30 <= c <= 0x39),
        !(0x41 <= c <= 0x46),
    ensures
        no_byte(pct_encode(s), c),
    decreases s.len(),
{
    if s.len() == 0 {
    } else {
        lemma_pct_encode_no_byte(s.drop_first(), c);
        let h = pct_encode_byte(s[0]);
        assert(no_byte(h, c)) by {
            if is_unreserved(s[0]) {
            } else if s[0] == 0x20 {
            } else {
                assert(s[0] / 16 < 16 && s[0] % 16 < 16);
                assert(h[0] == 0x25 && h[1] == hex_char(s[0] / 16) && h[2] == hex_char(
                    s[0] % 16,
                ));
            }
        }
        lemma_no_byte_concat(h, pct_encode(s.drop_first()), c);
    }
}

/// Decoding undoes encoding, on every byte string.
pub proof fn lemma_pct_decode_encode(s: Seq<u8>)
    ensures
        pct_decode(pct_encode(s)) == Some(s),
    decreases s.len(),
{
    if s.len() == 0 {
    } else {
        lemma_pct_decode_encode(s.drop_first());
        let h = pct_encode_byte(s[0]);
        let rest = pct_encode(s.drop_first());
        let e = pct_encode(s);
        assert(e == h + rest);
        if is_unreserved(s[0]) {
            assert(e[0] == s[0]);
            assert(s[0] != 0x25 && s[0] != 0x2b);
            assert(e.skip(1) =~= rest);
            assert(seq![s[0]] + s.drop_first() =~= s);
        } else if s[0] == 0x20 {
            assert(e[0] == 0x2b);
            assert(e.skip(1) =~= rest);
            assert(seq![0x20u8] + s.drop_first() =~= s);
        } else {
            let hi = (s[0] / 16) as u8;
            let lo = (s[0] % 16) as u8;
            lemma_hex_roundtrip(hi);
            lemma_hex_roundtrip(lo);
            assert(e[0] == 0x25 && e[1] == hex_char(hi) && e[2] == hex_char(lo));
            assert(e.len() >= 3);
            assert(e.skip(3) =~= rest);
            assert(16 * hex_val(e[1]) + hex_val(e[2]) == s[0]);
            assert(seq![s[0]] + s.drop_first() =~= s);
        }
    }
}

/// Parsing undoes encoding on one pair, and the encoding holds no raw
/// `&`.
proof fn lemma_parse_piece_encode(p: (Seq<u8>, Seq<u8>))
    ensures
        parse_piece(encode_pair(p)) == Some(p),
        encode_pair(p).len() > 0,
        no_byte(encode_pair(p), 0x26),
{
    let ek = pct_encode(p.0);
    let ev = pct_encode(p.1);
    let e = encode_pair(p);
    assert(e == ek + seq![0x3du8] + ev);
    lemma_pct_encode_no_byte(p.0, 0x3d);
    lemma_pct_encode_no_byte(p.0, 0x26);
    lemma_pct_encode_no_byte(p.1, 0x26);
    assert(no_byte(seq![0x3du8], 0x26));
    lemma_no_byte_concat(ek, seq![0x3du8], 0x26);
    lemma_no_byte_concat(ek + seq![0x3du8], ev, 0x26);
    lemma_find_byte(e, 0x3d);
    let f = find_byte(e, 0x3d);
    assert(e[ek.len() as int] == 0x3d);
    assert forall|j: int| 0 <= j < ek.len() implies e[j] == ek[j] && e[j] != 0x3d by {}
    assert(f >= 0);
    if f < ek.len() {
        assert(e[f] == 0x3d);
    }
    assert(f == ek.len());
    assert(e.take(f) =~= ek);
    assert(e.skip(f + 1) =~= ev);
    lemma_pct_decode_encode(p.0);
    lemma_pct_decode_encode(p.1);
    assert(parse_piece(e) == Some((p.0, p.1)));
}

/// Encoding a non-empty pair list yields non-empty bytes.
proof fn lemma_encode_pairs_nonempty(ps: Seq<(Seq<u8>, Seq<u8>)>)
    requires
        ps.len() > 0,
    ensures
        encode_pairs(ps).len() > 0,
{
    if ps.len() == 1 {
        assert(encode_pairs(ps) == encode_pair(ps[0]));
    }
}

/// Decoding undoes encoding on a whole pair list: the codec round trip.
pub proof fn lemma_parse_query_encode_pairs(m: Seq<(Seq<u8>, Seq<u8>)>)
    ensures
        parse_query(encode_pairs(m)) == Some(m),
    decreases m.len(),
{
    let e = encode_pairs(m);
    lemma_parse_query_unfold(e);
    if m.len() == 0 {
        assert(e.len() == 0);
        assert(parse_query(e) == Some(Seq::<(Seq<u8>, Seq<u8>)>::empty()));
        assert(Seq::<(Seq<u8>, Seq<u8>)>::empty() =~= m);
    } else if m.len() == 1 {
        lemma_parse_piece_encode(m[0]);
        assert(e == encode_pair(m[0]));
        lemma_find_byte(e, 0x26);
        if find_byte(e, 0x26) >= 0 {
            assert(e[find_byte(e, 0x26)] == 0x26);
        }
        assert(find_byte(e, 0x26) == -1);
        assert(split_amp(e) == seq![e]);
        assert(seq![e][0] == e && e.len() > 0);
        assert(seq![e].drop_first() =~= Seq::<Seq<u8>>::empty());
        assert(parse_pieces(Seq::<Seq<u8>>::empty()) == Some(Seq::<(Seq<u8>, Seq<u8>)>::empty()));
        assert(seq![m[0]] + Seq::<(Seq<u8>, Seq<u8>)>::empty() =~= m);
    } else {
        let e0 = encode_pair(m[0]);
        let rest = encode_pairs(m.drop_first());
        assert(e == e0 + seq![0x26u8] + rest);
        lemma_parse_piece_encode(m[0]);
        lemma_parse_query_encode_pairs(m.drop_first());
        lemma_encode_pairs_nonempty(m.drop_first());
        lemma_parse_query_unfold(rest);
        lemma_split_amp_concat(e0, rest);
        lemma_parse_pieces_concat(split_amp(e0), split_amp(rest));
        lemma_find_byte(e0, 0x26);
        if find_byte(e0, 0x26) >= 0 {
            assert(e0[find_byte(e0, 0x26)] == 0x26);
        }
        assert(find_byte(e0, 0x26) == -1);
        assert(split_amp(e0) == seq![e0]);
        assert(seq![e0][0] == e0 && e0.len() > 0);
        assert(seq![e0].drop_first() =~= Seq::<Seq<u8>>::empty());
        assert(parse_pieces(Seq::<Seq<u8>>::empty()) == Some(Seq::<(Seq<u8>, Seq<u8>)>::empty()));
        assert(parse_pieces(seq![e0]) == Some(seq![m[0]] + Seq::<(Seq<u8>, Seq<u8>)>::empty()));
        assert(parse_pieces(split_amp(rest)) == Some(m.drop_first()));
        assert((seq![m[0]] + Seq::<(Seq<u8>, Seq<u8>)>::empty()) + m.drop_first() =~= m);
    }
}

/// Some pair carries the key `k`.
pub open spec fn has_key(m: Seq<(Seq<u8>, Seq<u8>)>, k: Seq<u8>) -> bool {
    exists|i: int| 0 <= i < m.len() && m[i].0 == k
}

/// The value at the first pair keyed `k`.
pub open spec fn value_of(m: Seq<(Seq<u8>, Seq<u8>)>, k: Seq<u8>) -> Seq<u8>
    decreases m.len(),
{
    if m.len() == 0 {
        Seq::empty()
    } else if m[0].0 == k {
        m[0].1
    } else {
        value_of(m.drop_first(), k)
    }
}

/// No two pairs share a key.
pub open spec fn unique_keys(m: Seq<(Seq<u8>, Seq<u8>)>) -> bool {
    forall|i: int, j: int| 0 <= i < j < m.len() ==> m[i].0 != m[j].0
}

/// Upserting the value a key already carries changes nothing.
proof fn lemma_upsert_same_value(m: Seq<(Seq<u8>, Seq<u8>)>, k: Seq<u8>, v: Seq<u8>)
    requires
        has_key(m, k),
        value_of(m, k) == v,
    ensures
        upsert(m, k, v) == m,
    decreases m.len(),
{
    if m.len() == 0 {
    } else if m[0].0 == k {
        assert(m[0] == (k, v));
        assert(seq![(k, v)] + m.drop_first() =~= m);
    } else {
        let i = choose|i: int| 0 <= i < m.len() && m[i].0 == k;
        assert(m.drop_first()[i - 1].0 == k);
        lemma_upsert_same_value(m.drop_first(), k, v);
        assert(seq![m[0]] + m.drop_first() =~= m);
    }
}

/// Merging pairs that already stand in `m` with their own values changes
/// nothing.
proof fn lemma_merge_agreeing(m: Seq<(Seq<u8>, Seq<u8>)>, ov: Seq<(Seq<u8>, Seq<u8>)>)
    requires
        forall|l: int|
            0 <= l < ov.len() ==> has_key(m, #[trigger] ov[l].0) && value_of(m, ov[l].0)
                == ov[l].1,
    ensures
        merge_pairs(m, ov) == m,
    decreases ov.len(),
{
    if ov.len() == 0 {
    } else {
        assert(ov[0] == (ov[0].0, ov[0].1));
        lemma_upsert_same_value(m, ov[0].0, ov[0].1);
        assert forall|l: int| 0 <= l < ov.drop_first().len() implies has_key(
            m,
            #[trigger] ov.drop_first()[l].0,
        ) && value_of(m, ov.drop_first()[l].0) == ov.drop_first()[l].1 by {
            assert(ov.drop_first()[l] == ov[l + 1]);
        }
        lemma_merge_agreeing(m, ov.drop_first());
        assert(upsert(m, ov[0].0, ov[0].1) == m);
    }
}

/// Merging pairs whose keys are all fresh appends them in order.
proof fn lemma_merge_fresh(m: Seq<(Seq<u8>, Seq<u8>)>, ov: Seq<(Seq<u8>, Seq<u8>)>)
    requires
        unique_keys(ov),
        forall|l: int| 0 <= l < ov.len() ==> !has_key(m, #[trigger] ov[l].0),
    ensures
        merge_pairs(m, ov) == m + ov,
    decreases ov.len(),
{
    if ov.len() == 0 {
        assert(m + ov =~= m);
    } else {
        assert forall|j: int| 0 <= j < m.len() implies m[j].0 != ov[0].0 by {
            if m[j].0 == ov[0].0 {
                assert(has_key(m, ov[0].0));
            }
        }
        lemma_upsert_absent(m, ov[0].0, ov[0].1);
        assert(ov[0] == (ov[0].0, ov[0].1));
        assert(upsert(m, ov[0].0, ov[0].1) == m.push(ov[0]));
        assert forall|l: int| 0 <= l < ov.drop_first().len() implies !has_key(
            m.push(ov[0]),
            #[trigger] ov.drop_first()[l].0,
        ) by {
            assert(ov.drop_first()[l] == ov[l + 1]);
            if has_key(m.push(ov[0]), ov[l + 1].0) {
                let w = choose|w: int|
                    0 <= w < m.push(ov[0]).len() && m.push(ov[0])[w].0 == ov[l + 1].0;
                if w < m.len() {
                    assert(m[w].0 == ov[l + 1].0);
                    assert(has_key(m, ov[l + 1].0));
                } else {
                    assert(m.push(ov[0])[w] == ov[0]);
                }
            }
        }
        assert forall|i: int, j: int|
            0 <= i < j < ov.drop_first().len() implies ov.drop_first()[i].0
            != ov.drop_first()[j].0 by {
            assert(ov.drop_first()[i] == ov[i + 1] && ov.drop_first()[j] == ov[j + 1]);
        }
        lemma_merge_fresh(m.push(ov[0]), ov.drop_first());
        assert(m.push(ov[0]) + ov.drop_first() =~= m + ov);
    }
}

/// At a unique-keyed list, the value of each key is the value stored with
/// it.
proof fn lemma_value_of_unique(m: Seq<(Seq<u8>, Seq<u8>)>, l: int)
    requires
        unique_keys(m),
        0 <= l < m.len(),
    ensures
        value_of(m, m[l].0) == m[l].1,
    decreases m.len(),
{
    if l == 0 {
    } else {
        assert(m[0].0 != m[l].0);
        assert forall|i: int, j: int|
            0 <= i < j < m.drop_first().len() implies m.drop_first()[i].0
            != m.drop_first()[j].0 by {
            assert(m.drop_first()[i] == m[i + 1] && m.drop_first()[j] == m[j + 1]);
        }
        assert(m.drop_first()[l - 1] == m[l]);
        lemma_value_of_unique(m.drop_first(), l - 1);
    }
}

/// Collapsing a unique-keyed pair list is the identity.
pub proof fn lemma_collapse_unique(m: Seq<(Seq<u8>, Seq<u8>)>)
    requires
        unique_keys(m),
    ensures
        collapse(m) == m,
{
    assert forall|l: int| 0 <= l < m.len() implies !has_key(
        Seq::<(Seq<u8>, Seq<u8>)>::empty(),
        #[trigger] m[l].0,
    ) by {}
    lemma_merge_fresh(Seq::empty(), m);
    assert(Seq::<(Seq<u8>, Seq<u8>)>::empty() + m =~= m);
}

/// Merging a unique-keyed list into itself changes nothing.
pub proof fn lemma_merge_self(m: Seq<(Seq<u8>, Seq<u8>)>)
    requires
        unique_keys(m),
    ensures
        merge_pairs(m, m) == m,
{
    assert forall|l: int| 0 <= l < m.len() implies has_key(m, #[trigger] m[l].0) && value_of(
        m,
        m[l].0,
    ) == m[l].1 by {
        lemma_value_of_unique(m, l);
    }
    lemma_merge_agreeing(m, m);
}

/// Well-formed queries are closed under concatenation.
pub proof fn lemma_query_wf_concat(a: Seq<u8>, b: Seq<u8>)
    requires
        query_wf(a),
        query_wf(b),
    ensures
        query_wf(a + b),
{
    assert forall|i: int| 0 <= i < (a + b).len() implies is_query_byte(#[trigger] (a + b)[i]) by {
        if i < a.len() {
            assert((a + b)[i] == a[i]);
        } else {
            assert((a + b)[i] == b[i - a.len()]);
        }
    }
}

/// Everything percent-encoding emits is a well-formed query byte.
pub proof fn lemma_pct_encode_wf(s: Seq<u8>)
    ensures
        query_wf(pct_encode(s)),
    decreases s.len(),
{
    if s.len() == 0 {
        assert(query_wf(pct_encode(s)));
    } else {
        lemma_pct_encode_wf(s.drop_first());
        let h = pct_encode_byte(s[0]);
        assert(query_wf(h)) by {
            if is_unreserved(s[0]) {
            } else if s[0] == 0x20 {
            } else {
                assert(s[0] / 16 < 16 && s[0] % 16 < 16);
                assert(h[0] == 0x25 && h[1] == hex_char(s[0] / 16) && h[2] == hex_char(
                    s[0] % 16,
                ));
            }
        }
        lemma_query_wf_concat(h, pct_encode(s.drop_first()));
    }
}

/// An encoded pair is a well-formed query fragment.
pub proof fn lemma_encode_pair_wf(p: (Seq<u8>, Seq<u8>))
    ensures
        query_wf(encode_pair(p)),
{
    lemma_pct_encode_wf(p.0);
    lemma_pct_encode_wf(p.1);
    assert(query_wf(seq![0x3du8]));
    lemma_query_wf_concat(pct_encode(p.0), seq![0x3du8]);
    lemma_query_wf_concat(pct_encode(p.0) + seq![0x3du8], pct_encode(p.1));
}

/// An encoded pair list is a well-formed query string.
pub proof fn lemma_encode_pairs_wf(ps: Seq<(Seq<u8>, Seq<u8>)>)
    ensures
        query_wf(encode_pairs(ps)),
    decreases ps.len(),
{
    if ps.len() == 0 {
        assert(query_wf(encode_pairs(ps)));
    } else if ps.len() == 1 {
        lemma_encode_pair_wf(ps[0]);
    } else {
        lemma_encode_pair_wf(ps[0]);
        lemma_encode_pairs_wf(ps.drop_first());
        assert(query_wf(seq![0x26u8]));
        lemma_query_wf_concat(encode_pair(ps[0]), seq![0x26u8]);
        lemma_query_wf_concat(encode_pair(ps[0]) + seq![0x26u8], encode_pairs(ps.drop_first()));
    }
}

/// When `i` is the first index keyed `k`, `upsert` updates it in place.
proof fn lemma_upsert_found(m: Seq<(Seq<u8>, Seq<u8>)>, k: Seq<u8>, v: Seq<u8>, i: int)
    requires
        0 <= i < m.len(),
        m[i].0 == k,
        forall|j: int| 0 <= j < i ==> m[j].0 != k,
    ensures
        upsert(m, k, v) == m.update(i, (k, v)),
    decreases i,
{
    if i == 0 {
        assert(upsert(m, k, v) =~= m.update(0, (k, v)));
    } else {
        assert(m.drop_first()[i - 1].0 == k);
        assert forall|j: int| 0 <= j < i - 1 implies m.drop_first()[j].0 != k by {
            assert(m.drop_first()[j] == m[j + 1]);
        }
        lemma_upsert_found(m.drop_first(), k, v, i - 1);
        assert(seq![m[0]] + m.drop_first().update(i - 1, (k, v)) =~= m.update(i, (k, v)));
    }
}

/// When no pair is keyed `k`, `upsert` appends at the end.
proof fn lemma_upsert_absent(m: Seq<(Seq<u8>, Seq<u8>)>, k: Seq<u8>, v: Seq<u8>)
    requires
        forall|j: int| 0 <= j < m.len() ==> m[j].0 != k,
    ensures
        upsert(m, k, v) == m.push((k, v)),
    decreases m.len(),
{
    if m.len() == 0 {
        assert(upsert(m, k, v) =~= m.push((k, v)));
    } else {
        assert forall|j: int| 0 <= j < m.drop_first().len() implies m.drop_first()[j].0 != k by {
            assert(m.drop_first()[j] == m[j + 1]);
        }
        lemma_upsert_absent(m.drop_first(), k, v);
        assert(seq![m[0]] + m.drop_first().push((k, v)) =~= m.push((k, v)));
    }
}

/// Insert-or-update of one pair, in place.
pub fn upsert_pairs(m: &mut Vec<(Vec<u8>, Vec<u8>)>, k: &Vec<u8>, v: &Vec<u8>)
    ensures
        pairs_view(final(m)@) == upsert(pairs_view(old(m)@), k@, v@),
{
    let mut i: usize = 0;
    while i < m.len()
        invariant
            i <= m@.len(),
            m@ == old(m)@,
            forall|j: int| 0 <= j < i ==> pairs_view(m@)[j].0 != k@,
        decreases m@.len() - i,
    {
        if bytes_eq(&m[i].0, k) {
            let p = (clone_bytes(k), clone_bytes(v));
            let ghost pre = m@;
            proof {
                assert(pairs_view(pre)[i as int].0 == k@);
            }
            m.remove(i);
            m.insert(i, p);
            proof {
                assert(m@ =~= pre.update(i as int, p));
                lemma_upsert_found(pairs_view(pre), k@, v@, i as int);
                assert forall|x: int| 0 <= x < pre.len() implies pairs_view(
                    pre.update(i as int, p),
                )[x] == pairs_view(pre).update(i as int, (k@, v@))[x] by {
                    if x != i {
                        assert(pre.update(i as int, p)[x] == pre[x]);
                    } else {
                        assert(pre.update(i as int, p)[x] == p);
                    }
                }
                assert(pairs_view(pre.update(i as int, p)) =~= pairs_view(pre).update(
                    i as int,
                    (k@, v@),
                ));
            }
            return ;
        }
        proof {
            assert(pairs_view(m@)[i as int].0 == m@[i as int].0@);
        }
        i = i + 1;
    }
    let p = (clone_bytes(k), clone_bytes(v));
    let ghost pre = m@;
    m.push(p);
    proof {
        lemma_upsert_absent(pairs_view(pre), k@, v@);
        lemma_pairs_view_push(pre, p);
    }
}

/// `upsert_pairs` for each pair of `ov`, in order.
pub fn merge_exec(m: &mut Vec<(Vec<u8>, Vec<u8>)>, ov: &Vec<(Vec<u8>, Vec<u8>)>)
    ensures
        pairs_view(final(m)@) == merge_pairs(pairs_view(old(m)@), pairs_view(ov@)),
{
    let ghost m0 = pairs_view(m@);
    let ghost ovv = pairs_view(ov@);
    proof {
        assert(ovv.skip(0) =~= ovv);
    }
    let mut i: usize = 0;
    while i < ov.len()
        invariant
            i <= ov@.len(),
            ovv == pairs_view(ov@),
            merge_pairs(m0, ovv) == merge_pairs(pairs_view(m@), ovv.skip(i as int)),
        decreases ov@.len() - i,
    {
        proof {
            assert(ovv.skip(i as int).drop_first() =~= ovv.skip(i + 1));
            assert(ovv.skip(i as int)[0] == ovv[i as int]);
            assert(ovv[i as int] == (ov@[i as int].0@, ov@[i as int].1@));
        }
        upsert_pairs(m, &ov[i].0, &ov[i].1);
        i = i + 1;
    }
    proof {
        assert(ovv.skip(ovv.len() as int) =~= Seq::<(Seq<u8>, Seq<u8>)>::empty());
    }
}

} // verus!
