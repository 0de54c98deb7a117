//! Header multimaps: ordered lists of `(name, value)` byte pairs with an
//! additive `append` operation and an overwriting `set` operation.

use vstd::prelude::*;
use crate::bytes::{bytes_eq, clone_bytes};

verus! {

/// Element-wise view of a list of byte pairs.
pub open spec fn pairs_view(v: Seq<(Vec<u8>, Vec<u8>)>) -> Seq<(Seq<u8>, Seq<u8>)> {
    Seq::new(v.len(), |i: int| (v[i].0@, v[i].1@))
}

/// Pushing a pair commutes with taking the view.
pub proof fn lemma_pairs_view_push(v: Seq<(Vec<u8>, Vec<u8>)>, p: (Vec<u8>, Vec<u8>))
    ensures
        pairs_view(v.push(p)) == pairs_view(v).push((p.0@, p.1@)),
{
    assert forall|k: int| 0 <= k < v.len() + 1 implies pairs_view(v.push(p))[k] == pairs_view(
        v,
    ).push((p.0@, p.1@))[k] by {
        if k < v.len() {
            assert(v.push(p)[k] == v[k]);
        } else {
            assert(v.push(p)[k] == p);
        }
    }
    assert(pairs_view(v.push(p)) =~= pairs_view(v).push((p.0@, p.1@)));
}

/// The list with every pair named `name` removed; the order of the other
/// pairs is kept.
pub open spec fn remove_name(hs: Seq<(Seq<u8>, Seq<u8>)>, name: Seq<u8>) -> Seq<(Seq<u8>, Seq<u8>)>
    decreases hs.len(),
{
    if hs.len() == 0 {
        hs
    } else {
        let rest = remove_name(hs.drop_last(), name);
        if hs.last().0 == name {
            rest
        } else {
            rest.push(hs.last())
        }
    }
}

/// Overwrite semantics: all prior values for `name` are dropped and a single
/// `(name, value)` pair is appended.
pub open spec fn set_header(
    hs: Seq<(Seq<u8>, Seq<u8>)>,
    name: Seq<u8>,
    value: Seq<u8>,
) -> Seq<(Seq<u8>, Seq<u8>)> {
    remove_name(hs, name).push((name, value))
}

/// `set_header` folded over `ov`, in order.
pub open spec fn set_headers(
    hs: Seq<(Seq<u8>, Seq<u8>)>,
    ov: Seq<(Seq<u8>, Seq<u8>)>,
) -> Seq<(Seq<u8>, Seq<u8>)>
    decreases ov.len(),
{
    if ov.len() == 0 {
        hs
    } else {
        set_headers(set_header(hs, ov[0].0, ov[0].1), ov.drop_first())
    }
}

/// Adds every pair of `extra` at the end of `dst`, never overwriting.
pub fn append_headers(dst: &mut Vec<(Vec<u8>, Vec<u8>)>, extra: &Vec<(Vec<u8>, Vec<u8>)>)
    ensures
        pairs_view(final(dst)@) == pairs_view(old(dst)@) + pairs_view(extra@),
{
    let ghost dst0 = dst@;
    let mut i: usize = 0;
    while i < extra.len()
        invariant
            i <= extra.len(),
            pairs_view(dst@) == pairs_view(dst0) + pairs_view(extra@).take(i as int),
        decreases extra.len() - i,
    {
        let p = (clone_bytes(&extra[i].0), clone_bytes(&extra[i].1));
        let ghost pre = dst@;
        dst.push(p);
        proof {
            lemma_pairs_view_push(pre, p);
            assert(pairs_view(dst@) =~= pairs_view(dst0) + pairs_view(extra@).take(i + 1));
        }
        i = i + 1;
    }
    proof {
        assert(pairs_view(dst0) + pairs_view(extra@).take(extra@.len() as int) =~= pairs_view(
            dst0,
        ) + pairs_view(extra@));
    }
}

/// Removes every occurrence of `name` and appends the single pair
/// `(name, value)`.
pub fn set_header_all(hs: &mut Vec<(Vec<u8>, Vec<u8>)>, name: &Vec<u8>, value: &Vec<u8>)
    ensures
        pairs_view(final(hs)@) == set_header(pairs_view(old(hs)@), name@, value@),
{
    let mut out: Vec<(Vec<u8>, Vec<u8>)> = Vec::new();
    let mut i: usize = 0;
    while i < hs.len()
        invariant
            i <= hs.len(),
            pairs_view(out@) == remove_name(pairs_view(hs@).take(i as int), name@),
        decreases hs.len() - i,
    {
        proof {
            assert(pairs_view(hs@).take(i + 1).drop_last() =~= pairs_view(hs@).take(i as int));
            assert(pairs_view(hs@).take(i + 1).last() == pairs_view(hs@)[i as int]);
        }
        let keep = !bytes_eq(&hs[i].0, name);
        if keep {
            let p = (clone_bytes(&hs[i].0), clone_bytes(&hs[i].1));
            let ghost pre = out@;
            out.push(p);
            proof {
                lemma_pairs_view_push(pre, p);
                assert(pairs_view(out@) =~= remove_name(
                    pairs_view(hs@).take(i as int),
                    name@,
                ).push(pairs_view(hs@)[i as int]));
            }
        }
        i = i + 1;
    }
    proof {
        assert(pairs_view(hs@).take(hs@.len() as int) =~= pairs_view(hs@));
    }
    let p = (clone_bytes(name), clone_bytes(value));
    let mut result = out;
    let ghost pre = result@;
    result.push(p);
    proof {
        lemma_pairs_view_push(pre, p);
        assert(pairs_view(result@) =~= set_header(pairs_view(hs@), name@, value@));
    }
    *hs = result;
}

/// Applies `set_header_all` for each pair of `ov`, in order.
pub fn set_headers_all(hs: &mut Vec<(Vec<u8>, Vec<u8>)>, ov: &Vec<(Vec<u8>, Vec<u8>)>)
    ensures
        pairs_view(final(hs)@) == set_headers(pairs_view(old(hs)@), pairs_view(ov@)),
{
    let ghost hs0 = pairs_view(hs@);
    let ghost ovv = pairs_view(ov@);
    proof {
        assert(ovv.skip(0) =~= ovv);
    }
    let mut i: usize = 0;
    while i < ov.len()
        invariant
            i <= ov.len(),
            ovv == pairs_view(ov@),
            set_headers(hs0, ovv) == set_headers(pairs_view(hs@), ovv.skip(i as int)),
        decreases ov.len() - i,
    {
        proof {
            assert(ovv.skip(i as int).drop_first() =~= ovv.skip(i + 1));
            assert(ovv.skip(i as int)[0] == ovv[i as int]);
        }
        set_header_all(hs, &ov[i].0, &ov[i].1);
        i = i + 1;
    }
    proof {
        assert(ovv.skip(ovv.len() as int) =~= Seq::<(Seq<u8>, Seq<u8>)>::empty());
    }
}

} // verus!
