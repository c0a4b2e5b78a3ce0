//! Deterministic ordering of the bundle: the candidate paths are sorted by
//! `path_le` before anything is rendered, so the output does not depend on
//! the order in which the file system handed the paths over.

use vstd::multiset::Multiset;
use vstd::prelude::*;
use vstd::relations::sorted_by;
use vstd::seq_lib::{lemma_sorted_unique, to_multiset_build, to_multiset_insert};

use crate::paths::{
    clone_bytes, lemma_path_le_total, lemma_path_le_transitive, lemma_path_order_total_ordering,
    path_le, path_le_bytes, path_order,
};
use crate::select::{candidate_pred, spec_candidates};

verus! {

/// The paths stand in `path_le` order.
pub open spec fn paths_sorted(s: Seq<Seq<u8>>) -> bool {
    forall|a: int, b: int| 0 <= a < b < s.len() ==> path_le(#[trigger] s[a], #[trigger] s[b])
}

/// `paths_sorted` is `sorted_by` the path order.
pub proof fn lemma_paths_sorted_is_sorted_by(s: Seq<Seq<u8>>)
    requires
        paths_sorted(s),
    ensures
        sorted_by(s, path_order()),
{
    let leq = path_order();
    assert forall|a: int, b: int| 0 <= a < b < s.len() implies #[trigger] leq(s[a], s[b]) by {
        assert(path_le(s[a], s[b]));
    }
}

/// Sort paths into `path_le` order: the result is the one sorted sequence
/// holding the same paths, `sort_by` of the input.
pub fn sort_paths(v: &Vec<Vec<u8>>) -> (r: Vec<Vec<u8>>)
    ensures
        r.deep_view() == v.deep_view().sort_by(path_order()),
        paths_sorted(r.deep_view()),
        r.deep_view().to_multiset() == v.deep_view().to_multiset(),
{
    let ghost vdv = v.deep_view();
    let mut out: Vec<Vec<u8>> = Vec::new();
    let mut i: usize = 0;
    proof {
        assert(out.deep_view() =~~= Seq::<Seq<u8>>::empty());
        assert(vdv.take(0) =~= Seq::<Seq<u8>>::empty());
    }
    while i < v.len()
        invariant
            i <= v.len(),
            vdv == v.deep_view(),
            paths_sorted(out.deep_view()),
            out.deep_view().to_multiset() == vdv.take(i as int).to_multiset(),
        decreases v.len() - i,
    {
        let x = clone_bytes(&v[i]);
        let ghost odv = out.deep_view();
        proof {
            assert(vdv[i as int] =~= v@[i as int]@);
        }
        let mut j: usize = 0;
        while j < out.len()
            invariant_except_break
                j <= out.len(),
                odv == out.deep_view(),
                x@ == vdv[i as int],
                forall|k: int| 0 <= k < j ==> path_le(#[trigger] odv[k], x@),
            ensures
                j <= out.len(),
                odv == out.deep_view(),
                x@ == vdv[i as int],
                forall|k: int| 0 <= k < j ==> path_le(#[trigger] odv[k], x@),
                j < out.len() ==> !path_le(odv[j as int], x@),
            decreases out.len() - j,
        {
            if !path_le_bytes(&out[j], &x) {
                proof {
                    assert(odv[j as int] =~= out@[j as int]@);
                }
                break ;
            }
            proof {
                assert(odv[j as int] =~= out@[j as int]@);
            }
            j = j + 1;
        }
        proof {
            assert forall|k: int| j <= k < odv.len() implies path_le(x@, #[trigger] odv[k]) by {
                lemma_path_le_total(odv[j as int], x@);
                if k > j {
                    lemma_path_le_transitive(x@, odv[j as int], odv[k]);
                }
            }
        }
        out.insert(j, x);
        proof {
            let ndv = odv.insert(j as int, vdv[i as int]);
            assert(out.deep_view() =~~= ndv);
            assert(forall|k: int| 0 <= k < j ==> ndv[k] == odv[k]);
            assert(ndv[j as int] == vdv[i as int]);
            assert(forall|k: int| j < k < ndv.len() ==> ndv[k] == odv[k - 1]);
            assert forall|a: int, b: int| 0 <= a < b < ndv.len() implies path_le(
                #[trigger] ndv[a],
                #[trigger] ndv[b],
            ) by {
                if a < j && b < j {
                    assert(path_le(odv[a], odv[b]));
                } else if b == j {
                    assert(path_le(odv[a], x@));
                } else if a == j {
                    assert(path_le(x@, odv[b - 1]));
                } else if a < j {
                    assert(path_le(odv[a], odv[b - 1]));
                } else {
                    assert(path_le(odv[a - 1], odv[b - 1]));
                }
            }
            to_multiset_insert(odv, j as int, vdv[i as int]);
            to_multiset_build(vdv.take(i as int), vdv[i as int]);
            assert(vdv.take(i as int + 1) =~= vdv.take(i as int).push(vdv[i as int]));
        }
        i = i + 1;
    }
    proof {
        assert(vdv.take(v@.len() as int) =~= vdv);
        lemma_path_order_total_ordering();
        lemma_paths_sorted_is_sorted_by(out.deep_view());
        vdv.lemma_sort_by_ensures(path_order());
        lemma_sorted_unique(out.deep_view(), vdv.sort_by(path_order()), path_order());
        assert(out.deep_view() == vdv.sort_by(path_order()));
    }
    out
}

/// Inserting an element and filtering commute.
proof fn lemma_multiset_insert_filter(m: Multiset<Seq<u8>>, pred: spec_fn(Seq<u8>) -> bool, x: Seq<u8>)
    ensures
        m.insert(x).filter(pred) == if pred(x) {
            m.filter(pred).insert(x)
        } else {
            m.filter(pred)
        },
{
    broadcast use vstd::multiset::group_multiset_axioms;

    if pred(x) {
        assert(m.insert(x).filter(pred) =~= m.filter(pred).insert(x));
    } else {
        assert(m.insert(x).filter(pred) =~= m.filter(pred));
    }
}

/// Filtering a sequence and taking its multiset commute: which candidates
/// come out depends only on which paths went in, not on their order.
pub proof fn lemma_filter_to_multiset(s: Seq<Seq<u8>>, pred: spec_fn(Seq<u8>) -> bool)
    ensures
        s.filter(pred).to_multiset() == s.to_multiset().filter(pred),
    decreases s.len(),
{
    broadcast use vstd::multiset::group_multiset_axioms;

    reveal_with_fuel(Seq::<Seq<u8>>::filter, 2);
    if s.len() == 0 {
        s.to_multiset_ensures();
        s.filter(pred).to_multiset_ensures();
        assert(s.filter(pred) =~= s);
        assert(s.to_multiset().filter(pred) =~= s.filter(pred).to_multiset());
    } else {
        let d = s.drop_last();
        let l = s.last();
        lemma_filter_to_multiset(d, pred);
        lemma_multiset_insert_filter(d.to_multiset(), pred, l);
        assert(s =~= d.push(l));
        to_multiset_build(d, l);
        if pred(l) {
            to_multiset_build(d.filter(pred), l);
            assert(s.filter(pred) == d.filter(pred).push(l));
        } else {
            assert(s.filter(pred) == d.filter(pred));
        }
    }
}

/// Enumerating twice over an unchanged tree gives the same bundle: two path
/// listings holding the same paths — in whatever order the walk hands them
/// back — select the same candidate set, and sorting both selections gives
/// the same sequence, so the bundle composed from it is byte-for-byte the
/// same.
pub proof fn lemma_enumeration_idempotent(
    paths1: Seq<Seq<u8>>,
    paths2: Seq<Seq<u8>>,
    exts: Seq<Seq<u8>>,
)
    requires
        paths1.to_multiset() == paths2.to_multiset(),
    ensures
        spec_candidates(paths1, exts).to_multiset() == spec_candidates(paths2, exts).to_multiset(),
        spec_candidates(paths1, exts).sort_by(path_order()) == spec_candidates(
            paths2,
            exts,
        ).sort_by(path_order()),
{
    let pred = candidate_pred(exts);
    let c1 = spec_candidates(paths1, exts);
    let c2 = spec_candidates(paths2, exts);
    lemma_filter_to_multiset(paths1, pred);
    lemma_filter_to_multiset(paths2, pred);
    lemma_path_order_total_ordering();
    c1.lemma_sort_by_ensures(path_order());
    c2.lemma_sort_by_ensures(path_order());
    lemma_sorted_unique(c1.sort_by(path_order()), c2.sort_by(path_order()), path_order());
}

} // verus!
