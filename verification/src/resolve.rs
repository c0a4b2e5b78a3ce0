//! Resolving a file path to its owning package: the deepest index directory
//! above the file wins; with no match, manifests found walking up from the
//! file's directory are consulted; with nothing found, an explicit unknown
//! sentinel stands in — resolution never fails.

use vstd::prelude::*;

use crate::index::{EntryModel, PackageIndex};
use crate::manifest::{
    manifest_scan, record_of_scan, record_option_model, scan_manifest, spec_record_of_scan,
    ManifestScan, ScanModel,
};
use crate::paths::{dir_depth, is_ancestor_dir, separator_count, SLASH};
use crate::record::{unknown_package_record, unknown_record, PackageRecord, RecordModel};

verus! {

/// Decide whether `dir` is an ancestor directory of the path `p`.
pub fn is_ancestor(dir: &Vec<u8>, p: &Vec<u8>) -> (r: bool)
    ensures
        r == is_ancestor_dir(dir@, p@),
{
    let dn = dir.len();
    if dn == 0 {
        return true;
    }
    if dn >= p.len() {
        return false;
    }
    if p[dn] != SLASH {
        return false;
    }
    let mut i: usize = 0;
    while i < dn
        invariant
            i <= dn,
            dn == dir@.len(),
            dn < p@.len(),
            forall|j: int| 0 <= j < i ==> p@[j] == dir@[j],
        decreases dn - i,
    {
        if p[i] != dir[i] {
            proof {
                assert(p@.subrange(0, dn as int)[i as int] == p@[i as int]);
            }
            return false;
        }
        i = i + 1;
    }
    proof {
        assert(p@.subrange(0, dn as int) =~= dir@);
    }
    true
}

/// Count the separator bytes in a path.
pub fn count_separators(v: &Vec<u8>) -> (r: usize)
    ensures
        r == separator_count(v@),
{
    let mut count: usize = 0;
    let mut i: usize = 0;
    while i < v.len()
        invariant
            i <= v.len(),
            count <= i,
            count == separator_count(v@.take(i as int)),
        decreases v.len() - i,
    {
        proof {
            assert(v@.take(i as int + 1).drop_last() =~= v@.take(i as int));
            assert(v@.take(i as int + 1).last() == v@[i as int]);
        }
        if v[i] == SLASH {
            count = count + 1;
        }
        i = i + 1;
    }
    proof {
        assert(v@.take(v@.len() as int) =~= v@);
    }
    count
}

/// Decide whether directory `a` is deeper than directory `b`.
pub fn deeper_than(a: &Vec<u8>, b: &Vec<u8>) -> (r: bool)
    ensures
        r == (dir_depth(a@) > dir_depth(b@)),
{
    if a.len() == 0 {
        false
    } else if b.len() == 0 {
        true
    } else {
        count_separators(a) > count_separators(b)
    }
}

/// The entry a linear scan of the index settles on: among the entries whose
/// directory is an ancestor of `p`, one of greatest depth (a strictly deeper
/// entry found later replaces the current best).
pub open spec fn spec_best_match(s: Seq<EntryModel>, p: Seq<u8>) -> Option<EntryModel>
    decreases s.len(),
{
    if s.len() == 0 {
        None
    } else {
        let prev = spec_best_match(s.drop_last(), p);
        let e = s.last();
        if !is_ancestor_dir(e.dir, p) {
            prev
        } else {
            match prev {
                None => Some(e),
                Some(b) => if dir_depth(e.dir) > dir_depth(b.dir) {
                    Some(e)
                } else {
                    Some(b)
                },
            }
        }
    }
}

/// What the best match is: nothing when no entry's directory is an ancestor
/// of `p`, and otherwise one of the matching entries, of maximal depth.
pub proof fn lemma_best_match_ensures(s: Seq<EntryModel>, p: Seq<u8>)
    ensures
        match spec_best_match(s, p) {
            None => forall|i: int| 0 <= i < s.len() ==> !is_ancestor_dir(s[i].dir, p),
            Some(e) => (exists|i: int| 0 <= i < s.len() && s[i] == e) && is_ancestor_dir(e.dir, p)
                && forall|i: int|
                0 <= i < s.len() && is_ancestor_dir(#[trigger] s[i].dir, p) ==> dir_depth(s[i].dir)
                    <= dir_depth(e.dir),
        },
    decreases s.len(),
{
    if s.len() > 0 {
        lemma_best_match_ensures(s.drop_last(), p);
        assert(forall|i: int| 0 <= i < s.len() - 1 ==> s.drop_last()[i] == s[i]);
        match spec_best_match(s.drop_last(), p) {
            None => {},
            Some(b) => {
                let bi = choose|i: int| 0 <= i < s.drop_last().len() && s.drop_last()[i] == b;
                assert(s[bi] == b);
            },
        }
        match spec_best_match(s, p) {
            None => {},
            Some(e) => {
                if s.last() == e {
                    assert(s[s.len() - 1] == e);
                }
            },
        }
    }
}

/// The record the index alone resolves `p` to, if any.
pub open spec fn spec_resolve_indexed(s: Seq<EntryModel>, p: Seq<u8>) -> Option<RecordModel> {
    match spec_best_match(s, p) {
        Some(e) => Some(e.record),
        None => None,
    }
}

/// Resolve `p` against the index alone, by longest matching directory:
/// nothing when no index directory is an ancestor of `p`, and otherwise the
/// record of a matching directory of maximal depth.
pub fn resolve_indexed(idx: &PackageIndex, p: &Vec<u8>) -> (r: Option<PackageRecord>)
    ensures
        record_option_model(r) == spec_resolve_indexed(idx@, p@),
        r is None ==> forall|i: int|
            0 <= i < idx@.len() ==> !is_ancestor_dir(#[trigger] idx@[i].dir, p@),
        (match r {
            Some(rec) => exists|i: int|
                0 <= i < idx@.len() && is_ancestor_dir(#[trigger] idx@[i].dir, p@)
                    && idx@[i].record == rec@ && (forall|j: int|
                    0 <= j < idx@.len() && is_ancestor_dir(#[trigger] idx@[j].dir, p@)
                        ==> dir_depth(idx@[j].dir) <= dir_depth(idx@[i].dir)),
            None => true,
        }),
{
    proof {
        lemma_best_match_ensures(idx@, p@);
    }
    let ghost s = idx@;
    let mut best: Option<usize> = None;
    let mut i: usize = 0;
    while i < idx.entries.len()
        invariant
            i <= idx.entries.len(),
            s == idx@,
            match best {
                None => spec_best_match(s.take(i as int), p@) is None,
                Some(k) => k < i && spec_best_match(s.take(i as int), p@) == Some(s[k as int]),
            },
        decreases idx.entries.len() - i,
    {
        proof {
            assert(s[i as int] == idx.entries@[i as int]@);
            assert(s.take(i as int + 1).drop_last() =~= s.take(i as int));
            assert(s.take(i as int + 1).last() == s[i as int]);
        }
        if is_ancestor(&idx.entries[i].dir, p) {
            match best {
                None => {
                    best = Some(i);
                },
                Some(k) => {
                    proof {
                        assert(s[k as int] == idx.entries@[k as int]@);
                    }
                    if deeper_than(&idx.entries[i].dir, &idx.entries[k].dir) {
                        best = Some(i);
                    }
                },
            }
        }
        i = i + 1;
    }
    proof {
        assert(s.take(idx.entries@.len() as int) =~= s);
    }
    match best {
        None => None,
        Some(k) => Some(crate::index::clone_record(&idx.entries[k].record)),
    }
}

/// The models of a list of optional scans.
pub open spec fn scan_options_model(s: Seq<Option<ManifestScan>>) -> Seq<Option<ScanModel>> {
    Seq::new(s.len(), |i: int| match s[i] {
        Some(m) => Some(m@),
        None => None,
    })
}

/// The record of the first scan that holds a package, if any: levels without
/// a manifest, with a malformed one, or with no package section are passed
/// over.
pub open spec fn spec_first_package(scans: Seq<Option<ScanModel>>) -> Option<RecordModel>
    decreases scans.len(),
{
    if scans.len() == 0 {
        None
    } else {
        let cur = match scans.first() {
            Some(sm) => spec_record_of_scan(sm),
            None => None,
        };
        match cur {
            Some(r) => Some(r),
            None => spec_first_package(scans.drop_first()),
        }
    }
}

/// The first package among a list of scans, nearest level first.
pub fn first_package_of_scans(scans: &Vec<Option<ManifestScan>>) -> (r: Option<PackageRecord>)
    ensures
        record_option_model(r) == spec_first_package(scan_options_model(scans@)),
{
    let ghost sm = scan_options_model(scans@);
    let mut i: usize = 0;
    proof {
        assert(sm.skip(0) =~= sm);
    }
    while i < scans.len()
        invariant
            i <= scans.len(),
            sm == scan_options_model(scans@),
            spec_first_package(sm) == spec_first_package(sm.skip(i as int)),
        decreases scans.len() - i,
    {
        proof {
            assert(sm.skip(i as int).first() == sm[i as int]);
            assert(sm.skip(i as int).drop_first() =~= sm.skip(i as int + 1));
        }
        match &scans[i] {
            None => {},
            Some(scan) => {
                match record_of_scan(scan) {
                    Some(rec) => {
                        proof {
                            assert(sm[i as int] == Some(scan@));
                        }
                        return Some(rec);
                    },
                    None => {},
                }
            },
        }
        i = i + 1;
    }
    proof {
        assert(sm.skip(scans@.len() as int) =~= Seq::<Option<ScanModel>>::empty());
    }
    None
}

/// The scans that a list of optional manifest bytes yields, one level each:
/// `None` where the level has no manifest file.
pub open spec fn ancestor_scans(anc: Seq<Option<Seq<u8>>>) -> Seq<Option<ScanModel>> {
    Seq::new(anc.len(), |i: int| match anc[i] {
        Some(b) => Some(manifest_scan(b)),
        None => None,
    })
}

/// Walk the ancestor levels, nearest first, scanning each level's manifest
/// bytes, and return the first package found.
pub fn resolve_fallback(ancestors: &Vec<Option<Vec<u8>>>) -> (r: Option<PackageRecord>)
    ensures
        record_option_model(r) == spec_first_package(ancestor_scans(ancestors.deep_view())),
{
    let ghost av = ancestors.deep_view();
    let mut scans: Vec<Option<ManifestScan>> = Vec::new();
    let mut i: usize = 0;
    while i < ancestors.len()
        invariant
            i <= ancestors.len(),
            av == ancestors.deep_view(),
            scans@.len() == i,
            forall|j: int|
                0 <= j < i ==> scan_options_model(scans@)[j] == ancestor_scans(av)[j],
        decreases ancestors.len() - i,
    {
        let level: Option<ManifestScan> = match &ancestors[i] {
            None => None,
            Some(bytes) => Some(scan_manifest(bytes)),
        };
        proof {
            match ancestors@[i as int] {
                Some(b) => {
                    assert(av[i as int] == Some(b@));
                },
                None => {
                    assert(av[i as int] is None);
                },
            }
        }
        scans.push(level);
        i = i + 1;
    }
    proof {
        assert(scan_options_model(scans@) =~= ancestor_scans(av));
    }
    first_package_of_scans(&scans)
}

/// What a file path resolves to: the record of the deepest matching index
/// directory; otherwise the first package among the ancestor scans;
/// otherwise the unknown sentinel — always a record, never an error.
pub open spec fn spec_resolve_package(
    s: Seq<EntryModel>,
    p: Seq<u8>,
    scans: Seq<Option<ScanModel>>,
) -> RecordModel {
    match spec_best_match(s, p) {
        Some(e) => e.record,
        None => match spec_first_package(scans) {
            Some(r) => r,
            None => unknown_record(),
        },
    }
}

/// Resolve a file path to its owning package's record.
pub fn resolve_package(
    idx: &PackageIndex,
    p: &Vec<u8>,
    ancestors: &Vec<Option<Vec<u8>>>,
) -> (r: PackageRecord)
    ensures
        r@ == spec_resolve_package(idx@, p@, ancestor_scans(ancestors.deep_view())),
{
    match resolve_indexed(idx, p) {
        Some(rec) => rec,
        None => match resolve_fallback(ancestors) {
            Some(rec) => rec,
            None => unknown_package_record(),
        },
    }
}

/// When a file path lies under two index directories and one is strictly
/// deeper, of maximal depth among the matches, the resolver settles on that
/// deeper directory's record, not the shallower one's.
pub proof fn lemma_deeper_key_wins(s: Seq<EntryModel>, p: Seq<u8>, i1: int, i2: int)
    requires
        crate::index::distinct_dirs(s),
        0 <= i1 < s.len(),
        0 <= i2 < s.len(),
        is_ancestor_dir(s[i1].dir, p),
        is_ancestor_dir(s[i2].dir, p),
        dir_depth(s[i1].dir) < dir_depth(s[i2].dir),
        forall|j: int|
            0 <= j < s.len() && is_ancestor_dir(#[trigger] s[j].dir, p) ==> dir_depth(s[j].dir)
                <= dir_depth(s[i2].dir),
    ensures
        spec_best_match(s, p) == Some(s[i2]),
        spec_resolve_indexed(s, p) == Some(s[i2].record),
{
    lemma_best_match_ensures(s, p);
    match spec_best_match(s, p) {
        None => {
            assert(is_ancestor_dir(s[i2].dir, p));
            assert(false);
        },
        Some(e) => {
            let be = choose|i: int| 0 <= i < s.len() && s[i] == e;
            assert(dir_depth(s[i2].dir) <= dir_depth(e.dir));
            assert(dir_depth(e.dir) <= dir_depth(s[i2].dir));
            crate::paths::lemma_ancestor_same_depth_equal(e.dir, s[i2].dir, p);
            if be != i2 {
                assert(s[be].dir == s[i2].dir);
                assert(false);
            }
        },
    }
}

/// When every scan yields no package, the walk finds nothing.
proof fn lemma_first_package_none(scans: Seq<Option<ScanModel>>)
    requires
        forall|i: int|
            0 <= i < scans.len() ==> (match #[trigger] scans[i] {
                Some(sm) => spec_record_of_scan(sm) is None,
                None => true,
            }),
    ensures
        spec_first_package(scans) is None,
    decreases scans.len(),
{
    if scans.len() > 0 {
        assert(scans[0] == scans.first());
        assert(forall|i: int| 0 <= i < scans.drop_first().len() ==> scans.drop_first()[i] == scans[i
            + 1]);
        lemma_first_package_none(scans.drop_first());
    }
}

/// A file path under no index directory, with no package found in any
/// ancestor manifest, resolves to the unknown sentinel — not to an error.
pub proof fn lemma_unmatched_resolves_to_sentinel(
    s: Seq<EntryModel>,
    p: Seq<u8>,
    scans: Seq<Option<ScanModel>>,
)
    requires
        forall|i: int| 0 <= i < s.len() ==> !is_ancestor_dir(#[trigger] s[i].dir, p),
        forall|i: int|
            0 <= i < scans.len() ==> (match #[trigger] scans[i] {
                Some(sm) => spec_record_of_scan(sm) is None,
                None => true,
            }),
    ensures
        spec_resolve_package(s, p, scans) == unknown_record(),
{
    lemma_best_match_ensures(s, p);
    match spec_best_match(s, p) {
        None => {},
        Some(e) => {
            let i = choose|i: int| 0 <= i < s.len() && s[i] == e;
            assert(false);
        },
    }
    lemma_first_package_none(scans);
}

} // verus!
