//! The package index: which directory belongs to which package.
//!
//! The index is built once per run from the workspace members and, when the
//! root directory is not already covered, from a manifest at the root.

use vstd::prelude::*;

use crate::manifest::{
    manifest_scan, scan_manifest, scan_package_record, ManifestScan, ScanModel,
};
use crate::paths::{bytes_eq, clone_bytes};
use crate::record::{workspace_version_bytes, PackageRecord, RecordModel};

verus! {

/// One index entry: a directory and the package that owns it.
pub struct IndexEntry {
    pub dir: Vec<u8>,
    pub record: PackageRecord,
}

/// Mathematical model of an `IndexEntry`.
pub struct EntryModel {
    pub dir: Seq<u8>,
    pub record: RecordModel,
}

impl View for IndexEntry {
    type V = EntryModel;

    open spec fn view(&self) -> EntryModel {
        EntryModel { dir: self.dir@, record: self.record@ }
    }
}

/// The models of a sequence of entries.
pub open spec fn entries_model(s: Seq<IndexEntry>) -> Seq<EntryModel> {
    Seq::new(s.len(), |i: int| s[i]@)
}

/// The directory-to-record map that a sequence of entries denotes: each entry
/// is inserted in order, so a later entry for the same directory replaces an
/// earlier one.
pub open spec fn entries_map(s: Seq<EntryModel>) -> Map<Seq<u8>, RecordModel>
    decreases s.len(),
{
    if s.len() == 0 {
        Map::empty()
    } else {
        entries_map(s.drop_last()).insert(s.last().dir, s.last().record)
    }
}

/// No two entries name the same directory.
pub open spec fn distinct_dirs(s: Seq<EntryModel>) -> bool {
    forall|i: int, j: int| 0 <= i < j < s.len() ==> s[i].dir != s[j].dir
}

/// A directory is in the map exactly when some entry names it.
pub proof fn lemma_entries_map_dom(s: Seq<EntryModel>, d: Seq<u8>)
    ensures
        entries_map(s).dom().contains(d) <==> exists|i: int| 0 <= i < s.len() && s[i].dir == d,
    decreases s.len(),
{
    if s.len() > 0 {
        lemma_entries_map_dom(s.drop_last(), d);
        if s.last().dir == d {
            assert(s[s.len() - 1].dir == d);
        } else if exists|i: int| 0 <= i < s.len() && s[i].dir == d {
            let i = choose|i: int| 0 <= i < s.len() && s[i].dir == d;
            assert(s.drop_last()[i] == s[i]);
        }
    }
}

/// With distinct directories, every entry's pair is in the map.
pub proof fn lemma_entries_map_pair(s: Seq<EntryModel>, i: int)
    requires
        distinct_dirs(s),
        0 <= i < s.len(),
    ensures
        entries_map(s).contains_pair(s[i].dir, s[i].record),
    decreases s.len(),
{
    if i == s.len() - 1 {
    } else {
        assert(s.drop_last()[i] == s[i]);
        assert(distinct_dirs(s.drop_last())) by {
            assert(forall|a: int, b: int|
                0 <= a < b < s.drop_last().len() ==> s.drop_last()[a] == s[a] && s.drop_last()[b]
                    == s[b]);
        }
        lemma_entries_map_pair(s.drop_last(), i);
        assert(s[i].dir != s.last().dir);
    }
}

/// The mapping from directory to owning package, as a list of entries with
/// one record per directory.
pub struct PackageIndex {
    pub entries: Vec<IndexEntry>,
}

impl View for PackageIndex {
    type V = Seq<EntryModel>;

    open spec fn view(&self) -> Seq<EntryModel> {
        entries_model(self.entries@)
    }
}

impl PackageIndex {
    /// One record per directory.
    pub open spec fn wf(&self) -> bool {
        distinct_dirs(self@)
    }

    /// The directory-to-record map this index denotes.
    pub open spec fn map_model(&self) -> Map<Seq<u8>, RecordModel> {
        entries_map(self@)
    }

    /// An index with nothing in it.
    pub fn new() -> (r: PackageIndex)
        ensures
            r@ == Seq::<EntryModel>::empty(),
            r.wf(),
            r.map_model() == Map::<Seq<u8>, RecordModel>::empty(),
    {
        let r = PackageIndex { entries: Vec::new() };
        proof {
            assert(r@ =~= Seq::<EntryModel>::empty());
        }
        r
    }

    /// Whether some package already owns this directory.
    pub fn contains_dir(&self, dir: &Vec<u8>) -> (r: bool)
        ensures
            r == self.map_model().dom().contains(dir@),
    {
        let ghost s = self@;
        proof {
            lemma_entries_map_dom(s, dir@);
        }
        let mut i: usize = 0;
        while i < self.entries.len()
            invariant
                i <= self.entries.len(),
                s == self@,
                self.map_model().dom().contains(dir@) <==> exists|j: int|
                    0 <= j < s.len() && s[j].dir == dir@,
                forall|j: int| 0 <= j < i ==> s[j].dir != dir@,
            decreases self.entries.len() - i,
        {
            if bytes_eq(&self.entries[i].dir, dir) {
                proof {
                    assert(s[i as int].dir == dir@);
                }
                return true;
            }
            i = i + 1;
        }
        false
    }

    /// Put one directory's record into the index, replacing any record the
    /// directory already had.
    pub fn insert(&mut self, dir: Vec<u8>, record: PackageRecord)
        requires
            old(self).wf(),
        ensures
            final(self).wf(),
            final(self).map_model() == old(self).map_model().insert(dir@, record@),
    {
        let ghost s = self@;
        let ghost e = EntryModel { dir: dir@, record: record@ };
        let mut i: usize = 0;
        while i < self.entries.len()
            invariant
                i <= self.entries.len(),
                s == self@,
                *self == *old(self),
                distinct_dirs(s),
                e.dir == dir@,
                e.record == record@,
                forall|j: int| 0 <= j < i ==> s[j].dir != dir@,
            decreases self.entries.len() - i,
        {
            if bytes_eq(&self.entries[i].dir, &dir) {
                proof {
                    assert(s[i as int].dir == dir@);
                }
                self.entries.set(i, IndexEntry { dir, record });
                proof {
                    assert(self@.len() == s.update(i as int, e).len());
                    assert forall|k: int| 0 <= k < self@.len() implies self@[k] == s.update(
                        i as int,
                        e,
                    )[k] by {
                        assert(self@[k] == self.entries@[k]@);
                    }
                    assert(self@ =~= s.update(i as int, e));
                    lemma_entries_map_update(s, i as int, e);
                    assert(distinct_dirs(self@)) by {
                        assert(forall|a: int|
                            0 <= a < s.len() && a != i ==> self@[a] == s[a]);
                    }
                }
                return ;
            }
            i = i + 1;
        }
        self.entries.push(IndexEntry { dir, record });
        proof {
            assert(self@ =~= s.push(e));
            assert(self@.last() == e);
            assert(self@.drop_last() =~= s);
            assert(distinct_dirs(self@)) by {
                assert(forall|a: int| 0 <= a < s.len() ==> self@[a] == s[a]);
            }
        }
    }
}

/// Replacing the entry of a directory already present updates that one key.
proof fn lemma_entries_map_update(s: Seq<EntryModel>, k: int, e: EntryModel)
    requires
        0 <= k < s.len(),
        distinct_dirs(s),
        e.dir == s[k].dir,
    ensures
        entries_map(s.update(k, e)) == entries_map(s).insert(e.dir, e.record),
    decreases s.len(),
{
    let u = s.update(k, e);
    if k == s.len() - 1 {
        assert(u.drop_last() =~= s.drop_last());
        assert(u.last() == e);
        assert(entries_map(s).insert(e.dir, e.record) =~= entries_map(s.drop_last()).insert(
            e.dir,
            e.record,
        ));
    } else {
        assert(distinct_dirs(s.drop_last())) by {
            assert(forall|a: int|
                0 <= a < s.drop_last().len() ==> s.drop_last()[a] == s[a]);
        }
        assert(u.drop_last() =~= s.drop_last().update(k, e));
        lemma_entries_map_update(s.drop_last(), k, e);
        assert(u.last() == s.last());
        assert(e.dir != s.last().dir);
        assert(entries_map(s.drop_last()).insert(e.dir, e.record).insert(
            s.last().dir,
            s.last().record,
        ) =~= entries_map(s.drop_last()).insert(s.last().dir, s.last().record).insert(
            e.dir,
            e.record,
        ));
    }
}

/// Why building the index can fail: the manifest at the root directory did
/// not parse.
#[derive(Clone, Copy, Debug, PartialEq, Eq, Structural)]
pub enum IndexError {
    MalformedRootManifest,
}

/// The map the built index denotes, or the error building it hits: the
/// workspace members are inserted in order; then, only when the root
/// directory is not yet covered, a manifest at the root contributes the root
/// entry, a malformed one is a fatal error, and a missing package section
/// contributes nothing.
pub open spec fn spec_build_index(
    members: Seq<EntryModel>,
    root_dir: Seq<u8>,
    root_scan: Option<ScanModel>,
) -> Result<Map<Seq<u8>, RecordModel>, IndexError> {
    let base = entries_map(members);
    if base.dom().contains(root_dir) {
        Ok(base)
    } else {
        match root_scan {
            None => Ok(base),
            Some(None) => Err(IndexError::MalformedRootManifest),
            Some(Some(None)) => Ok(base),
            Some(Some(Some(pkg))) => Ok(base.insert(root_dir, scan_package_record(pkg))),
        }
    }
}

/// The map model of a build result.
pub open spec fn build_result_model(r: Result<PackageIndex, IndexError>) -> Result<
    Map<Seq<u8>, RecordModel>,
    IndexError,
> {
    match r {
        Ok(idx) => Ok(idx.map_model()),
        Err(e) => Err(e),
    }
}

/// The model of an optional borrowed scan.
pub open spec fn scan_option_model(scan: Option<&ManifestScan>) -> Option<ScanModel> {
    match scan {
        Some(s) => Some(s@),
        None => None,
    }
}

/// Build the package index from the workspace members and the result of
/// scanning a manifest at the root (`None` when there is no such file).
pub fn build_index_from_scan(
    root_dir: &Vec<u8>,
    members: Vec<IndexEntry>,
    root_scan: Option<&ManifestScan>,
) -> (r: Result<PackageIndex, IndexError>)
    ensures
        build_result_model(r) == spec_build_index(
            entries_model(members@),
            root_dir@,
            scan_option_model(root_scan),
        ),
        r matches Ok(idx) ==> idx.wf(),
{
    let ghost mv = entries_model(members@);
    let mut idx = PackageIndex::new();
    let mut i: usize = 0;
    while i < members.len()
        invariant
            i <= members.len(),
            mv == entries_model(members@),
            idx.wf(),
            idx.map_model() == entries_map(mv.take(i as int)),
        decreases members.len() - i,
    {
        let dir = clone_bytes(&members[i].dir);
        let record = clone_record(&members[i].record);
        proof {
            assert(mv[i as int] == members@[i as int]@);
            assert(mv.take(i as int + 1).drop_last() =~= mv.take(i as int));
            assert(mv.take(i as int + 1).last() == mv[i as int]);
        }
        idx.insert(dir, record);
        i = i + 1;
    }
    proof {
        assert(mv.take(members@.len() as int) =~= mv);
    }
    if idx.contains_dir(root_dir) {
        return Ok(idx);
    }
    match root_scan {
        None => Ok(idx),
        Some(scan) => match scan {
            ManifestScan::Malformed => Err(IndexError::MalformedRootManifest),
            ManifestScan::NoPackage => Ok(idx),
            ManifestScan::Package { name, version } => {
                let v: Vec<u8> = match version {
                    Some(v) => clone_bytes(v),
                    None => workspace_version_bytes(),
                };
                let record = PackageRecord { name: clone_bytes(name), version: v };
                idx.insert(clone_bytes(root_dir), record);
                Ok(idx)
            },
        },
    }
}

/// Build the package index, scanning the root manifest's bytes when there is
/// a manifest file at the root.
pub fn build_index(
    root_dir: &Vec<u8>,
    members: Vec<IndexEntry>,
    root_manifest: Option<&Vec<u8>>,
) -> (r: Result<PackageIndex, IndexError>)
    ensures
        build_result_model(r) == spec_build_index(
            entries_model(members@),
            root_dir@,
            match root_manifest {
                Some(b) => Some(manifest_scan(b@)),
                None => None,
            },
        ),
        r matches Ok(idx) ==> idx.wf(),
{
    match root_manifest {
        None => build_index_from_scan(root_dir, members, None),
        Some(bytes) => {
            let scan = scan_manifest(bytes);
            build_index_from_scan(root_dir, members, Some(&scan))
        },
    }
}

/// A copy of a package record.
pub fn clone_record(r: &PackageRecord) -> (c: PackageRecord)
    ensures
        c@ == r@,
{
    PackageRecord { name: clone_bytes(&r.name), version: clone_bytes(&r.version) }
}

/// Every directory whose manifest the builder was given is a key of the
/// built index, with the record parsed for it: each member directory carries
/// its member's record, and when the root directory is not a member and its
/// manifest holds a package, the root carries that package's record.
pub proof fn lemma_index_includes_manifest_dirs(
    members: Seq<EntryModel>,
    root_dir: Seq<u8>,
    root_scan: Option<ScanModel>,
    m: Map<Seq<u8>, RecordModel>,
)
    requires
        spec_build_index(members, root_dir, root_scan) == Ok::<
            Map<Seq<u8>, RecordModel>,
            IndexError,
        >(m),
        distinct_dirs(members),
    ensures
        forall|i: int|
            0 <= i < members.len() ==> m.contains_pair(
                members[i].dir,
                members[i].record,
            ),
        match root_scan {
            Some(Some(Some(pkg))) => !entries_map(members).dom().contains(root_dir)
                ==> m.contains_pair(root_dir, scan_package_record(pkg)),
            _ => true,
        },
{
    let base = entries_map(members);
    assert forall|i: int| 0 <= i < members.len() implies m.contains_pair(
        members[i].dir,
        members[i].record,
    ) by {
        lemma_entries_map_pair(members, i);
        if !base.dom().contains(root_dir) {
            match root_scan {
                Some(Some(Some(pkg))) => {
                    lemma_entries_map_dom(members, members[i].dir);
                    assert(members[i].dir != root_dir);
                },
                _ => {},
            }
        }
    }
}

} // verus!
