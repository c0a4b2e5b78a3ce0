//! Rendering the bundle: one section per file, in sorted order, each a
//! header line naming the owning package and the path relative to the root,
//! followed by the file's bytes and a separating newline.

use vstd::prelude::*;

use crate::index::PackageIndex;
use crate::paths::{is_ancestor_dir, subvec};
use crate::record::{PackageRecord, RecordModel};
use crate::resolve::{ancestor_scans, is_ancestor, resolve_package, spec_resolve_package};

verus! {

/// One rendered unit of the bundle: a file's root-relative path, the record
/// of the package that owns it, and the file's bytes.
pub struct BundleSection {
    pub path: Vec<u8>,
    pub record: PackageRecord,
    pub body: Vec<u8>,
}

/// Mathematical model of a `BundleSection`.
pub struct SectionModel {
    pub path: Seq<u8>,
    pub record: RecordModel,
    pub body: Seq<u8>,
}

impl View for BundleSection {
    type V = SectionModel;

    open spec fn view(&self) -> SectionModel {
        SectionModel { path: self.path@, record: self.record@, body: self.body@ }
    }
}

/// The models of a sequence of sections.
pub open spec fn sections_model(s: Seq<BundleSection>) -> Seq<SectionModel> {
    Seq::new(s.len(), |i: int| s[i]@)
}

/// The bytes that open a header line.
pub open spec fn header_open() -> Seq<u8> {
    seq!['=' as u8, '=' as u8, '=' as u8, ' ' as u8]
}

/// The bytes between the package name and its version.
pub open spec fn header_version_sep() -> Seq<u8> {
    seq![' ' as u8, 'v' as u8]
}

/// The bytes between the version and the relative path.
pub open spec fn header_path_sep() -> Seq<u8> {
    seq![' ' as u8, ':' as u8, ':' as u8, ' ' as u8]
}

/// The bytes that close a header line.
pub open spec fn header_close() -> Seq<u8> {
    seq![' ' as u8, '=' as u8, '=' as u8, '=' as u8, '\n' as u8]
}

/// One section's bytes: the header line, the file's bytes, and one
/// separating newline.
pub open spec fn spec_section(s: SectionModel) -> Seq<u8> {
    header_open() + s.record.name + header_version_sep() + s.record.version + header_path_sep()
        + s.path + header_close() + s.body + seq!['\n' as u8]
}

/// The whole bundle's bytes: the sections' bytes in order, with nothing in
/// between.
pub open spec fn spec_bundle(sections: Seq<SectionModel>) -> Seq<u8>
    decreases sections.len(),
{
    if sections.len() == 0 {
        Seq::empty()
    } else {
        spec_bundle(sections.drop_last()) + spec_section(sections.last())
    }
}

/// A path relative to the root: the part after the root directory and its
/// separator, or the path unchanged when it does not lie under the root.
pub open spec fn spec_relative_to(root: Seq<u8>, p: Seq<u8>) -> Seq<u8> {
    if root.len() == 0 {
        p
    } else if is_ancestor_dir(root, p) {
        p.skip(root.len() as int + 1)
    } else {
        p
    }
}

/// Append `src`'s bytes to `dst`.
pub fn append_bytes(dst: &mut Vec<u8>, src: &Vec<u8>)
    ensures
        final(dst)@ == old(dst)@ + src@,
{
    let ghost base = dst@;
    let mut i: usize = 0;
    while i < src.len()
        invariant
            i <= src.len(),
            dst@ == base + src@.take(i as int),
        decreases src.len() - i,
    {
        dst.push(src[i]);
        proof {
            assert(dst@ =~= base + src@.take(i as int + 1));
        }
        i = i + 1;
    }
    proof {
        assert(base + src@.take(src@.len() as int) =~= base + src@);
    }
}

/// Compute a path relative to the root.
pub fn relative_to(root: &Vec<u8>, p: &Vec<u8>) -> (r: Vec<u8>)
    ensures
        r@ == spec_relative_to(root@, p@),
{
    let rn = root.len();
    let pn = p.len();
    if rn == 0 {
        subvec(p, 0, pn)
    } else if is_ancestor(root, p) {
        proof {
            assert(rn < pn);
            assert(p@.subrange(rn as int + 1, pn as int) =~= p@.skip(rn as int + 1));
        }
        subvec(p, rn + 1, pn)
    } else {
        subvec(p, 0, pn)
    }
}

/// Render one section's bytes.
pub fn render_section(section: &BundleSection) -> (r: Vec<u8>)
    ensures
        r@ == spec_section(section@),
{
    let mut r: Vec<u8> = Vec::new();
    r.push('=' as u8);
    r.push('=' as u8);
    r.push('=' as u8);
    r.push(' ' as u8);
    append_bytes(&mut r, &section.record.name);
    r.push(' ' as u8);
    r.push('v' as u8);
    append_bytes(&mut r, &section.record.version);
    r.push(' ' as u8);
    r.push(':' as u8);
    r.push(':' as u8);
    r.push(' ' as u8);
    append_bytes(&mut r, &section.path);
    r.push(' ' as u8);
    r.push('=' as u8);
    r.push('=' as u8);
    r.push('=' as u8);
    r.push('\n' as u8);
    append_bytes(&mut r, &section.body);
    r.push('\n' as u8);
    proof {
        assert(r@ =~= spec_section(section@));
    }
    r
}

/// Render the whole bundle: each section in the given order.
pub fn compose_bundle(sections: &Vec<BundleSection>) -> (r: Vec<u8>)
    ensures
        r@ == spec_bundle(sections_model(sections@)),
{
    let ghost sm = sections_model(sections@);
    let mut r: Vec<u8> = Vec::new();
    let mut i: usize = 0;
    proof {
        assert(r@ =~= spec_bundle(sm.take(0)));
    }
    while i < sections.len()
        invariant
            i <= sections.len(),
            sm == sections_model(sections@),
            r@ == spec_bundle(sm.take(i as int)),
        decreases sections.len() - i,
    {
        proof {
            assert(sm[i as int] == sections@[i as int]@);
            assert(sm.take(i as int + 1).drop_last() =~= sm.take(i as int));
            assert(sm.take(i as int + 1).last() == sm[i as int]);
        }
        let piece = render_section(&sections[i]);
        append_bytes(&mut r, &piece);
        i = i + 1;
    }
    proof {
        assert(sm.take(sections@.len() as int) =~= sm);
    }
    r
}

/// Build one file's section: resolve the owning package, compute the
/// root-relative path, and attach the file's bytes.
pub fn make_section(
    idx: &PackageIndex,
    root: &Vec<u8>,
    path: &Vec<u8>,
    ancestors: &Vec<Option<Vec<u8>>>,
    body: Vec<u8>,
) -> (s: BundleSection)
    ensures
        s@.record == spec_resolve_package(idx@, path@, ancestor_scans(ancestors.deep_view())),
        s@.path == spec_relative_to(root@, path@),
        s@.body == body@,
{
    let record = resolve_package(idx, path, ancestors);
    let rel = relative_to(root, path);
    BundleSection { path: rel, record, body }
}

} // verus!
