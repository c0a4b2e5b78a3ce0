//! Package identity: the (name, version) pair attached to each bundled file,
//! and the fixed byte strings the tool's policy is built around.

use vstd::prelude::*;

verus! {

/// The identity of one package: its name and version, as the raw bytes that
/// will appear in a section header.
#[derive(Debug)]
pub struct PackageRecord {
    pub name: Vec<u8>,
    pub version: Vec<u8>,
}

/// Mathematical model of a `PackageRecord`.
pub struct RecordModel {
    pub name: Seq<u8>,
    pub version: Seq<u8>,
}

impl View for PackageRecord {
    type V = RecordModel;

    open spec fn view(&self) -> RecordModel {
        RecordModel { name: self.name@, version: self.version@ }
    }
}

/// Name of the manifest file that identifies a package directory.
pub open spec fn manifest_file_name() -> Seq<u8> {
    seq![
        'C' as u8,
        'a' as u8,
        'r' as u8,
        'g' as u8,
        'o' as u8,
        '.' as u8,
        't' as u8,
        'o' as u8,
        'm' as u8,
        'l' as u8,
    ]
}

/// Sentinel package name for a file that no package claims.
pub open spec fn unknown_name() -> Seq<u8> {
    seq![
        'u' as u8,
        'n' as u8,
        'k' as u8,
        'n' as u8,
        'o' as u8,
        'w' as u8,
        'n' as u8,
        '_' as u8,
        'c' as u8,
        'r' as u8,
        'a' as u8,
        't' as u8,
        'e' as u8,
    ]
}

/// Sentinel version for a file that no package claims.
pub open spec fn unknown_version() -> Seq<u8> {
    seq!['?' as u8]
}

/// Sentinel version for a package whose manifest defers its version to the
/// enclosing workspace.
pub open spec fn workspace_version() -> Seq<u8> {
    seq![
        '<' as u8,
        'w' as u8,
        'o' as u8,
        'r' as u8,
        'k' as u8,
        's' as u8,
        'p' as u8,
        'a' as u8,
        'c' as u8,
        'e' as u8,
        '>' as u8,
    ]
}

/// The model of the record the resolver falls back to when no package is found.
pub open spec fn unknown_record() -> RecordModel {
    RecordModel { name: unknown_name(), version: unknown_version() }
}

/// Bytes of the manifest file name, for run-time comparisons.
pub fn manifest_file_name_bytes() -> (r: Vec<u8>)
    ensures
        r@ == manifest_file_name(),
{
    let mut v: Vec<u8> = Vec::new();
    v.push('C' as u8);
    v.push('a' as u8);
    v.push('r' as u8);
    v.push('g' as u8);
    v.push('o' as u8);
    v.push('.' as u8);
    v.push('t' as u8);
    v.push('o' as u8);
    v.push('m' as u8);
    v.push('l' as u8);
    proof {
        assert(v@ =~= manifest_file_name());
    }
    v
}

/// The record the resolver returns when no package claims a file.
pub fn unknown_package_record() -> (r: PackageRecord)
    ensures
        r@ == unknown_record(),
{
    let mut name: Vec<u8> = Vec::new();
    name.push('u' as u8);
    name.push('n' as u8);
    name.push('k' as u8);
    name.push('n' as u8);
    name.push('o' as u8);
    name.push('w' as u8);
    name.push('n' as u8);
    name.push('_' as u8);
    name.push('c' as u8);
    name.push('r' as u8);
    name.push('a' as u8);
    name.push('t' as u8);
    name.push('e' as u8);
    let mut version: Vec<u8> = Vec::new();
    version.push('?' as u8);
    proof {
        assert(name@ =~= unknown_name());
        assert(version@ =~= unknown_version());
    }
    PackageRecord { name, version }
}

/// Bytes of the workspace-inherited version sentinel.
pub fn workspace_version_bytes() -> (r: Vec<u8>)
    ensures
        r@ == workspace_version(),
{
    let mut v: Vec<u8> = Vec::new();
    v.push('<' as u8);
    v.push('w' as u8);
    v.push('o' as u8);
    v.push('r' as u8);
    v.push('k' as u8);
    v.push('s' as u8);
    v.push('p' as u8);
    v.push('a' as u8);
    v.push('c' as u8);
    v.push('e' as u8);
    v.push('>' as u8);
    proof {
        assert(v@ =~= workspace_version());
    }
    v
}

} // verus!
