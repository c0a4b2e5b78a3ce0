//! Reading package identity out of manifest bytes.
//!
//! Parsing the TOML text is delegated to the `cargo_toml` crate through one
//! trusted wrapper; everything that is decided about the parse result — the
//! workspace-inherited version sentinel, what counts as a package — is
//! verified code.

use vstd::prelude::*;

use crate::paths::clone_bytes;
use crate::record::{workspace_version, workspace_version_bytes, PackageRecord, RecordModel};

verus! {

/// What a scan of one manifest file's bytes can find.
#[derive(Debug)]
pub enum ManifestScan {
    /// The bytes are not a well-formed manifest.
    Malformed,
    /// A well-formed manifest with no package section (for example a bare
    /// workspace manifest).
    NoPackage,
    /// A package, with its name and, when the manifest sets one rather than
    /// deferring to a workspace, its version.
    Package { name: Vec<u8>, version: Option<Vec<u8>> },
}

/// Model of a `ManifestScan`: `None` for a malformed manifest, `Some(None)`
/// for a manifest without a package section, and `Some(Some((name, version)))`
/// for a package, where the version is `None` when it is workspace-inherited.
pub type ScanModel = Option<Option<(Seq<u8>, Option<Seq<u8>>)>>;

impl View for ManifestScan {
    type V = ScanModel;

    open spec fn view(&self) -> ScanModel {
        match self {
            ManifestScan::Malformed => None,
            ManifestScan::NoPackage => Some(None),
            ManifestScan::Package { name, version } => Some(
                Some(
                    (
                        name@,
                        match version {
                            Some(v) => Some(v@),
                            None => None,
                        },
                    ),
                ),
            ),
        }
    }
}

/// What scanning a given sequence of manifest bytes finds: a function of the
/// bytes alone, named rather than spelled out, since it is the TOML grammar.
pub uninterp spec fn manifest_scan(bytes: Seq<u8>) -> ScanModel;

/// Relies on `cargo_toml::Manifest::from_slice` to parse manifest bytes, and
/// on `semver`'s rendering of a version; both depend on the bytes alone.
#[verifier::external_body]
fn scan_manifest_bytes(bytes: &Vec<u8>) -> (r: ManifestScan)
    ensures
        r@ == manifest_scan(bytes@),
{
    match cargo_toml::Manifest::from_slice(bytes.as_slice()) {
        Err(_) => ManifestScan::Malformed,
        Ok(m) => match m.package {
            None => ManifestScan::NoPackage,
            Some(p) => ManifestScan::Package {
                name: p.name.into_bytes(),
                version: match p.version {
                    cargo_toml::Inheritable::Set(v) => Some(v.to_string().into_bytes()),
                    cargo_toml::Inheritable::Inherited => None,
                },
            },
        },
    }
}

/// Scan manifest bytes for a package section.
pub fn scan_manifest(bytes: &Vec<u8>) -> (r: ManifestScan)
    ensures
        r@ == manifest_scan(bytes@),
{
    scan_manifest_bytes(bytes)
}

/// Model of an optional record, for contracts over `Option<PackageRecord>`.
pub open spec fn record_option_model(r: Option<PackageRecord>) -> Option<RecordModel> {
    match r {
        Some(p) => Some(p@),
        None => None,
    }
}

/// The record one scanned package yields: its name, and its version with the
/// workspace sentinel standing in for an inherited one.
pub open spec fn scan_package_record(pkg: (Seq<u8>, Option<Seq<u8>>)) -> RecordModel {
    RecordModel {
        name: pkg.0,
        version: match pkg.1 {
            Some(v) => v,
            None => workspace_version(),
        },
    }
}

/// The record a scan yields: the package's name and version, with the
/// workspace sentinel standing in for an inherited version; no record when
/// the scan found no package (or the manifest was malformed).
pub open spec fn spec_record_of_scan(s: ScanModel) -> Option<RecordModel> {
    match s {
        Some(Some(pkg)) => Some(scan_package_record(pkg)),
        _ => None,
    }
}

/// Turn a manifest scan into the record it identifies, applying the
/// workspace-inherited version sentinel.
pub fn record_of_scan(scan: &ManifestScan) -> (r: Option<PackageRecord>)
    ensures
        record_option_model(r) == spec_record_of_scan(scan@),
{
    match scan {
        ManifestScan::Malformed => None,
        ManifestScan::NoPackage => None,
        ManifestScan::Package { name, version } => {
            let v: Vec<u8> = match version {
                Some(v) => clone_bytes(v),
                None => workspace_version_bytes(),
            };
            Some(PackageRecord { name: clone_bytes(name), version: v })
        },
    }
}

} // verus!
