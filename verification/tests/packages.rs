//! Package identity: scanning manifests, building the index, and resolving
//! files to their owning package.

use cargo_qp::index::{build_index, IndexEntry, IndexError, PackageIndex};
use cargo_qp::manifest::{record_of_scan, scan_manifest, ManifestScan};
use cargo_qp::record::PackageRecord;
use cargo_qp::resolve::{
    first_package_of_scans, resolve_fallback, resolve_indexed, resolve_package,
};

fn b(s: &str) -> Vec<u8> {
    s.as_bytes().to_vec()
}

fn record(name: &str, version: &str) -> PackageRecord {
    PackageRecord { name: b(name), version: b(version) }
}

fn entry(dir: &str, name: &str, version: &str) -> IndexEntry {
    IndexEntry { dir: b(dir), record: record(name, version) }
}

const FOO_MANIFEST: &str = "[package]\nname = \"foo\"\nversion = \"1.0.0\"\n";
const BAR_MANIFEST: &str = "[package]\nname = \"bar\"\nversion = \"0.2.0\"\n";
const WORKSPACE_MANIFEST: &str = "[workspace]\nmembers = [\"memberB\"]\n";
const INHERITED_MANIFEST: &str =
    "[package]\nname = \"member\"\nversion.workspace = true\n";

#[test]
fn scan_reads_name_and_version() {
    let scan = scan_manifest(&b(FOO_MANIFEST));
    let rec = record_of_scan(&scan).expect("package expected");
    assert_eq!(rec.name, b("foo"));
    assert_eq!(rec.version, b("1.0.0"));
}

#[test]
fn scan_of_workspace_manifest_has_no_package() {
    let scan = scan_manifest(&b(WORKSPACE_MANIFEST));
    assert!(record_of_scan(&scan).is_none());
}

#[test]
fn scan_of_garbage_is_malformed() {
    let scan = scan_manifest(&b("this is { not toml"));
    assert!(matches!(scan, ManifestScan::Malformed));
}

#[test]
fn inherited_version_gets_workspace_sentinel() {
    let scan = scan_manifest(&b(INHERITED_MANIFEST));
    let rec = record_of_scan(&scan).expect("package expected");
    assert_eq!(rec.name, b("member"));
    assert_eq!(rec.version, b("<workspace>"));
}

#[test]
fn index_includes_member_directories() {
    let members = vec![
        entry("root/pkgA", "foo", "1.0.0"),
        entry("root/pkgB", "bar", "0.2.0"),
    ];
    let idx = build_index(&b("root"), members, None).expect("no root manifest");
    let rec = resolve_indexed(&idx, &b("root/pkgA/src/lib.rs")).expect("resolved");
    assert_eq!(rec.name, b("foo"));
    assert_eq!(rec.version, b("1.0.0"));
}

#[test]
fn index_adds_standalone_root_manifest() {
    let idx = build_index(&b("root"), Vec::new(), Some(&b(FOO_MANIFEST))).expect("parsed");
    let rec = resolve_indexed(&idx, &b("root/src/lib.rs")).expect("resolved");
    assert_eq!(rec.name, b("foo"));
    assert_eq!(rec.version, b("1.0.0"));
}

#[test]
fn malformed_root_manifest_is_fatal() {
    let r = build_index(&b("root"), Vec::new(), Some(&b("not { toml")));
    assert!(matches!(r, Err(IndexError::MalformedRootManifest)));
}

#[test]
fn covered_root_ignores_its_manifest() {
    // The workspace query already claimed the root directory; whatever lies
    // in the root manifest file is not consulted.
    let members = vec![entry("root", "ws", "0.1.0")];
    let idx = build_index(&b("root"), members, Some(&b("not { toml"))).expect("covered");
    let rec = resolve_indexed(&idx, &b("root/main.rs")).expect("resolved");
    assert_eq!(rec.name, b("ws"));
}

#[test]
fn workspace_manifest_at_root_adds_no_entry() {
    let idx =
        build_index(&b("root"), Vec::new(), Some(&b(WORKSPACE_MANIFEST))).expect("no package");
    assert!(resolve_indexed(&idx, &b("root/main.rs")).is_none());
}

#[test]
fn deeper_index_key_wins() {
    // The file lies under both the workspace root and the member directory;
    // the member, being deeper, owns it.
    let members = vec![
        entry("root", "workspace-root", "0.1.0"),
        entry("root/memberB", "bar", "0.2.0"),
    ];
    let idx = build_index(&b("root"), members, None).expect("ok");
    let rec = resolve_indexed(&idx, &b("root/memberB/src/main.rs")).expect("resolved");
    assert_eq!(rec.name, b("bar"));
    assert_eq!(rec.version, b("0.2.0"));
    // Order of insertion does not matter.
    let members = vec![
        entry("root/memberB", "bar", "0.2.0"),
        entry("root", "workspace-root", "0.1.0"),
    ];
    let idx = build_index(&b("root"), members, None).expect("ok");
    let rec = resolve_indexed(&idx, &b("root/memberB/src/main.rs")).expect("resolved");
    assert_eq!(rec.name, b("bar"));
}

#[test]
fn sibling_directory_does_not_match() {
    let members = vec![entry("root/pkgA", "foo", "1.0.0")];
    let idx = build_index(&b("root"), members, None).expect("ok");
    assert!(resolve_indexed(&idx, &b("root/pkgAx/lib.rs")).is_none());
    assert!(resolve_indexed(&idx, &b("elsewhere/lib.rs")).is_none());
}

#[test]
fn fallback_walk_finds_nearest_package() {
    // Nearest ancestor has no manifest, next one holds bar.
    let ancestors = vec![None, Some(b(BAR_MANIFEST)), Some(b(FOO_MANIFEST))];
    let rec = resolve_fallback(&ancestors).expect("found");
    assert_eq!(rec.name, b("bar"));
    assert_eq!(rec.version, b("0.2.0"));
}

#[test]
fn fallback_walk_skips_manifests_without_package() {
    let ancestors = vec![Some(b(WORKSPACE_MANIFEST)), Some(b("broken {")), Some(b(FOO_MANIFEST))];
    let rec = resolve_fallback(&ancestors).expect("found");
    assert_eq!(rec.name, b("foo"));
}

#[test]
fn first_package_of_scans_picks_first() {
    let scans = vec![
        None,
        Some(ManifestScan::NoPackage),
        Some(ManifestScan::Malformed),
        Some(ManifestScan::Package { name: b("near"), version: Some(b("0.1.0")) }),
        Some(ManifestScan::Package { name: b("far"), version: Some(b("9.9.9")) }),
    ];
    let rec = first_package_of_scans(&scans).expect("found");
    assert_eq!(rec.name, b("near"));
    assert_eq!(rec.version, b("0.1.0"));
}

#[test]
fn unmatched_file_resolves_to_unknown_sentinel() {
    // No index key above the file and no manifest in any ancestor: the
    // resolver answers with the sentinel, it does not fail.
    let members = vec![entry("root/pkgA", "foo", "1.0.0")];
    let idx = build_index(&b("root"), members, None).expect("ok");
    let rec = resolve_package(&idx, &b("root/misc/notes.rs"), &vec![None, None]);
    assert_eq!(rec.name, b("unknown_crate"));
    assert_eq!(rec.version, b("?"));
}

#[test]
fn empty_index_resolves_through_walk() {
    let idx: PackageIndex = build_index(&b("root"), Vec::new(), None).expect("empty");
    let rec = resolve_package(&idx, &b("root/x.rs"), &vec![Some(b(FOO_MANIFEST))]);
    assert_eq!(rec.name, b("foo"));
}
