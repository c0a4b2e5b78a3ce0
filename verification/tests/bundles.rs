//! End-to-end bundles over in-memory trees, and the delivery rule.

use cargo_qp::bundle::{compose_bundle, make_section, relative_to, render_section, BundleSection};
use cargo_qp::deliver::{delivery_outcome, Delivery};
use cargo_qp::index::{build_index, IndexEntry};
use cargo_qp::record::PackageRecord;
use cargo_qp::select::{effective_extensions, select_candidates};
use cargo_qp::sort::sort_paths;

fn b(s: &str) -> Vec<u8> {
    s.as_bytes().to_vec()
}

fn record(name: &str, version: &str) -> PackageRecord {
    PackageRecord { name: b(name), version: b(version) }
}

const FOO_MANIFEST: &str = "[package]\nname = \"foo\"\nversion = \"1.0.0\"\n";
const BAR_MANIFEST: &str = "[package]\nname = \"bar\"\nversion = \"0.2.0\"\n";
const WORKSPACE_MANIFEST: &str = "[workspace]\nmembers = [\"memberB\"]\n";

#[test]
fn relative_paths_strip_the_root() {
    assert_eq!(relative_to(&b("root"), &b("root/pkgA/lib.rs")), b("pkgA/lib.rs"));
    assert_eq!(relative_to(&b(""), &b("pkgA/lib.rs")), b("pkgA/lib.rs"));
    assert_eq!(relative_to(&b("other"), &b("root/pkgA/lib.rs")), b("root/pkgA/lib.rs"));
}

#[test]
fn section_header_has_exact_shape() {
    let section = BundleSection {
        path: b("pkgA/src/lib.rs"),
        record: record("foo", "1.0.0"),
        body: b("fn lib() {}\n"),
    };
    let rendered = render_section(&section);
    assert_eq!(
        rendered,
        b("=== foo v1.0.0 :: pkgA/src/lib.rs ===\nfn lib() {}\n\n")
    );
}

#[test]
fn single_package_bundle() {
    // Root holds pkgA with a manifest and one source file; the bundle holds
    // both, in sorted order, labelled foo v1.0.0.
    let root = b("root");
    let exts = effective_extensions(&Vec::new());
    let walked = vec![b("root/pkgA/src/lib.rs"), b("root/pkgA/Cargo.toml")];
    let members = vec![IndexEntry { dir: b("root/pkgA"), record: record("foo", "1.0.0") }];
    let idx = build_index(&root, members, None).expect("ok");

    let sorted = sort_paths(&select_candidates(&walked, &exts));
    assert_eq!(sorted, vec![b("root/pkgA/Cargo.toml"), b("root/pkgA/src/lib.rs")]);

    let bodies = vec![b(FOO_MANIFEST), b("fn lib() {}\n")];
    let mut sections: Vec<BundleSection> = Vec::new();
    for (path, body) in sorted.iter().zip(bodies.into_iter()) {
        sections.push(make_section(&idx, &root, path, &Vec::new(), body));
    }
    let bundle = compose_bundle(&sections);

    let expected = format!(
        "=== foo v1.0.0 :: pkgA/Cargo.toml ===\n{}\n=== foo v1.0.0 :: pkgA/src/lib.rs ===\nfn lib() {{}}\n\n",
        FOO_MANIFEST
    );
    assert_eq!(bundle, expected.into_bytes());
}

#[test]
fn workspace_member_file_gets_member_identity() {
    // The root is a workspace whose member memberB holds bar 0.2.0; a file
    // in the member resolves to bar, not to the workspace root's identity.
    let root = b("root");
    let members = vec![
        IndexEntry { dir: b("root"), record: record("ws-root", "0.0.1") },
        IndexEntry { dir: b("root/memberB"), record: record("bar", "0.2.0") },
    ];
    let idx = build_index(&root, members, Some(&b(WORKSPACE_MANIFEST))).expect("ok");
    let section = make_section(
        &idx,
        &root,
        &b("root/memberB/src/main.rs"),
        &Vec::new(),
        b("fn main() {}\n"),
    );
    assert_eq!(section.record.name, b("bar"));
    assert_eq!(section.record.version, b("0.2.0"));
    let rendered = render_section(&section);
    assert_eq!(
        rendered,
        b("=== bar v0.2.0 :: memberB/src/main.rs ===\nfn main() {}\n\n")
    );
}

#[test]
fn stray_file_is_labelled_unknown() {
    // A file outside every package directory, with no manifest anywhere
    // above it, still renders — under the unknown sentinel.
    let root = b("root");
    let idx = build_index(&root, Vec::new(), None).expect("ok");
    let section = make_section(&idx, &root, &b("root/stray.rs"), &vec![None, None], b("x\n"));
    let rendered = render_section(&section);
    assert_eq!(rendered, b("=== unknown_crate v? :: stray.rs ===\nx\n\n"));
}

#[test]
fn fallback_walk_labels_by_nearest_manifest() {
    let root = b("root");
    let idx = build_index(&root, Vec::new(), None).expect("ok");
    let ancestors = vec![None, Some(b(BAR_MANIFEST))];
    let section = make_section(&idx, &root, &b("root/deep/file.rs"), &ancestors, b("y\n"));
    assert_eq!(section.record.name, b("bar"));
}

#[test]
fn inherited_version_renders_with_sentinel() {
    // A member whose manifest defers its version to the workspace renders
    // with the workspace sentinel in its header.
    let root = b("root");
    let idx = build_index(&root, Vec::new(), None).expect("ok");
    let ancestors = vec![Some(b(
        "[package]\nname = \"member\"\nversion.workspace = true\n",
    ))];
    let section = make_section(&idx, &root, &b("root/m/lib.rs"), &ancestors, b("z\n"));
    let rendered = render_section(&section);
    assert_eq!(rendered, b("=== member v<workspace> :: m/lib.rs ===\nz\n\n"));
}

#[test]
fn empty_bundle_is_empty() {
    let sections: Vec<BundleSection> = Vec::new();
    assert_eq!(compose_bundle(&sections), Vec::<u8>::new());
}

#[test]
fn clipboard_failure_falls_back_to_stdout() {
    // The clipboard was attempted and failed: the run warns and prints the
    // full bundle instead of dropping it.
    assert_eq!(delivery_outcome(false, true), Delivery::StdoutAfterClipboardError);
    assert_eq!(delivery_outcome(false, false), Delivery::Clipboard);
    assert_eq!(delivery_outcome(true, false), Delivery::Stdout);
}
