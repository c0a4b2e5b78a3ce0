//! File-selection policy and ordering: extensions, manifest names, and the
//! deterministic sort.

use cargo_qp::paths::{bytes_eq, extension_bytes, file_name_bytes, path_le_bytes};
use cargo_qp::select::{effective_extensions, is_candidate, select_candidates};
use cargo_qp::sort::sort_paths;

fn b(s: &str) -> Vec<u8> {
    s.as_bytes().to_vec()
}

#[test]
fn file_name_of_nested_path() {
    assert_eq!(file_name_bytes(&b("pkgA/src/lib.rs")), b("lib.rs"));
    assert_eq!(file_name_bytes(&b("lib.rs")), b("lib.rs"));
    assert_eq!(file_name_bytes(&b("dir/")), b(""));
    assert_eq!(file_name_bytes(&b("")), b(""));
}

#[test]
fn extension_of_file_names() {
    assert_eq!(extension_bytes(&b("lib.rs")), Some(b("rs")));
    assert_eq!(extension_bytes(&b("archive.tar.gz")), Some(b("gz")));
    assert_eq!(extension_bytes(&b("Makefile")), None);
    assert_eq!(extension_bytes(&b(".gitignore")), None);
    assert_eq!(extension_bytes(&b("trailing.")), Some(b("")));
}

#[test]
fn bytes_eq_compares_contents() {
    assert!(bytes_eq(&b("abc"), &b("abc")));
    assert!(!bytes_eq(&b("abc"), &b("abd")));
    assert!(!bytes_eq(&b("abc"), &b("ab")));
}

#[test]
fn default_extensions_are_rs_and_toml() {
    let exts = effective_extensions(&Vec::new());
    assert_eq!(exts, vec![b("rs"), b("toml")]);
}

#[test]
fn toml_extension_is_forced_in() {
    let exts = effective_extensions(&vec![b("md")]);
    assert_eq!(exts, vec![b("md"), b("toml")]);
    let exts = effective_extensions(&vec![b("toml"), b("md")]);
    assert_eq!(exts, vec![b("toml"), b("md")]);
}

#[test]
fn manifest_is_candidate_without_toml_extension_in_list() {
    // The allow-list was configured without any toml-like extension; the
    // manifest file still qualifies, by name.
    let exts = vec![b("rs")];
    assert!(is_candidate(&b("pkgA/Cargo.toml"), &exts));
    assert!(is_candidate(&b("Cargo.toml"), &exts));
    // An ordinary toml file does not.
    assert!(!is_candidate(&b("pkgA/config.toml"), &exts));
}

#[test]
fn denied_directories_are_excluded() {
    let exts = effective_extensions(&Vec::new());
    assert!(!is_candidate(&b("target/debug/gen.rs"), &exts));
    assert!(!is_candidate(&b("pkgA/target/gen.rs"), &exts));
    assert!(!is_candidate(&b(".git/config.toml"), &exts));
    assert!(!is_candidate(&b("web/node_modules/x/Cargo.toml"), &exts));
    // Similar names are not denied.
    assert!(is_candidate(&b("targets/a.rs"), &exts));
    assert!(is_candidate(&b("my-target/a.rs"), &exts));
    // A plain file named like the directory is fine.
    assert!(is_candidate(&b("target.rs"), &exts));
}

#[test]
fn candidates_respect_extension_list() {
    let exts = effective_extensions(&Vec::new());
    let paths = vec![
        b("README.md"),
        b("pkgA/src/lib.rs"),
        b("pkgA/Cargo.toml"),
        b("pkgA/data.json"),
        b(".gitignore"),
    ];
    let picked = select_candidates(&paths, &exts);
    assert_eq!(picked, vec![b("pkgA/src/lib.rs"), b("pkgA/Cargo.toml")]);
}

#[test]
fn path_order_is_component_wise() {
    // "a-b" sorts after "a" as a directory component, although '-' < '/' in
    // raw byte order.
    assert!(path_le_bytes(&b("a/x.rs"), &b("a-b/x.rs")));
    assert!(!path_le_bytes(&b("a-b/x.rs"), &b("a/x.rs")));
    assert!(path_le_bytes(&b("a/x.rs"), &b("a/x.rs")));
    assert!(path_le_bytes(&b("a"), &b("a/x.rs")));
}

#[test]
fn sort_orders_paths_lexicographically() {
    let paths = vec![
        b("pkgB/src/main.rs"),
        b("Cargo.toml"),
        b("pkgA/src/lib.rs"),
        b("pkgA/Cargo.toml"),
    ];
    let sorted = sort_paths(&paths);
    assert_eq!(
        sorted,
        vec![
            b("Cargo.toml"),
            b("pkgA/Cargo.toml"),
            b("pkgA/src/lib.rs"),
            b("pkgB/src/main.rs"),
        ]
    );
}

#[test]
fn sort_keeps_duplicates() {
    let paths = vec![b("b.rs"), b("a.rs"), b("b.rs")];
    let sorted = sort_paths(&paths);
    assert_eq!(sorted, vec![b("a.rs"), b("b.rs"), b("b.rs")]);
}

#[test]
fn selection_is_stable_across_walk_order() {
    // The same tree listed in two different orders selects the same
    // candidate set and sorts to the same sequence.
    let exts = effective_extensions(&Vec::new());
    let walk1 = vec![b("z/a.rs"), b("Cargo.toml"), b("notes.txt"), b("y/b.rs")];
    let walk2 = vec![b("y/b.rs"), b("notes.txt"), b("z/a.rs"), b("Cargo.toml")];
    let sorted1 = sort_paths(&select_candidates(&walk1, &exts));
    let sorted2 = sort_paths(&select_candidates(&walk2, &exts));
    assert_eq!(sorted1, sorted2);
    assert_eq!(sorted1, vec![b("Cargo.toml"), b("y/b.rs"), b("z/a.rs")]);
}
