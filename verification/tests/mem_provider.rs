use fileutil::{EntryInfo, MemWalkProvider, WalkProvider};
use std::path::Path;

fn make_provider() -> MemWalkProvider {
    MemWalkProvider::from_tuples(
        "/repo",
        &[
            ("/repo", true, None),
            ("/repo/src", true, None),
            ("/repo/src/main.rs", false, Some(512)),
            ("/repo/src/lib.rs", false, Some(256)),
            ("/repo/Cargo.toml", false, Some(128)),
            ("/repo/tests/cli.rs", false, Some(1024)),
        ],
    )
}

#[test]
fn walk_returns_all_under_root() {
    let p = make_provider();
    let count = p.walk("/repo", false).len();
    assert_eq!(count, 6);
}

#[test]
fn walk_filters_by_root() {
    let p = make_provider();
    let count = p.walk("/repo/src", false).len();
    assert_eq!(count, 3); // /repo/src, main.rs, lib.rs
}

#[test]
fn walk_glob_rs_files() {
    let p = make_provider();
    let entries: Vec<EntryInfo> = p.walk_glob("/repo", "**/*.rs", false);
    assert_eq!(entries.len(), 3); // main.rs, lib.rs, cli.rs
    for e in &entries {
        assert!(Path::new(&e.path).extension().map(|x| x == "rs").unwrap_or(false));
    }
}

#[test]
fn walk_glob_toml_files() {
    let p = make_provider();
    let entries: Vec<EntryInfo> = p.walk_glob("/repo", "**/*.toml", false);
    assert_eq!(entries.len(), 1);
    assert_eq!(entries[0].path, "/repo/Cargo.toml");
}

#[test]
fn file_ids_are_set() {
    let p = make_provider();
    let entries: Vec<EntryInfo> = p.walk("/repo", false);
    assert!(entries.iter().all(|e| e.file_id.is_some()));
}
