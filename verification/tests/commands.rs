use fileutil::commands::enumerate::{
    glob_base, glob_relative_pattern, run_with_provider as enum_run, walk_request, EnumArgs,
    WalkRequest,
};
use fileutil::commands::ls::{run_with_provider as ls_run, LsArgs};
use fileutil::text::has_glob_chars;
use fileutil::MemWalkProvider;

fn repo() -> MemWalkProvider {
    MemWalkProvider::from_tuples(
        "/repo",
        &[
            ("/repo", true, None),
            ("/repo/src", true, None),
            ("/repo/src/main.rs", false, Some(512)),
            ("/repo/src/lib.rs", false, Some(256)),
            ("/repo/Cargo.toml", false, Some(128)),
            ("/repo/tests/cli.rs", false, Some(1024)),
        ],
    )
}

#[test]
fn glob_chars_are_detected() {
    assert!(has_glob_chars("**/*.rs"));
    assert!(has_glob_chars("file?.txt"));
    assert!(has_glob_chars("[ab].txt"));
    assert!(has_glob_chars("{a,b}.txt"));
    assert!(!has_glob_chars("src/main.rs"));
    assert!(!has_glob_chars(""));
}

#[test]
fn glob_base_examples() {
    assert_eq!(glob_base("src/foo/**/*.rs"), "src/foo");
    assert_eq!(glob_base("**/*.rs"), ".");
    assert_eq!(glob_base("./**/*.rs"), ".");
    assert_eq!(glob_base("src\\foo\\*.rs"), "src/foo");
    assert_eq!(glob_base("/repo/**/*.rs"), "/repo");
    assert_eq!(glob_base("fileutil/**/*.rs"), "fileutil");
}

#[test]
fn glob_relative_pattern_examples() {
    assert_eq!(glob_relative_pattern("src/**/*.rs", "src"), "**/*.rs");
    assert_eq!(glob_relative_pattern("**/*.rs", "."), "**/*.rs");
    assert_eq!(glob_relative_pattern("src\\**\\*.rs", "src"), "**/*.rs");
    assert_eq!(glob_relative_pattern("other/*.rs", "src"), "other/*.rs");
    assert_eq!(glob_relative_pattern("src", "src"), "src");
}

#[test]
fn base_and_relative_pattern_rebuild_the_pattern() {
    for p in ["src/foo/**/*.rs", "a/b/c/{x,y}.txt", "/repo/**/*.toml"] {
        let base = glob_base(p);
        let rel = glob_relative_pattern(p, &base);
        assert_eq!(format!("{}/{}", base, rel), p);
    }
}

#[test]
fn glob_base_is_the_longest_glob_free_prefix() {
    for p in ["src/foo/**/*.rs", "a/b*/c.txt", "/repo/[ab]/x", "**/*.rs", "x\\y\\*.rs"] {
        let base = glob_base(p);
        assert!(!has_glob_chars(&base));
        let rel = glob_relative_pattern(p, &base);
        if base == "." {
            assert_eq!(rel, p);
        } else {
            let first = rel.split('/').next().unwrap();
            assert!(has_glob_chars(first));
            assert_eq!(format!("{}/{}", base, rel), p.replace('\\', "/"));
        }
    }
}

#[test]
fn walk_request_dispatch() {
    assert_eq!(
        walk_request("src/**/*.rs"),
        WalkRequest::Glob { base: "src".to_string(), pattern: "**/*.rs".to_string() }
    );
    assert_eq!(walk_request("src"), WalkRequest::Walk { root: "src".to_string() });
}

#[test]
fn enum_records_keep_the_argument_as_root() {
    let p = repo();
    let args = EnumArgs {
        paths: vec!["/repo/src".to_string(), "/repo/**/*.rs".to_string()],
        follow_links: false,
    };
    let recs = enum_run(args, &p);
    assert_eq!(recs.len(), 6); // 3 under /repo/src, then 3 .rs files
    assert!(recs[..3].iter().all(|r| r.root == "/repo/src"));
    assert!(recs[3..].iter().all(|r| r.root == "/repo/**/*.rs"));
    assert!(recs[3..].iter().all(|r| r.filename.ends_with(".rs")));
    assert_eq!(recs[1].filename, "main.rs");
    assert_eq!(recs[1].rel_path, "src/main.rs");
    assert_eq!(recs[1].id, Some(3));
    assert_eq!(recs[1].parent_id, Some(0));
    assert_eq!(recs[1].size, Some(512));
    assert_eq!(recs[1].created_at, None);
    assert_eq!(recs[1].modified_at, None);
}

#[test]
fn enum_with_no_paths_gives_nothing() {
    let p = repo();
    let recs = enum_run(EnumArgs { paths: vec![], follow_links: false }, &p);
    assert!(recs.is_empty());
}

#[test]
fn enum_with_invalid_glob_gives_nothing() {
    let p = repo();
    let recs = enum_run(EnumArgs { paths: vec!["/repo/[".to_string()], follow_links: false }, &p);
    assert!(recs.is_empty());
}

#[test]
fn ls_lists_root_and_children_only() {
    let p = repo();
    let recs = ls_run(LsArgs { path: "/repo".to_string(), recursive: false }, &p);
    let paths: Vec<&str> = recs.iter().map(|r| r.path.as_str()).collect();
    assert_eq!(paths, ["/repo", "/repo/src", "/repo/Cargo.toml"]);
    assert!(recs[0].is_dir);
    assert_eq!(recs[2].size, Some(128));
}

#[test]
fn ls_recursive_lists_everything() {
    let p = repo();
    let recs = ls_run(LsArgs { path: "/repo".to_string(), recursive: true }, &p);
    assert_eq!(recs.len(), 6);
}
