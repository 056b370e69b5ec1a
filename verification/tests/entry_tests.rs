use fileutil::entry::{
    build_entry, build_plain_entry, build_win32_entry, win32_file_id, FileKind, FileMeta, HandleInfo,
};
use fileutil::{EntryInfo, MemWalkProvider, WalkProvider};

fn entry(path: &str, rel: &str) -> EntryInfo {
    build_plain_entry(path, "/", false, None).with_rel(rel)
}

trait WithRel {
    fn with_rel(self, rel: &str) -> Self;
}

impl WithRel for EntryInfo {
    fn with_rel(mut self, rel: &str) -> Self {
        self.rel_path = rel.to_string();
        self
    }
}

#[test]
fn root_entry_has_empty_relative_path() {
    assert!(entry("/repo", "").is_root_entry());
    assert!(!entry("/repo/a", "a").is_root_entry());
}

#[test]
fn file_name_is_last_component() {
    assert_eq!(entry("/repo/src/main.rs", "src/main.rs").file_name(), "main.rs");
    assert_eq!(entry("/", "").file_name(), "");
}

#[test]
fn from_tuples_assigns_ids_and_relative_paths() {
    let p = MemWalkProvider::from_tuples(
        "/repo",
        &[("/repo", true, None), ("/repo/a.txt", false, Some(3)), ("/elsewhere/b", false, None)],
    );
    let all = p.walk("/", false);
    assert_eq!(all.len(), 3);
    assert_eq!(all[0].rel_path, "");
    assert_eq!(all[0].file_id, Some(1));
    assert_eq!(all[0].parent_file_id, None);
    assert_eq!(all[1].rel_path, "a.txt");
    assert_eq!(all[1].file_id, Some(2));
    assert_eq!(all[1].parent_file_id, Some(0));
    assert_eq!(all[1].size, Some(3));
    assert_eq!(all[2].rel_path, "/elsewhere/b");
    assert_eq!(all[2].hard_link_count, Some(1));
    assert_eq!(all[2].volume_serial, Some(1));
}

#[test]
fn walk_matches_whole_components() {
    let p = MemWalkProvider::from_tuples(
        "/repo",
        &[("/repo/src", true, None), ("/repo/srcx", true, None)],
    );
    assert_eq!(p.walk("/repo/src", false).len(), 1);
}

#[test]
fn glob_walk_is_within_plain_walk() {
    let p = MemWalkProvider::from_tuples(
        "/repo",
        &[("/repo/a.rs", false, None), ("/other/b.rs", false, None), ("/repo/c.txt", false, None)],
    );
    let globbed = p.walk_glob("/repo", "*.rs", false);
    let plain = p.walk("/repo", false);
    assert_eq!(globbed.len(), 1);
    assert_eq!(globbed[0].path, "/repo/a.rs");
    assert!(globbed.iter().all(|g| plain.iter().any(|e| e.path == g.path)));
    assert!(p.walk_glob("/repo", "[", false).is_empty());
}

#[test]
fn build_entry_from_metadata() {
    let meta = FileMeta {
        kind: FileKind::File,
        len: 10,
        ino: 77,
        nlink: (1u64 << 32) + 2,
        dev: 5,
        created: None,
        modified: None,
    };
    let e = build_entry("/r/x", "/r", Some(meta), Some(3));
    assert_eq!(e.rel_path, "x");
    assert_eq!(e.size, Some(10));
    assert_eq!(e.file_id, Some(77));
    assert_eq!(e.parent_file_id, Some(3));
    assert_eq!(e.hard_link_count, Some(2));
    assert_eq!(e.volume_serial, Some(5));
    let dir = build_entry("/r", "/r", Some(FileMeta { kind: FileKind::Directory, ..meta }), None);
    assert!(dir.is_dir);
    assert_eq!(dir.size, None);
    assert!(dir.is_root_entry());
    let none = build_entry("/r/y", "/r", None, None);
    assert!(!none.is_dir);
    assert_eq!(none.file_id, None);
}

#[test]
fn a_directory_has_no_size() {
    let e = build_plain_entry("/r/d", "/r", true, Some(4096));
    assert!(e.is_dir);
    assert_eq!(e.size, None);
    let f = build_plain_entry("/r/f", "/r", false, Some(7));
    assert_eq!(f.size, Some(7));
}

#[test]
fn win32_entry_fields() {
    let info = HandleInfo {
        file_attributes: 0x20,
        volume_serial_number: 0xABCD,
        number_of_links: 2,
        file_index_high: 1,
        file_index_low: 5,
    };
    assert_eq!(win32_file_id(&info), (1u64 << 32) | 5);
    let parent = HandleInfo { file_index_high: 0, file_index_low: 9, ..info };
    let e = build_win32_entry("C:/r/a.txt", "C:/r", false, Some(3), None, None, Some(info), Some(parent));
    assert_eq!(e.rel_path, "a.txt");
    assert_eq!(e.size, Some(3));
    assert_eq!(e.file_id, Some((1u64 << 32) | 5));
    assert_eq!(e.parent_file_id, Some(9));
    assert_eq!(e.hard_link_count, Some(2));
    assert_eq!(e.volume_serial, Some(0xABCD));
    assert_eq!(e.win32_attributes, Some(0x20));
    let d = build_win32_entry("C:/r", "C:/r", true, Some(3), None, None, None, None);
    assert_eq!(d.size, None);
    assert_eq!(d.file_id, None);
}
