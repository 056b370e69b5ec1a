//! The metadata record produced for each file-system entry during a walk.

use vstd::prelude::*;
use crate::path;
use crate::time::Timestamp;

verus! {

/// All metadata collected for a single filesystem entry during a walk.
///
/// Paths are held as UTF-8 text.  Fields that cannot be populated (because the
/// operating system returned an error, or because the provider is the
/// in-memory one) are `None`.
#[derive(Debug)]
pub struct EntryInfo {
    /// Path to the entry, as the walk produced it.
    pub path: String,
    /// Path relative to the walk root (empty for the root itself).
    pub rel_path: String,
    /// `true` when the entry is a directory.
    pub is_dir: bool,
    /// File size in bytes, `None` for directories.
    pub size: Option<u64>,
    /// Platform-unique file identifier (inode on Unix, `nFileIndex` on Windows).
    pub file_id: Option<u64>,
    /// File identifier of the parent directory.
    pub parent_file_id: Option<u64>,
    /// Number of hard links.
    pub hard_link_count: Option<u32>,
    /// Volume or device identifier on which the file resides.
    pub volume_serial: Option<u64>,
    /// Creation time, when the operating system reports one.
    pub created_at: Option<Timestamp>,
    /// Last-modification time of the entry's data.
    pub modified_at: Option<Timestamp>,
    /// Raw Windows `dwFileAttributes` bitmask; `None` on other platforms.
    pub win32_attributes: Option<u32>,
}

impl Clone for EntryInfo {
    fn clone(&self) -> (r: Self)
        ensures
            r == *self,
    {
        EntryInfo {
            path: self.path.clone(),
            rel_path: self.rel_path.clone(),
            is_dir: self.is_dir,
            size: self.size,
            file_id: self.file_id,
            parent_file_id: self.parent_file_id,
            hard_link_count: self.hard_link_count,
            volume_serial: self.volume_serial,
            created_at: self.created_at,
            modified_at: self.modified_at,
            win32_attributes: self.win32_attributes,
        }
    }
}

impl EntryInfo {
    /// The file-name component of [`EntryInfo::path`] (empty when there is none).
    pub fn file_name(&self) -> (r: String)
        ensures
            r@ == path::file_name_text(self.path@),
    {
        match path::file_name(self.path.as_str()) {
            Some(n) => n,
            None => String::new(),
        }
    }

    /// The entry is the walk root itself: its relative path is empty.
    pub open spec fn is_root_entry_spec(&self) -> bool {
        self.rel_path@.len() == 0
    }

    /// `true` when the entry is the walk root itself (empty relative path).
    pub fn is_root_entry(&self) -> (r: bool)
        ensures
            r == self.is_root_entry_spec(),
    {
        self.rel_path.as_str().is_empty()
    }
}

/// What kind of file system object a path names.
#[derive(Debug, Clone, Copy, PartialEq, Eq, Structural)]
pub enum FileKind {
    Directory,
    File,
    Other,
}

/// The metadata the operating system reports for one path, as plain values.
#[derive(Debug, Clone, Copy)]
pub struct FileMeta {
    pub kind: FileKind,
    /// Length in bytes.
    pub len: u64,
    /// Inode number (`ino`).
    pub ino: u64,
    /// Number of hard links (`nlink`).
    pub nlink: u64,
    /// Device number (`dev`).
    pub dev: u64,
    pub created: Option<Timestamp>,
    pub modified: Option<Timestamp>,
}

/// `e` is the entry built for `path` found under the walk root `root`, from
/// the path's metadata `meta` (when it could be read) and the inode of its
/// parent directory (when it could be read).
pub open spec fn built_entry(
    path: Seq<char>,
    root: Seq<char>,
    meta: Option<FileMeta>,
    parent_ino: Option<u64>,
    e: EntryInfo,
) -> bool {
    &&& e.path@ == path
    &&& e.rel_path@ == (if path::path_starts_with(path, root) {
        path::path_relative(path, root)
    } else {
        path
    })
    &&& e.parent_file_id == parent_ino
    &&& e.win32_attributes is None
    &&& match meta {
        Some(m) => {
            &&& e.is_dir == (m.kind == FileKind::Directory)
            &&& e.size == (if m.kind == FileKind::File { Some(m.len) } else { None })
            &&& e.file_id == Some(m.ino)
            &&& e.hard_link_count == Some(m.nlink as u32)
            &&& e.volume_serial == Some(m.dev)
            &&& e.created_at == m.created
            &&& e.modified_at == m.modified
        },
        None => {
            &&& !e.is_dir
            &&& e.size is None
            &&& e.file_id is None
            &&& e.hard_link_count is None
            &&& e.volume_serial is None
            &&& e.created_at is None
            &&& e.modified_at is None
        },
    }
}

/// Each metadata field of a built entry comes from the field of the same
/// meaning in the metadata: the creation time from the creation time, the
/// modification time from the modification time, the file identifier from the
/// inode, the volume from the device, the size from the length (for regular
/// files), and the parent identifier from the parent's inode.
pub proof fn lemma_built_entry_fields(
    path: Seq<char>,
    root: Seq<char>,
    meta: Option<FileMeta>,
    parent_ino: Option<u64>,
    e: EntryInfo,
)
    requires
        built_entry(path, root, meta, parent_ino, e),
    ensures
        e.path@ == path,
        e.parent_file_id == parent_ino,
        meta matches Some(m) ==> {
            &&& e.created_at == m.created
            &&& e.modified_at == m.modified
            &&& e.file_id == Some(m.ino)
            &&& e.volume_serial == Some(m.dev)
            &&& e.is_dir <==> m.kind == FileKind::Directory
            &&& m.kind == FileKind::File ==> e.size == Some(m.len)
            &&& m.kind != FileKind::File ==> e.size is None
        },
        meta is None ==> e.created_at is None && e.modified_at is None && e.file_id is None
            && e.size is None,
{
}

/// Build the entry for `path` found during a walk of `root` from the
/// metadata read for it: the size only for regular files (so never for a
/// directory), the inode as file identifier, the link count (truncated to 32
/// bits), the device as volume.  Without metadata the entry is a
/// non-directory with no metadata fields.
pub fn build_entry(
    path: &str,
    root: &str,
    meta: Option<FileMeta>,
    parent_ino: Option<u64>,
) -> (r: EntryInfo)
    ensures
        built_entry(path@, root@, meta, parent_ino, r),
        r.is_dir ==> r.size is None,
        r.created_at == (match meta {
            Some(m) => m.created,
            None => None,
        }),
        r.modified_at == (match meta {
            Some(m) => m.modified,
            None => None,
        }),
        path@ == root@ ==> r.is_root_entry_spec(),
{
    let rel_path = match path::strip_prefix(path, root) {
        Some(rel) => rel,
        None => path.to_owned(),
    };
    match meta {
        Some(m) => EntryInfo {
            path: path.to_owned(),
            rel_path,
            is_dir: m.kind == FileKind::Directory,
            size: if m.kind == FileKind::File { Some(m.len) } else { None },
            file_id: Some(m.ino),
            parent_file_id: parent_ino,
            hard_link_count: Some(m.nlink as u32),
            volume_serial: Some(m.dev),
            created_at: m.created,
            modified_at: m.modified,
            win32_attributes: None,
        },
        None => EntryInfo {
            path: path.to_owned(),
            rel_path,
            is_dir: false,
            size: None,
            file_id: None,
            parent_file_id: parent_ino,
            hard_link_count: None,
            volume_serial: None,
            created_at: None,
            modified_at: None,
            win32_attributes: None,
        },
    }
}

/// Build the entry for `path` found during a walk of `root` on a platform
/// that reports no file identifiers: only the kind and, for regular files,
/// the size (`file_len`) are known.  A directory has no size.
pub fn build_plain_entry(path: &str, root: &str, is_dir: bool, file_len: Option<u64>) -> (r: EntryInfo)
    ensures
        r.path@ == path@,
        path@ == root@ ==> r.is_root_entry_spec(),
        r.rel_path@ == (if path::path_starts_with(path@, root@) {
            path::path_relative(path@, root@)
        } else {
            path@
        }),
        r.is_dir == is_dir,
        r.size == (if is_dir { None } else { file_len }),
        r.file_id is None,
        r.parent_file_id is None,
        r.hard_link_count is None,
        r.volume_serial is None,
        r.created_at is None,
        r.modified_at is None,
        r.win32_attributes is None,
{
    let rel_path = match path::strip_prefix(path, root) {
        Some(rel) => rel,
        None => path.to_owned(),
    };
    EntryInfo {
        path: path.to_owned(),
        rel_path,
        is_dir,
        size: if is_dir { None } else { file_len },
        file_id: None,
        parent_file_id: None,
        hard_link_count: None,
        volume_serial: None,
        created_at: None,
        modified_at: None,
        win32_attributes: None,
    }
}

/// What Win32 `GetFileInformationByHandle` reports for one path, as plain
/// values.
#[derive(Debug, Clone, Copy, PartialEq, Eq, Structural)]
pub struct HandleInfo {
    pub file_attributes: u32,
    pub volume_serial_number: u32,
    pub number_of_links: u32,
    pub file_index_high: u32,
    pub file_index_low: u32,
}

/// The 64-bit file index made of its high and low halves.
pub open spec fn file_index(info: HandleInfo) -> u64 {
    (info.file_index_high as int * 0x1_0000_0000 + info.file_index_low as int) as u64
}

/// The 64-bit file index of `info`: the high half shifted up by 32 bits,
/// joined with the low half.
pub fn win32_file_id(info: &HandleInfo) -> (r: u64)
    ensures
        r == file_index(*info),
        r == info.file_index_high as int * 0x1_0000_0000 + info.file_index_low as int,
{
    (info.file_index_high as u64) * 0x1_0000_0000u64 + (info.file_index_low as u64)
}

/// Build the entry for `path` found during a walk of `root` on Windows:
/// the kind and, for regular files, the size (`file_len`) and times come from
/// the path's metadata; the file index, link count, volume serial and
/// attributes from the path's handle information `info`, and the parent's
/// file index from the parent directory's `parent`.  A directory has no size;
/// a field whose source could not be read is `None`.
pub fn build_win32_entry(
    path: &str,
    root: &str,
    is_dir: bool,
    file_len: Option<u64>,
    created: Option<Timestamp>,
    modified: Option<Timestamp>,
    info: Option<HandleInfo>,
    parent: Option<HandleInfo>,
) -> (r: EntryInfo)
    ensures
        r.path@ == path@,
        path@ == root@ ==> r.is_root_entry_spec(),
        r.rel_path@ == (if path::path_starts_with(path@, root@) {
            path::path_relative(path@, root@)
        } else {
            path@
        }),
        r.is_dir == is_dir,
        r.size == (if is_dir { None } else { file_len }),
        r.created_at == created,
        r.modified_at == modified,
        r.file_id == (match info {
            Some(i) => Some(file_index(i)),
            None => None,
        }),
        r.hard_link_count == (match info {
            Some(i) => Some(i.number_of_links),
            None => None,
        }),
        r.volume_serial == (match info {
            Some(i) => Some(i.volume_serial_number as u64),
            None => None,
        }),
        r.win32_attributes == (match info {
            Some(i) => Some(i.file_attributes),
            None => None,
        }),
        r.parent_file_id == (match parent {
            Some(p) => Some(file_index(p)),
            None => None,
        }),
{
    let rel_path = match path::strip_prefix(path, root) {
        Some(rel) => rel,
        None => path.to_owned(),
    };
    let (file_id, hard_link_count, volume_serial, win32_attributes) = match info {
        Some(i) => (
            Some(win32_file_id(&i)),
            Some(i.number_of_links),
            Some(i.volume_serial_number as u64),
            Some(i.file_attributes),
        ),
        None => (None, None, None, None),
    };
    let parent_file_id = match parent {
        Some(p) => Some(win32_file_id(&p)),
        None => None,
    };
    EntryInfo {
        path: path.to_owned(),
        rel_path,
        is_dir,
        size: if is_dir { None } else { file_len },
        file_id,
        parent_file_id,
        hard_link_count,
        volume_serial,
        created_at: created,
        modified_at: modified,
        win32_attributes,
    }
}

} // verus!
