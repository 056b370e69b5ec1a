//! Walk providers: the interface through which commands traverse a directory
//! tree, and an in-memory provider that serves a fixed list of entries.

use vstd::prelude::*;
use crate::entry::EntryInfo;
use crate::glob;
use crate::path;

verus! {

/// Abstraction over filesystem directory-walking operations.
///
/// The commands are written against this interface, so that a caller can
/// hand them the platform walker or an in-memory one.
pub trait WalkProvider {
    /// `found` is a possible outcome, for this provider, of walking `root`.
    /// Unless a provider says more, any list of entries is.
    open spec fn walk_outcome(&self, root: Seq<char>, follow_links: bool, found: Seq<EntryInfo>) -> bool {
        true
    }

    /// `found` is a possible outcome, for this provider, of a glob walk of
    /// `pattern` under `base`.  Unless a provider says more, any list of
    /// entries is.
    open spec fn glob_outcome(
        &self,
        base: Seq<char>,
        pattern: Seq<char>,
        follow_links: bool,
        found: Seq<EntryInfo>,
    ) -> bool {
        true
    }

    /// Walk `root` recursively, yielding one [`EntryInfo`] per filesystem
    /// entry (including the root itself).  The order of entries is unspecified.
    fn walk(&self, root: &str, follow_links: bool) -> (r: Vec<EntryInfo>)
        ensures
            self.walk_outcome(root@, follow_links, r@),
    ;

    /// Walk the entries whose paths, relative to `base`, match the glob
    /// `pattern` (`**/*.rs`, `src/**`, `foo/{a,b}.txt`, ...).
    fn walk_glob(&self, base: &str, pattern: &str, follow_links: bool) -> (r: Vec<EntryInfo>)
        ensures
            self.glob_outcome(base@, pattern@, follow_links, r@),
    ;
}

/// The stored entries that lie under `root`, in stored order.
pub open spec fn entries_under(entries: Seq<EntryInfo>, root: Seq<char>) -> Seq<EntryInfo> {
    entries.filter(|e: EntryInfo| path::path_starts_with(e.path@, root))
}

/// Whether `e` lies under `base` and its path relative to `base` matches `pattern`.
pub open spec fn glob_selects(base: Seq<char>, pattern: Seq<char>, e: EntryInfo) -> bool {
    path::path_starts_with(e.path@, base) && glob::glob_matches(
        pattern,
        path::path_relative(e.path@, base),
    )
}

/// Whether `pattern` compiles into a one-glob set.
pub open spec fn glob_usable(pattern: Seq<char>) -> bool {
    glob::glob_parses(pattern) && glob::glob_set_compiles(seq![pattern])
}

/// What the in-memory provider answers to a glob walk: the stored entries
/// under `base` whose relative path matches `pattern`, in stored order, or
/// nothing when the pattern cannot be compiled.
pub open spec fn entries_matching(entries: Seq<EntryInfo>, base: Seq<char>, pattern: Seq<char>) -> Seq<EntryInfo> {
    if glob_usable(pattern) {
        entries.filter(|e: EntryInfo| glob_selects(base, pattern, e))
    } else {
        Seq::empty()
    }
}

/// `e` is the entry that the in-memory provider builds from the `i`-th tuple
/// `(p, is_dir, size)` relative to `root`.
pub open spec fn tuple_entry(
    root: Seq<char>,
    p: Seq<char>,
    is_dir: bool,
    size: Option<u64>,
    i: int,
    e: EntryInfo,
) -> bool {
    &&& e.path@ == p
    &&& e.rel_path@ == (if path::path_starts_with(p, root) {
        path::path_relative(p, root)
    } else {
        p
    })
    &&& (p == root ==> e.rel_path@.len() == 0)
    &&& e.is_dir == is_dir
    &&& e.size == size
    &&& e.file_id == Some((i + 1) as u64)
    &&& e.parent_file_id == (if i == 0 { None::<u64> } else { Some(0u64) })
    &&& e.hard_link_count == Some(1u32)
    &&& e.volume_serial == Some(1u64)
    &&& e.created_at is None
    &&& e.modified_at is None
    &&& e.win32_attributes is None
}

/// An in-memory walk provider that returns entries from a fixed list.
#[derive(Clone)]
pub struct MemWalkProvider {
    entries: Vec<EntryInfo>,
}

impl MemWalkProvider {
    /// The stored entries, in order.
    pub closed spec fn entries(&self) -> Seq<EntryInfo> {
        self.entries@
    }

    /// Create a provider from an explicit list of entries.
    pub fn new(entries: Vec<EntryInfo>) -> (r: Self)
        ensures
            r.entries() == entries@,
    {
        MemWalkProvider { entries }
    }

    /// Build a provider from a list of `(path, is_dir, size)` tuples, with
    /// synthetic sequential file IDs starting from 1.
    ///
    /// `root` is used to compute `rel_path`; entries whose path does not start
    /// with `root` get `rel_path == path`.
    pub fn from_tuples(root: &str, entries: &[(&str, bool, Option<u64>)]) -> (r: Self)
        ensures
            r.entries().len() == entries@.len(),
            forall|i: int|
                0 <= i < entries@.len() ==> tuple_entry(
                    root@,
                    entries@[i].0@,
                    entries@[i].1,
                    entries@[i].2,
                    i,
                    #[trigger] r.entries()[i],
                ),
    {
        let mut infos: Vec<EntryInfo> = Vec::new();
        let n = entries.len();
        for i in 0..n
            invariant
                n == entries@.len(),
                infos@.len() == i,
                forall|j: int|
                    0 <= j < i ==> tuple_entry(
                        root@,
                        entries@[j].0@,
                        entries@[j].1,
                        entries@[j].2,
                        j,
                        #[trigger] infos@[j],
                    ),
        {
            let (p, is_dir, size) = entries[i];
            let path_text = p.to_owned();
            let rel_path = match path::strip_prefix(p, root) {
                Some(rel) => rel,
                None => p.to_owned(),
            };
            let parent_file_id = if i == 0 { None } else { Some(0u64) };
            infos.push(EntryInfo {
                path: path_text,
                rel_path,
                is_dir,
                size,
                file_id: Some(i as u64 + 1),
                parent_file_id,
                hard_link_count: Some(1),
                volume_serial: Some(1),
                created_at: None,
                modified_at: None,
                win32_attributes: None,
            });
        }
        MemWalkProvider { entries: infos }
    }
}

impl WalkProvider for MemWalkProvider {
    /// The stored entries under `root`, in stored order.
    open spec fn walk_outcome(&self, root: Seq<char>, follow_links: bool, found: Seq<EntryInfo>) -> bool {
        found == entries_under(self.entries(), root)
    }

    /// The stored entries under `base` whose relative path matches
    /// `pattern`, in stored order.
    open spec fn glob_outcome(
        &self,
        base: Seq<char>,
        pattern: Seq<char>,
        follow_links: bool,
        found: Seq<EntryInfo>,
    ) -> bool {
        found == entries_matching(self.entries(), base, pattern)
    }

    /// Return all stored entries whose `path` starts with `root`, in stored order.
    fn walk(&self, root: &str, _follow_links: bool) -> (r: Vec<EntryInfo>)
        ensures
            r@ == entries_under(self.entries(), root@),
    {
        let mut r: Vec<EntryInfo> = Vec::new();
        let n = self.entries.len();
        for i in 0..n
            invariant
                n == self.entries@.len(),
                r@ == entries_under(self.entries@.take(i as int), root@),
        {
            proof {
                reveal_with_fuel(Seq::filter, 1);
                assert(self.entries@.take(i + 1).drop_last() =~= self.entries@.take(i as int));
            }
            let e = &self.entries[i];
            if path::starts_with(e.path.as_str(), root) {
                r.push(e.clone());
            }
        }
        proof {
            assert(self.entries@.take(n as int) =~= self.entries@);
        }
        r
    }

    /// Return the stored entries under `base` whose path relative to `base`
    /// matches `pattern`, in stored order; none when the pattern does not
    /// compile.
    fn walk_glob(&self, base: &str, pattern: &str, _follow_links: bool) -> (r: Vec<EntryInfo>)
        ensures
            r@ == entries_matching(self.entries(), base@, pattern@),
    {
        let set = match glob::build_glob_set(pattern) {
            Some(s) => s,
            None => return Vec::new(),
        };
        let mut r: Vec<EntryInfo> = Vec::new();
        let n = self.entries.len();
        for i in 0..n
            invariant
                n == self.entries@.len(),
                set.sources() == seq![pattern@],
                r@ == self.entries@.take(i as int).filter(
                    |e: EntryInfo| glob_selects(base@, pattern@, e),
                ),
        {
            proof {
                reveal_with_fuel(Seq::filter, 1);
                assert(self.entries@.take(i + 1).drop_last() =~= self.entries@.take(i as int));
            }
            let e = &self.entries[i];
            if path::starts_with(e.path.as_str(), base) {
                let rel = match path::strip_prefix(e.path.as_str(), base) {
                    Some(rel) => rel,
                    None => e.path.clone(),
                };
                let m = glob::set_is_match(&set, rel.as_str());
                proof {
                    if glob::glob_matches(pattern@, rel@) {
                        assert(set.sources()[0] == pattern@);
                    }
                }
                if m {
                    r.push(e.clone());
                }
            }
        }
        proof {
            assert(self.entries@.take(n as int) =~= self.entries@);
        }
        r
    }
}

/// A glob walk of the in-memory provider narrows its plain walk: when the
/// pattern compiles, the entries a glob walk under `base` returns are exactly
/// those of the plain walk of `base` whose relative path matches the pattern,
/// in the same order; otherwise the glob walk returns nothing.
pub proof fn lemma_glob_walk_narrows_walk(entries: Seq<EntryInfo>, base: Seq<char>, pattern: Seq<char>)
    ensures
        entries_matching(entries, base, pattern) == (if glob_usable(pattern) {
            entries_under(entries, base).filter(
                |e: EntryInfo| glob::glob_matches(pattern, path::path_relative(e.path@, base)),
            )
        } else {
            Seq::empty()
        }),
    decreases entries.len(),
{
    reveal_with_fuel(Seq::filter, 1);
    let under = |e: EntryInfo| path::path_starts_with(e.path@, base);
    let matches = |e: EntryInfo| glob::glob_matches(pattern, path::path_relative(e.path@, base));
    let selects = |e: EntryInfo| glob_selects(base, pattern, e);
    if glob_usable(pattern) {
        if entries.len() == 0 {
            assert(entries.filter(under) =~= Seq::<EntryInfo>::empty());
        } else {
            let rest = entries.drop_last();
            let x = entries.last();
            lemma_glob_walk_narrows_walk(rest, base, pattern);
            assert(rest.filter(selects) == rest.filter(under).filter(matches));
            if under(x) {
                let u = rest.filter(under).push(x);
                assert(entries.filter(under) == u);
                assert(u.drop_last() =~= rest.filter(under));
                assert(u.last() == x);
                assert(u.filter(matches) == (if matches(x) {
                    rest.filter(under).filter(matches).push(x)
                } else {
                    rest.filter(under).filter(matches)
                }));
            } else {
                assert(entries.filter(under) == rest.filter(under));
            }
        }
    }
}

} // verus!
