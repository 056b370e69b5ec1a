//! The `enum` subcommand: enumerate the entries under each path or glob
//! pattern argument.

use vstd::prelude::*;
use crate::schema::{ColumnDef, ColumnType, TableView};
use crate::text::{self, has_glob_char, is_glob_char};
use crate::entry::EntryInfo;
use crate::path;
use crate::walk::WalkProvider;
use crate::render::{self, Cell, Row, opt_int, opt_text};
use crate::time::{self, LocalZone, Timestamp};

verus! {

/// The canonical CSV columns of the `enum` subcommand, in output order: the
/// records' fields in alphabetical order, as serialised.
pub open spec fn enum_columns_spec() -> TableView {
    seq![
        ("created_at"@, ColumnType::DateTime, true),
        ("filename"@, ColumnType::String, false),
        ("id"@, ColumnType::Integer, true),
        ("modified_at"@, ColumnType::DateTime, true),
        ("parent_id"@, ColumnType::Integer, true),
        ("rel_path"@, ColumnType::String, false),
        ("root"@, ColumnType::String, false),
        ("size"@, ColumnType::Integer, true),
    ]
}

/// Canonical CSV column definitions for the `enum` subcommand, in output order.
pub fn csv_columns() -> (r: Vec<ColumnDef>)
    ensures
        crate::schema::columns_view(r@) == enum_columns_spec(),
{
    let r = vec![
        ColumnDef::nullable_datetime("created_at"),
        ColumnDef::string("filename"),
        ColumnDef::nullable_integer("id"),
        ColumnDef::nullable_datetime("modified_at"),
        ColumnDef::nullable_integer("parent_id"),
        ColumnDef::string("rel_path"),
        ColumnDef::string("root"),
        ColumnDef::nullable_integer("size"),
    ];
    assert(crate::schema::columns_view(r@) =~= enum_columns_spec());
    r
}

// ── Glob pattern splitting ────────────────────────────────────────────────────

/// A path separator, as the pattern splitter recognises them.
pub open spec fn is_sep(c: char) -> bool {
    c == '/' || c == '\\'
}

/// The parts of `s` between separators, in order (always at least one part).
pub open spec fn split_parts(s: Seq<char>) -> Seq<Seq<char>>
    decreases s.len(),
{
    if s.len() == 0 {
        seq![Seq::<char>::empty()]
    } else {
        let rest = split_parts(s.drop_last());
        if is_sep(s.last()) {
            rest.push(Seq::<char>::empty())
        } else {
            rest.update(rest.len() - 1, rest.last().push(s.last()))
        }
    }
}

/// The number of leading parts that hold no glob metacharacter.
pub open spec fn plain_run(parts: Seq<Seq<char>>) -> nat
    decreases parts.len(),
{
    if parts.len() == 0 {
        0
    } else if has_glob_char(parts[0]) {
        0
    } else {
        1 + plain_run(parts.drop_first())
    }
}

/// The parts joined with `/`.
pub open spec fn join_parts(parts: Seq<Seq<char>>) -> Seq<char>
    decreases parts.len(),
{
    if parts.len() == 0 {
        Seq::empty()
    } else if parts.len() == 1 {
        parts[0]
    } else {
        join_parts(parts.drop_last()) + seq!['/'] + parts.last()
    }
}

/// The base directory of a glob pattern: its leading parts that hold no glob
/// metacharacter, joined with `/`; `.` when that is empty or `.`.
pub open spec fn glob_base_spec(pattern: Seq<char>) -> Seq<char> {
    let parts = split_parts(pattern);
    let joined = join_parts(parts.take(plain_run(parts) as int));
    if joined.len() == 0 || joined == seq!['.'] {
        seq!['.']
    } else {
        joined
    }
}

/// `s` with every `\` turned into `/`.
pub open spec fn normalize_seps(s: Seq<char>) -> Seq<char> {
    s.map_values(|c: char| if c == '\\' { '/' } else { c })
}

/// The pattern relative to `base`: when `base` is `.`, the pattern itself;
/// otherwise the pattern (with `\` turned into `/`) without its leading
/// `base/`, or the pattern unchanged when it does not begin with `base/`.
pub open spec fn glob_relative_spec(pattern: Seq<char>, base: Seq<char>) -> Seq<char> {
    if base == seq!['.'] {
        pattern
    } else {
        let prefix = normalize_seps(base).push('/');
        let normalized = normalize_seps(pattern);
        if prefix.is_prefix_of(normalized) {
            normalized.skip(prefix.len() as int)
        } else {
            pattern
        }
    }
}

proof fn lemma_split_nonempty(s: Seq<char>)
    ensures
        split_parts(s).len() >= 1,
    decreases s.len(),
{
    if s.len() > 0 {
        lemma_split_nonempty(s.drop_last());
    }
}

proof fn lemma_plain_run(parts: Seq<Seq<char>>, i: int)
    requires
        0 <= i <= parts.len(),
        forall|k: int| 0 <= k < i ==> !has_glob_char(#[trigger] parts[k]),
        i == parts.len() || has_glob_char(parts[i]),
    ensures
        plain_run(parts) == i,
    decreases i,
{
    if i > 0 {
        let rest = parts.drop_first();
        assert forall|k: int| 0 <= k < i - 1 implies !has_glob_char(#[trigger] rest[k]) by {
            assert(rest[k] == parts[k + 1]);
        }
        if i < parts.len() {
            assert(rest[i - 1] == parts[i]);
        }
        lemma_plain_run(rest, i - 1);
    }
}

/// Split `cs` at separators, as [`split_parts`] does.
fn split_at_seps(cs: &Vec<char>) -> (r: Vec<Vec<char>>)
    ensures
        r@.map_values(|v: Vec<char>| v@) == split_parts(cs@),
{
    let mut done: Vec<Vec<char>> = Vec::new();
    let mut current: Vec<char> = Vec::new();
    let n = cs.len();
    for i in 0..n
        invariant
            n == cs@.len(),
            done@.map_values(|v: Vec<char>| v@).push(current@) == split_parts(cs@.take(i as int)),
    {
        let c = cs[i];
        proof {
            assert(cs@.take(i + 1).drop_last() =~= cs@.take(i as int));
            lemma_split_nonempty(cs@.take(i as int));
        }
        if c == '/' || c == '\\' {
            let ghost old_done = done@;
            done.push(current);
            current = Vec::new();
            proof {
                assert(done@.map_values(|v: Vec<char>| v@) =~= old_done.map_values(
                    |v: Vec<char>| v@,
                ).push(done@.last()@));
            }
        } else {
            current.push(c);
        }
        proof {
            assert(done@.map_values(|v: Vec<char>| v@).push(current@) =~= split_parts(
                cs@.take(i + 1),
            ));
        }
    }
    let ghost old_done = done@;
    done.push(current);
    proof {
        assert(cs@.take(n as int) =~= cs@);
        assert(done@.map_values(|v: Vec<char>| v@) =~= old_done.map_values(
            |v: Vec<char>| v@,
        ).push(done@.last()@));
    }
    done
}

/// Return the longest run of leading path components that contain no glob
/// metacharacters, joined with `/`.
/// E.g. `"src/foo/**/*.rs"` gives `"src/foo"`, `"**/*.rs"` gives `"."`.
pub fn glob_base(pattern: &str) -> (r: String)
    ensures
        r@ == glob_base_spec(pattern@),
{
    let cs = text::chars_of(pattern);
    let parts = split_at_seps(&cs);
    let ghost pv = parts@.map_values(|v: Vec<char>| v@);
    let np = parts.len();
    let mut count: usize = 0;
    while count < np
        invariant
            np == parts@.len(),
            pv == parts@.map_values(|v: Vec<char>| v@),
            count <= np,
            forall|k: int| 0 <= k < count ==> !has_glob_char(#[trigger] pv[k]),
        ensures
            count <= np,
            forall|k: int| 0 <= k < count ==> !has_glob_char(#[trigger] pv[k]),
            count == np || has_glob_char(pv[count as int]),
        decreases np - count,
    {
        if text::chars_have_glob(&parts[count]) {
            break;
        }
        count += 1;
    }
    proof {
        lemma_plain_run(pv, count as int);
    }
    let mut joined: Vec<char> = Vec::new();
    for i in 0..count
        invariant
            count <= np,
            np == parts@.len(),
            pv == parts@.map_values(|v: Vec<char>| v@),
            joined@ == join_parts(pv.take(i as int)),
    {
        proof {
            assert(pv.take(i + 1).drop_last() =~= pv.take(i as int));
        }
        if i > 0 {
            joined.push('/');
        }
        let part = &parts[i];
        let m = part.len();
        let ghost before = joined@;
        for k in 0..m
            invariant
                m == part@.len(),
                joined@ == before + part@.take(k as int),
        {
            joined.push(part[k]);
            proof {
                assert(part@.take(k + 1) =~= part@.take(k as int).push(part@[k as int]));
            }
        }
        proof {
            assert(part@.take(m as int) =~= part@);
            assert(pv[i as int] == part@);
            if i == 0 {
                assert(pv.take(1) =~= seq![part@]);
                assert(before =~= Seq::<char>::empty());
                assert(joined@ =~= part@);
            } else {
                assert(joined@ =~= join_parts(pv.take(i as int)) + seq!['/'] + part@);
            }
        }
    }
    if joined.len() == 0 || (joined.len() == 1 && joined[0] == '.') {
        proof {
            if joined@.len() == 1 {
                assert(joined@ =~= seq!['.']);
            }
        }
        let dot = vec!['.'];
        text::string_from_chars(&dot)
    } else {
        proof {
            if joined@ == seq!['.'] {
                assert(joined@[0] == '.');
            }
        }
        text::string_from_chars(&joined)
    }
}

/// `cs` with every `\` turned into `/`.
fn normalized_chars(cs: &Vec<char>) -> (r: Vec<char>)
    ensures
        r@ == normalize_seps(cs@),
{
    let mut r: Vec<char> = Vec::new();
    let n = cs.len();
    for i in 0..n
        invariant
            n == cs@.len(),
            r@ == normalize_seps(cs@.take(i as int)),
    {
        let c = cs[i];
        r.push(if c == '\\' { '/' } else { c });
        proof {
            assert(normalize_seps(cs@.take(i + 1)) =~= normalize_seps(cs@.take(i as int)).push(
                if c == '\\' { '/' } else { c },
            ));
        }
    }
    proof {
        assert(cs@.take(n as int) =~= cs@);
    }
    r
}

/// Strip the `base/` prefix from `pattern` to get a pattern relative to the base.
/// E.g. pattern `"src/**/*.rs"`, base `"src"` gives `"**/*.rs"`.
pub fn glob_relative_pattern(pattern: &str, base: &str) -> (r: String)
    ensures
        r@ == glob_relative_spec(pattern@, base@),
{
    let base_cs = text::chars_of(base);
    if base_cs.len() == 1 && base_cs[0] == '.' {
        proof {
            assert(base@ =~= seq!['.']);
        }
        return pattern.to_owned();
    }
    proof {
        if base@ == seq!['.'] {
            assert(base_cs@[0] == '.');
        }
    }
    let mut prefix = normalized_chars(&base_cs);
    prefix.push('/');
    let pattern_cs = text::chars_of(pattern);
    let normalized = normalized_chars(&pattern_cs);
    let pl = prefix.len();
    let nl = normalized.len();
    if pl > nl {
        return pattern.to_owned();
    }
    for i in 0..pl
        invariant
            pl == prefix@.len(),
            pl <= nl,
            nl == normalized@.len(),
            prefix@ == normalize_seps(base@).push('/'),
            normalized@ == normalize_seps(pattern@),
            base@ != seq!['.'],
            forall|j: int| 0 <= j < i ==> #[trigger] prefix@[j] == normalized@[j],
    {
        if prefix[i] != normalized[i] {
            proof {
                assert(prefix@[i as int] != normalized@.subrange(0, pl as int)[i as int]);
            }
            return pattern.to_owned();
        }
    }
    proof {
        assert(prefix@.is_prefix_of(normalized@));
    }
    let mut rest: Vec<char> = Vec::new();
    for k in pl..nl
        invariant
            pl <= nl,
            nl == normalized@.len(),
            rest@ == normalized@.subrange(pl as int, k as int),
    {
        rest.push(normalized[k]);
        proof {
            assert(normalized@.subrange(pl as int, k + 1) =~= normalized@.subrange(
                pl as int,
                k as int,
            ).push(normalized@[k as int]));
        }
    }
    proof {
        assert(rest@ =~= normalized@.skip(pl as int));
    }
    text::string_from_chars(&rest)
}

// ── Laws of the pattern split ─────────────────────────────────────────────────

proof fn lemma_join_extend_last(parts: Seq<Seq<char>>, c: char)
    requires
        parts.len() >= 1,
    ensures
        join_parts(parts.update(parts.len() - 1, parts.last().push(c))) == join_parts(parts).push(
            c,
        ),
{
    let u = parts.update(parts.len() - 1, parts.last().push(c));
    if parts.len() == 1 {
        assert(join_parts(u) == u[0]);
    } else {
        assert(u.drop_last() =~= parts.drop_last());
        assert(join_parts(u) == join_parts(u.drop_last()) + seq!['/'] + u.last());
        assert(join_parts(u) =~= join_parts(parts).push(c));
    }
}

/// Joining the parts of a pattern with `/` gives the pattern with its
/// separators normalised to `/`.
proof fn lemma_join_split(s: Seq<char>)
    ensures
        join_parts(split_parts(s)) == normalize_seps(s),
    decreases s.len(),
{
    if s.len() == 0 {
        assert(join_parts(split_parts(s)) =~= normalize_seps(s));
    } else {
        let rest = s.drop_last();
        lemma_join_split(rest);
        lemma_split_nonempty(rest);
        let rp = split_parts(rest);
        assert(normalize_seps(s) =~= normalize_seps(rest).push(
            if s.last() == '\\' { '/' } else { s.last() },
        ));
        if is_sep(s.last()) {
            let p = rp.push(Seq::<char>::empty());
            assert(p.drop_last() =~= rp);
            assert(join_parts(p) =~= normalize_seps(s));
        } else {
            lemma_join_extend_last(rp, s.last());
        }
    }
}

/// Every part of a split is free of separators.
proof fn lemma_split_parts_plain(s: Seq<char>)
    ensures
        forall|i: int, j: int|
            0 <= i < split_parts(s).len() && 0 <= j < split_parts(s)[i].len() ==> !is_sep(
                #[trigger] split_parts(s)[i][j],
            ),
    decreases s.len(),
{
    if s.len() > 0 {
        lemma_split_parts_plain(s.drop_last());
        lemma_split_nonempty(s.drop_last());
        let rp = split_parts(s.drop_last());
        let p = split_parts(s);
        assert forall|i: int, j: int| 0 <= i < p.len() && 0 <= j < p[i].len() implies !is_sep(
            #[trigger] p[i][j],
        ) by {
            if i < rp.len() && !(i == rp.len() - 1 && !is_sep(s.last())) {
                assert(p[i] == rp[i]);
            } else if i == rp.len() - 1 {
                if j < rp[i].len() {
                    assert(p[i][j] == rp[i][j]);
                }
            }
        }
    }
}

/// A glob metacharacter of the pattern lies in one of its parts.
proof fn lemma_split_keeps_glob(s: Seq<char>)
    requires
        has_glob_char(s),
    ensures
        exists|i: int| 0 <= i < split_parts(s).len() && has_glob_char(#[trigger] split_parts(s)[i]),
    decreases s.len(),
{
    let rest = s.drop_last();
    lemma_split_nonempty(rest);
    let rp = split_parts(rest);
    let p = split_parts(s);
    if is_glob_char(s.last()) {
        let k = rp.len() - 1;
        assert(p[k] == rp[k].push(s.last()));
        assert(p[k][p[k].len() - 1] == s.last());
        assert(has_glob_char(p[k]));
    } else {
        let g = choose|g: int| 0 <= g < s.len() && is_glob_char(#[trigger] s[g]);
        assert(rest[g] == s[g]);
        lemma_split_keeps_glob(rest);
        let i = choose|i: int| 0 <= i < rp.len() && has_glob_char(#[trigger] rp[i]);
        let h = choose|h: int| 0 <= h < rp[i].len() && is_glob_char(#[trigger] rp[i][h]);
        if is_sep(s.last()) {
            assert(p[i] == rp[i]);
        } else {
            if i == rp.len() - 1 {
                assert(p[i][h] == rp[i][h]);
            } else {
                assert(p[i] == rp[i]);
            }
        }
        assert(is_glob_char(p[i][h]));
        assert(has_glob_char(p[i]));
    }
}

proof fn lemma_plain_run_bound(parts: Seq<Seq<char>>, k: int)
    requires
        0 <= k < parts.len(),
        has_glob_char(parts[k]),
    ensures
        plain_run(parts) <= k,
    decreases k,
{
    if k > 0 && !has_glob_char(parts[0]) {
        assert(parts.drop_first()[k - 1] == parts[k]);
        lemma_plain_run_bound(parts.drop_first(), k - 1);
    }
}

proof fn lemma_join_split_at(parts: Seq<Seq<char>>, n: int)
    requires
        1 <= n < parts.len(),
    ensures
        join_parts(parts) == join_parts(parts.take(n)) + seq!['/'] + join_parts(parts.skip(n)),
    decreases parts.len(),
{
    let dl = parts.drop_last();
    if n == parts.len() - 1 {
        assert(dl =~= parts.take(n));
        assert(parts.skip(n) =~= seq![parts.last()]);
    } else {
        lemma_join_split_at(dl, n);
        assert(dl.take(n) =~= parts.take(n));
        let sk = parts.skip(n);
        assert(sk.drop_last() =~= dl.skip(n));
        assert(sk.last() == parts.last());
        assert(join_parts(sk) == join_parts(sk.drop_last()) + seq!['/'] + sk.last());
        assert(join_parts(parts) =~= join_parts(parts.take(n)) + seq!['/'] + join_parts(sk));
    }
}

proof fn lemma_join_no_backslash(parts: Seq<Seq<char>>)
    requires
        forall|i: int, j: int|
            0 <= i < parts.len() && 0 <= j < parts[i].len() ==> !is_sep(#[trigger] parts[i][j]),
    ensures
        normalize_seps(join_parts(parts)) == join_parts(parts),
    decreases parts.len(),
{
    if parts.len() > 1 {
        let dl = parts.drop_last();
        assert forall|i: int, j: int| 0 <= i < dl.len() && 0 <= j < dl[i].len() implies !is_sep(
            #[trigger] dl[i][j],
        ) by {
            assert(dl[i] == parts[i]);
        }
        lemma_join_no_backslash(dl);
    }
    let x = join_parts(parts);
    assert forall|k: int| 0 <= k < x.len() implies x[k] != '\\' by {
        lemma_join_char(parts, k);
    }
    assert(normalize_seps(x) =~= x);
}

proof fn lemma_join_char(parts: Seq<Seq<char>>, k: int)
    requires
        forall|i: int, j: int|
            0 <= i < parts.len() && 0 <= j < parts[i].len() ==> !is_sep(#[trigger] parts[i][j]),
        0 <= k < join_parts(parts).len(),
    ensures
        join_parts(parts)[k] != '\\',
    decreases parts.len(),
{
    if parts.len() == 1 {
        assert(!is_sep(parts[0][k]));
    } else if parts.len() > 1 {
        let dl = parts.drop_last();
        let a = join_parts(dl);
        assert forall|i: int, j: int| 0 <= i < dl.len() && 0 <= j < dl[i].len() implies !is_sep(
            #[trigger] dl[i][j],
        ) by {
            assert(dl[i] == parts[i]);
        }
        if k < a.len() {
            lemma_join_char(dl, k);
        } else if k > a.len() {
            let last = parts.last();
            assert(!is_sep(parts[parts.len() - 1][k - a.len() - 1]));
        }
    }
}

/// A glob argument splits into its base directory and the pattern relative to
/// it: unless the base is `.`, base, `/` and relative pattern together give
/// back the argument (with separators written as `/`).
pub proof fn lemma_base_and_relative_rebuild_pattern(pattern: Seq<char>)
    requires
        has_glob_char(pattern),
        glob_base_spec(pattern) != seq!['.'],
    ensures
        glob_base_spec(pattern) + seq!['/'] + glob_relative_spec(
            pattern,
            glob_base_spec(pattern),
        ) == normalize_seps(pattern),
{
    let parts = split_parts(pattern);
    let n = plain_run(parts) as int;
    let base = glob_base_spec(pattern);
    lemma_split_keeps_glob(pattern);
    let k = choose|i: int| 0 <= i < parts.len() && has_glob_char(#[trigger] parts[i]);
    lemma_plain_run_bound(parts, k);
    assert(n >= 1) by {
        if n == 0 {
            assert(parts.take(0) =~= Seq::<Seq<char>>::empty());
        }
    }
    assert(base == join_parts(parts.take(n)));
    lemma_join_split(pattern);
    lemma_join_split_at(parts, n);
    lemma_split_parts_plain(pattern);
    let head = parts.take(n);
    assert forall|i: int, j: int| 0 <= i < head.len() && 0 <= j < head[i].len() implies !is_sep(
        #[trigger] head[i][j],
    ) by {
        assert(head[i] == parts[i]);
    }
    lemma_join_no_backslash(head);
    let prefix = normalize_seps(base).push('/');
    let tail = join_parts(parts.skip(n));
    assert(normalize_seps(pattern) == base + seq!['/'] + tail);
    assert(prefix =~= base + seq!['/']);
    assert(normalize_seps(pattern).subrange(0, prefix.len() as int) =~= prefix);
    assert(normalize_seps(pattern).skip(prefix.len() as int) =~= tail);
}

// ── Records ───────────────────────────────────────────────────────────────────

/// Arguments of the `enum` subcommand.
#[derive(Debug)]
pub struct EnumArgs {
    /// Paths or glob patterns to enumerate.  Plain paths enumerate that
    /// directory recursively; glob patterns (e.g. `**/*.rs`) filter by pattern.
    pub paths: Vec<String>,
    /// Follow symbolic links and junctions.
    pub follow_links: bool,
}

/// One output record of the `enum` subcommand.
#[derive(Debug, PartialEq, Eq)]
pub struct EnumRecord {
    /// The argument (path or pattern) as the user typed it.
    pub root: String,
    pub rel_path: String,
    pub filename: String,
    pub parent_id: Option<u64>,
    pub id: Option<u64>,
    pub size: Option<u64>,
    /// Creation time; written as RFC 3339 text in the local time zone.
    pub created_at: Option<Timestamp>,
    /// Modification time; written as RFC 3339 text in the local time zone.
    pub modified_at: Option<Timestamp>,
}

/// `r` is the record the `enum` subcommand produces for entry `e` found
/// under the argument `root`.
pub open spec fn record_of(root: Seq<char>, e: EntryInfo, r: EnumRecord) -> bool {
    &&& r.root@ == root
    &&& r.rel_path@ == e.rel_path@
    &&& r.filename@ == path::file_name_text(e.path@)
    &&& r.parent_id == e.parent_file_id
    &&& r.id == e.file_id
    &&& r.size == e.size
    &&& r.created_at == e.created_at
    &&& r.modified_at == e.modified_at
}

/// A record carries the argument as typed, and from its entry the relative
/// path, the file name of the entry's path, the parent's and its own file
/// identifier, the size, the creation time and the modification time, each
/// in the field of that meaning.
pub proof fn lemma_record_fields(root: Seq<char>, e: EntryInfo, r: EnumRecord)
    requires
        record_of(root, e, r),
    ensures
        r.root@ == root,
        r.rel_path@ == e.rel_path@,
        r.filename@ == path::file_name_text(e.path@),
        r.parent_id == e.parent_file_id,
        r.id == e.file_id,
        r.size == e.size,
        r.created_at == e.created_at,
        r.modified_at == e.modified_at,
{
}

/// `recs` holds, for each argument in order, one record per entry of the
/// argument's group, in the group's order.
pub open spec fn records_for(
    args: Seq<String>,
    groups: Seq<Seq<EntryInfo>>,
    recs: Seq<EnumRecord>,
) -> bool
    decreases args.len(),
{
    if args.len() == 0 {
        groups.len() == 0 && recs.len() == 0
    } else if groups.len() == 0 {
        false
    } else {
        let g = groups.last();
        let k = recs.len() - g.len();
        &&& k >= 0
        &&& records_for(args.drop_last(), groups.drop_last(), recs.take(k))
        &&& forall|j: int|
            0 <= j < g.len() ==> record_of(args.last()@, g[j], #[trigger] recs[k + j])
    }
}

/// Build the records for the entries found under the argument `root`, one per
/// entry, in order.
pub fn enum_records(root: &String, entries: &Vec<EntryInfo>) -> (r: Vec<EnumRecord>)
    ensures
        r@.len() == entries@.len(),
        forall|j: int| 0 <= j < entries@.len() ==> record_of(root@, entries@[j], #[trigger] r@[j]),
{
    let mut r: Vec<EnumRecord> = Vec::new();
    let n = entries.len();
    for i in 0..n
        invariant
            n == entries@.len(),
            r@.len() == i,
            forall|j: int| 0 <= j < i ==> record_of(root@, entries@[j], #[trigger] r@[j]),
    {
        let e = &entries[i];
        r.push(EnumRecord {
            root: root.clone(),
            rel_path: e.rel_path.clone(),
            filename: e.file_name(),
            parent_id: e.parent_file_id,
            id: e.file_id,
            size: e.size,
            created_at: e.created_at,
            modified_at: e.modified_at,
        });
    }
    r
}

/// What the `enum` subcommand asks the walk provider for one argument.
#[derive(Debug, PartialEq, Eq)]
pub enum WalkRequest {
    /// Walk the directory `root` recursively.
    Walk { root: String },
    /// Walk the entries under `base` whose relative path matches `pattern`.
    Glob { base: String, pattern: String },
}

/// The request for the argument `arg`: a glob walk when it holds a glob
/// metacharacter, split into its base directory and relative pattern;
/// otherwise a plain walk of `arg`.
pub fn walk_request(arg: &str) -> (r: WalkRequest)
    ensures
        has_glob_char(arg@) ==> (r matches WalkRequest::Glob { base, pattern } && base@
            == glob_base_spec(arg@) && pattern@ == glob_relative_spec(arg@, base@)),
        !has_glob_char(arg@) ==> (r matches WalkRequest::Walk { root } && root@ == arg@),
{
    if text::has_glob_chars(arg) {
        let base = glob_base(arg);
        let pattern = glob_relative_pattern(arg, base.as_str());
        WalkRequest::Glob { base, pattern }
    } else {
        WalkRequest::Walk { root: arg.to_owned() }
    }
}

/// `found` is what `provider` may answer to the request made for the
/// argument `arg` (see [`walk_request`]).
pub open spec fn request_outcome<P: WalkProvider>(
    provider: &P,
    arg: Seq<char>,
    follow_links: bool,
    found: Seq<EntryInfo>,
) -> bool {
    if has_glob_char(arg) {
        provider.glob_outcome(
            glob_base_spec(arg),
            glob_relative_spec(arg, glob_base_spec(arg)),
            follow_links,
            found,
        )
    } else {
        provider.walk_outcome(arg, follow_links, found)
    }
}

/// Each argument is walked with the `follow_links` the user gave: a
/// glob-free argument by a plain walk of the argument itself, a glob pattern
/// by a glob walk of its base directory and relative pattern.
pub proof fn lemma_request_carries_follow_links<P: WalkProvider>(
    provider: &P,
    arg: Seq<char>,
    follow_links: bool,
    found: Seq<EntryInfo>,
)
    ensures
        !has_glob_char(arg) ==> (request_outcome(provider, arg, follow_links, found)
            == provider.walk_outcome(arg, follow_links, found)),
        has_glob_char(arg) ==> (request_outcome(provider, arg, follow_links, found)
            == provider.glob_outcome(
            glob_base_spec(arg),
            glob_relative_spec(arg, glob_base_spec(arg)),
            follow_links,
            found,
        )),
{
}

/// Testable core of the `enum` subcommand: walks each argument with
/// `provider` (a glob walk for glob patterns, see [`walk_request`]) and
/// returns one record per entry found, argument by argument.
///
/// What the provider finds is up to the provider; the records are built from
/// whatever it returns.
pub fn run_with_provider<P: WalkProvider>(args: EnumArgs, provider: &P) -> (r: Vec<EnumRecord>)
    ensures
        exists|groups: Seq<Seq<EntryInfo>>|
            {
                &&& groups.len() == args.paths@.len()
                &&& records_for(args.paths@, groups, r@)
                &&& forall|i: int|
                    0 <= i < groups.len() ==> request_outcome(
                        provider,
                        args.paths@[i]@,
                        args.follow_links,
                        #[trigger] groups[i],
                    )
            },
{
    let mut out: Vec<EnumRecord> = Vec::new();
    let ghost mut groups: Seq<Seq<EntryInfo>> = Seq::empty();
    let n = args.paths.len();
    for i in 0..n
        invariant
            n == args.paths@.len(),
            groups.len() == i,
            records_for(args.paths@.take(i as int), groups, out@),
            forall|k: int|
                0 <= k < i ==> request_outcome(
                    provider,
                    args.paths@[k]@,
                    args.follow_links,
                    #[trigger] groups[k],
                ),
    {
        let arg = &args.paths[i];
        let found = match walk_request(arg.as_str()) {
            WalkRequest::Glob { base, pattern } => provider.walk_glob(
                base.as_str(),
                pattern.as_str(),
                args.follow_links,
            ),
            WalkRequest::Walk { root } => provider.walk(root.as_str(), args.follow_links),
        };
        let mut recs = enum_records(arg, &found);
        let ghost before = out@;
        let ghost made = recs@;
        out.append(&mut recs);
        proof {
            let ng = groups.push(found@);
            let t = args.paths@.take(i + 1);
            assert(t.drop_last() =~= args.paths@.take(i as int));
            assert(t.last() == *arg);
            assert(ng.drop_last() =~= groups);
            assert(out@.take(before.len() as int) =~= before);
            assert forall|j: int| 0 <= j < found@.len() implies record_of(
                t.last()@,
                ng.last()[j],
                #[trigger] out@[before.len() + j],
            ) by {
                assert(out@[before.len() + j] == made[j]);
            }
            assert(request_outcome(provider, arg@, args.follow_links, found@));
            groups = ng;
        }
    }
    proof {
        assert(args.paths@.take(n as int) =~= args.paths@);
    }
    out
}

/// `cells` are the values of the fields of `r`, in output (field-name)
/// order, with the times written as local-time text for an answer `zone` may
/// give.
pub open spec fn enum_cells_of<Z: LocalZone>(zone: &Z, r: EnumRecord, cells: Seq<Cell>) -> bool {
    &&& cells.len() == 8
    &&& exists|t: Option<String>| time::local_text_of(zone, r.created_at, t) && #[trigger] opt_text(t) == cells[0]
    &&& cells[1] == Cell::Text(r.filename)
    &&& cells[2] == opt_int(r.id)
    &&& exists|t: Option<String>| time::local_text_of(zone, r.modified_at, t) && #[trigger] opt_text(t) == cells[3]
    &&& cells[4] == opt_int(r.parent_id)
    &&& cells[5] == Cell::Text(r.rel_path)
    &&& cells[6] == Cell::Text(r.root)
    &&& cells[7] == opt_int(r.size)
}

/// In every row that [`EnumRecord::to_row`] gives, the columns declared
/// `DateTime` are exactly the record's two time fields, `created_at` and
/// `modified_at`, and these hold the local-time texts of the record's
/// creation and modification times.
pub proof fn lemma_time_fields_are_datetime_columns<Z: LocalZone>(
    zone: &Z,
    r: EnumRecord,
    fields: Seq<(String, Cell)>,
)
    requires
        render::row_fits(fields, enum_columns_spec()),
        enum_cells_of(zone, r, render::field_values(fields)),
    ensures
        fields.len() == enum_columns_spec().len(),
        forall|i: int|
            0 <= i < fields.len() ==> (enum_columns_spec()[i].1 == ColumnType::DateTime <==> (
            #[trigger] fields[i].0@ == "created_at"@ || fields[i].0@ == "modified_at"@)),
        forall|i: int|
            0 <= i < fields.len() && #[trigger] fields[i].0@ == "created_at"@ ==> exists|
                t: Option<String>,
            | time::local_text_of(zone, r.created_at, t) && fields[i].1 == opt_text(t),
        forall|i: int|
            0 <= i < fields.len() && #[trigger] fields[i].0@ == "modified_at"@ ==> exists|
                t: Option<String>,
            | time::local_text_of(zone, r.modified_at, t) && fields[i].1 == opt_text(t),
{
    reveal_strlit("created_at");
    reveal_strlit("filename");
    reveal_strlit("id");
    reveal_strlit("modified_at");
    reveal_strlit("parent_id");
    reveal_strlit("rel_path");
    reveal_strlit("root");
    reveal_strlit("size");
    let cols = enum_columns_spec();
    let cells = render::field_values(fields);
    assert forall|i: int| 0 <= i < fields.len() implies (cols[i].1 == ColumnType::DateTime <==> (
        #[trigger] fields[i].0@ == "created_at"@ || fields[i].0@ == "modified_at"@)) by {
        assert(fields[i].0@ == cols[i].0);
        assert(cols[i].0.len() != 10 || i == 0);
        assert(cols[i].0.len() != 11 || i == 3);
    }
    assert forall|i: int| 0 <= i < fields.len() && #[trigger] fields[i].0@ == "created_at"@ implies exists|
        t: Option<String>,
    | time::local_text_of(zone, r.created_at, t) && fields[i].1 == opt_text(t) by {
        assert(fields[i].0@ == cols[i].0);
        assert(i == 0);
        assert(cells[0] == fields[0].1);
    }
    assert forall|i: int| 0 <= i < fields.len() && #[trigger] fields[i].0@ == "modified_at"@ implies exists|
        t: Option<String>,
    | time::local_text_of(zone, r.modified_at, t) && fields[i].1 == opt_text(t) by {
        assert(fields[i].0@ == cols[i].0);
        assert(i == 3);
        assert(cells[3] == fields[3].1);
    }
}

impl EnumRecord {
    /// The record as an output row: its fields by name, in name order, which
    /// are exactly the columns of [`csv_columns`]; the times are written as
    /// RFC 3339 text in the local time zone `zone`.
    pub fn to_row<Z: LocalZone>(&self, zone: &Z) -> (r: Row)
        ensures
            render::row_fits(r.fields@, enum_columns_spec()),
            enum_cells_of(zone, *self, render::field_values(r.fields@)),
    {
        let created = time::local_time_text(zone, self.created_at);
        let modified = time::local_time_text(zone, self.modified_at);
        let fields = vec![
            ("created_at".to_owned(), render::text_cell(&created)),
            ("filename".to_owned(), Cell::Text(self.filename.clone())),
            ("id".to_owned(), render::int_cell(self.id)),
            ("modified_at".to_owned(), render::text_cell(&modified)),
            ("parent_id".to_owned(), render::int_cell(self.parent_id)),
            ("rel_path".to_owned(), Cell::Text(self.rel_path.clone())),
            ("root".to_owned(), Cell::Text(self.root.clone())),
            ("size".to_owned(), render::int_cell(self.size)),
        ];
        proof {
            let cells = render::field_values(fields@);
            assert(cells[0] == opt_text(created));
            assert(cells[3] == opt_text(modified));
        }
        Row { fields }
    }
}

/// No character of any part is a separator.
pub open spec fn parts_plain(parts: Seq<Seq<char>>) -> bool {
    forall|i: int, j: int| 0 <= i < parts.len() && 0 <= j < parts[i].len() ==> !is_sep(#[trigger] parts[i][j])
}

proof fn lemma_split_without_seps(b: Seq<char>)
    requires
        forall|j: int| 0 <= j < b.len() ==> !is_sep(#[trigger] b[j]),
    ensures
        split_parts(b) == seq![b],
    decreases b.len(),
{
    if b.len() > 0 {
        let r = b.drop_last();
        assert forall|j: int| 0 <= j < r.len() implies !is_sep(#[trigger] r[j]) by {
            assert(r[j] == b[j]);
        }
        lemma_split_without_seps(r);
        assert(!is_sep(b[b.len() - 1]));
        assert(r.push(b.last()) =~= b);
        assert(split_parts(b) == seq![r].update(0, r.push(b.last())));
        assert(split_parts(b) =~= seq![b]);
    } else {
        assert(b =~= Seq::<char>::empty());
        assert(split_parts(b) =~= seq![b]);
    }
}

proof fn lemma_split_after_sep(a: Seq<char>, b: Seq<char>)
    requires
        forall|j: int| 0 <= j < b.len() ==> !is_sep(#[trigger] b[j]),
    ensures
        split_parts(a + seq!['/'] + b) == split_parts(a).push(b),
    decreases b.len(),
{
    let s = a + seq!['/'] + b;
    if b.len() == 0 {
        assert(s.drop_last() =~= a);
        assert(s.last() == '/');
        assert(b =~= Seq::<char>::empty());
        assert(split_parts(s) =~= split_parts(a).push(b));
    } else {
        let b2 = b.drop_last();
        assert forall|j: int| 0 <= j < b2.len() implies !is_sep(#[trigger] b2[j]) by {
            assert(b2[j] == b[j]);
        }
        lemma_split_after_sep(a, b2);
        assert(s.drop_last() =~= a + seq!['/'] + b2);
        assert(s.last() == b.last());
        assert(!is_sep(b[b.len() - 1]));
        let rest = split_parts(a).push(b2);
        assert(split_parts(s) == rest.update(rest.len() - 1, rest.last().push(s.last())));
        assert(b2.push(b.last()) =~= b);
        assert(split_parts(s) =~= split_parts(a).push(b));
    }
}

/// Splitting joined separator-free parts gives the parts back.
proof fn lemma_split_join(ps: Seq<Seq<char>>)
    requires
        ps.len() >= 1,
        parts_plain(ps),
    ensures
        split_parts(join_parts(ps)) == ps,
    decreases ps.len(),
{
    if ps.len() == 1 {
        assert forall|j: int| 0 <= j < ps[0].len() implies !is_sep(#[trigger] ps[0][j]) by {
            assert(!is_sep(ps[0][j]));
        }
        lemma_split_without_seps(ps[0]);
        assert(split_parts(join_parts(ps)) =~= ps);
    } else {
        let dl = ps.drop_last();
        assert forall|i: int, j: int| 0 <= i < dl.len() && 0 <= j < dl[i].len() implies !is_sep(
            #[trigger] dl[i][j],
        ) by {
            assert(dl[i] == ps[i]);
        }
        lemma_split_join(dl);
        let last = ps.last();
        assert forall|j: int| 0 <= j < last.len() implies !is_sep(#[trigger] last[j]) by {
            assert(!is_sep(ps[ps.len() - 1][j]));
        }
        lemma_split_after_sep(join_parts(dl), last);
        assert(split_parts(join_parts(ps)) =~= ps);
    }
}

/// The leading run of glob-free parts stops at a part holding a glob
/// character, unless it covers all parts.
proof fn lemma_plain_run_stops(parts: Seq<Seq<char>>)
    ensures
        plain_run(parts) <= parts.len(),
        forall|k: int| 0 <= k < plain_run(parts) ==> !has_glob_char(#[trigger] parts[k]),
        plain_run(parts) < parts.len() ==> has_glob_char(parts[plain_run(parts) as int]),
    decreases parts.len(),
{
    if parts.len() > 0 && !has_glob_char(parts[0]) {
        let rest = parts.drop_first();
        lemma_plain_run_stops(rest);
        assert forall|k: int| 0 <= k < plain_run(parts) implies !has_glob_char(#[trigger] parts[k]) by {
            if k > 0 {
                assert(parts[k] == rest[k - 1]);
            }
        }
        if plain_run(parts) < parts.len() {
            assert(parts[plain_run(parts) as int] == rest[plain_run(rest) as int]);
        }
    }
}

/// Joining glob-free parts gives a glob-free text.
proof fn lemma_join_no_glob(ps: Seq<Seq<char>>)
    requires
        forall|k: int| 0 <= k < ps.len() ==> !has_glob_char(#[trigger] ps[k]),
    ensures
        !has_glob_char(join_parts(ps)),
    decreases ps.len(),
{
    if ps.len() == 1 {
        assert(!has_glob_char(ps[0]));
    } else if ps.len() > 1 {
        let dl = ps.drop_last();
        assert forall|k: int| 0 <= k < dl.len() implies !has_glob_char(#[trigger] dl[k]) by {
            assert(dl[k] == ps[k]);
        }
        lemma_join_no_glob(dl);
        let a = join_parts(dl);
        let last = ps.last();
        assert(!has_glob_char(ps[ps.len() - 1]));
        let j = join_parts(ps);
        assert forall|i: int| 0 <= i < j.len() implies !is_glob_char(#[trigger] j[i]) by {
            if i < a.len() {
                assert(j[i] == a[i]);
            } else if i > a.len() {
                assert(j[i] == last[i - a.len() - 1]);
            }
        }
    }
}

/// The shape of a glob argument's split: its base directory holds no glob
/// metacharacter; when the base is `.` the relative pattern is the argument
/// itself; otherwise the first `/`-separated component of the relative
/// pattern holds a glob metacharacter, so the base is the longest glob-free
/// leading run of components.
pub proof fn lemma_glob_split_shape(pattern: Seq<char>)
    requires
        has_glob_char(pattern),
    ensures
        !has_glob_char(glob_base_spec(pattern)),
        glob_base_spec(pattern) == seq!['.'] ==> glob_relative_spec(pattern, glob_base_spec(pattern))
            == pattern,
        glob_base_spec(pattern) != seq!['.'] ==> has_glob_char(
            split_parts(glob_relative_spec(pattern, glob_base_spec(pattern)))[0],
        ),
{
    let parts = split_parts(pattern);
    let n = plain_run(parts) as int;
    let base = glob_base_spec(pattern);
    lemma_plain_run_stops(parts);
    let head = parts.take(n);
    assert forall|k: int| 0 <= k < head.len() implies !has_glob_char(#[trigger] head[k]) by {
        assert(head[k] == parts[k]);
    }
    lemma_join_no_glob(head);
    assert(!has_glob_char(base)) by {
        if base == seq!['.'] {
            assert(!is_glob_char(base[0]));
        }
    }
    if base != seq!['.'] {
        lemma_base_and_relative_rebuild_pattern(pattern);
        lemma_split_keeps_glob(pattern);
        let k = choose|i: int| 0 <= i < parts.len() && has_glob_char(#[trigger] parts[i]);
        lemma_plain_run_bound(parts, k);
        assert(n >= 1) by {
            if n == 0 {
                assert(parts.take(0) =~= Seq::<Seq<char>>::empty());
            }
        }
        lemma_join_split_at(parts, n);
        lemma_join_split(pattern);
        let tail_parts = parts.skip(n);
        let tail = join_parts(tail_parts);
        let rel = glob_relative_spec(pattern, base);
        assert(base + seq!['/'] + rel == base + seq!['/'] + tail);
        assert(rel =~= (base + seq!['/'] + rel).skip(base.len() + 1int));
        assert(tail =~= (base + seq!['/'] + tail).skip(base.len() + 1int));
        lemma_split_parts_plain(pattern);
        assert forall|i: int, j: int| 0 <= i < tail_parts.len() && 0 <= j < tail_parts[i].len()
            implies !is_sep(#[trigger] tail_parts[i][j]) by {
            assert(tail_parts[i] == parts[n + i]);
        }
        lemma_split_join(tail_parts);
        assert(tail_parts[0] == parts[n]);
    }
}

} // verus!
