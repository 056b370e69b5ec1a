//! The `ls` subcommand: list a directory, optionally recursively.

use vstd::prelude::*;
use crate::schema::{ColumnDef, ColumnType, TableView};
use crate::entry::EntryInfo;
use crate::path;
use crate::walk::WalkProvider;
use crate::render::{self, Cell, Row, opt_int};

verus! {

/// The canonical CSV columns of the `ls` subcommand, in output order
/// (alphabetical by field name, as serialised).
pub open spec fn ls_columns_spec() -> TableView {
    seq![
        ("is_dir"@, ColumnType::Boolean, false),
        ("path"@, ColumnType::String, false),
        ("size"@, ColumnType::Integer, true),
    ]
}

/// Canonical CSV column definitions for the `ls` subcommand, in output order.
pub fn csv_columns() -> (r: Vec<ColumnDef>)
    ensures
        crate::schema::columns_view(r@) == ls_columns_spec(),
{
    let r = vec![
        ColumnDef::boolean("is_dir"),
        ColumnDef::string("path"),
        ColumnDef::nullable_integer("size"),
    ];
    assert(crate::schema::columns_view(r@) =~= ls_columns_spec());
    r
}

/// Arguments of the `ls` subcommand.
#[derive(Debug)]
pub struct LsArgs {
    /// The directory to list.
    pub path: String,
    /// List the whole tree instead of the directory and its immediate children.
    pub recursive: bool,
}

/// One output record of the `ls` subcommand.
#[derive(Debug, PartialEq, Eq)]
pub struct LsRecord {
    pub path: String,
    pub is_dir: bool,
    pub size: Option<u64>,
}

impl View for LsRecord {
    type V = (Seq<char>, bool, Option<u64>);

    open spec fn view(&self) -> (Seq<char>, bool, Option<u64>) {
        (self.path@, self.is_dir, self.size)
    }
}

/// Whether a listing keeps entry `e`: every entry when recursive, otherwise
/// the root (no components) and its immediate children (one component).
pub open spec fn ls_keeps(recursive: bool, e: EntryInfo) -> bool {
    recursive || path::path_component_count(e.rel_path@) <= 1
}

/// The listing of `entries`: the kept entries, in order, as records.
pub open spec fn ls_listing(entries: Seq<EntryInfo>, recursive: bool) -> Seq<
    (Seq<char>, bool, Option<u64>),
> {
    entries.filter(|e: EntryInfo| ls_keeps(recursive, e)).map_values(
        |e: EntryInfo| (e.path@, e.is_dir, e.size),
    )
}

/// A listing that is not recursive holds exactly the entries whose relative
/// path has at most one component (the root and its immediate children),
/// whatever their kind, in order; a recursive listing holds every entry.
pub proof fn lemma_listing_depth(entries: Seq<EntryInfo>)
    ensures
        ls_listing(entries, false) == entries.filter(
            |e: EntryInfo| path::path_component_count(e.rel_path@) <= 1,
        ).map_values(|e: EntryInfo| (e.path@, e.is_dir, e.size)),
        ls_listing(entries, true) == entries.map_values(
            |e: EntryInfo| (e.path@, e.is_dir, e.size),
        ),
        forall|e: EntryInfo|
            #[trigger] ls_keeps(false, e) <==> path::path_component_count(e.rel_path@) <= 1,
{
    let f = |e: EntryInfo| path::path_component_count(e.rel_path@) <= 1;
    assert((|e: EntryInfo| ls_keeps(false, e)) =~= f);
    lemma_keep_all(entries);
}

proof fn lemma_keep_all(entries: Seq<EntryInfo>)
    ensures
        entries.filter(|e: EntryInfo| ls_keeps(true, e)) == entries,
    decreases entries.len(),
{
    reveal_with_fuel(Seq::filter, 1);
    if entries.len() > 0 {
        lemma_keep_all(entries.drop_last());
        assert(entries.drop_last().push(entries.last()) =~= entries);
    } else {
        assert(entries.filter(|e: EntryInfo| ls_keeps(true, e)) =~= entries);
    }
}

/// The records of a listing of `entries`.
pub fn list_entries(entries: &Vec<EntryInfo>, recursive: bool) -> (r: Vec<LsRecord>)
    ensures
        r@.map_values(|x: LsRecord| x@) == ls_listing(entries@, recursive),
{
    let mut r: Vec<LsRecord> = Vec::new();
    let n = entries.len();
    for i in 0..n
        invariant
            n == entries@.len(),
            r@.map_values(|x: LsRecord| x@) == ls_listing(entries@.take(i as int), recursive),
    {
        proof {
            reveal_with_fuel(Seq::filter, 1);
            assert(entries@.take(i + 1).drop_last() =~= entries@.take(i as int));
        }
        let e = &entries[i];
        let depth = path::component_count(e.rel_path.as_str());
        let ghost before = r@;
        if recursive || depth <= 1 {
            r.push(LsRecord { path: e.path.clone(), is_dir: e.is_dir, size: e.size });
            proof {
                assert(r@.map_values(|x: LsRecord| x@) =~= before.map_values(|x: LsRecord| x@).push(
                    (e.path@, e.is_dir, e.size),
                ));
            }
        }
        proof {
            assert(r@.map_values(|x: LsRecord| x@) =~= ls_listing(entries@.take(i + 1), recursive));
        }
    }
    proof {
        assert(entries@.take(n as int) =~= entries@);
    }
    r
}

/// Testable core of the `ls` subcommand: walks `args.path` with `provider`
/// (without following links) and lists what it finds; when not recursive,
/// only the root and its immediate children are kept.
pub fn run_with_provider<P: WalkProvider>(args: LsArgs, provider: &P) -> (r: Vec<LsRecord>)
    ensures
        exists|found: Seq<EntryInfo>|
            {
                &&& provider.walk_outcome(args.path@, false, found)
                &&& r@.map_values(|x: LsRecord| x@) == ls_listing(found, args.recursive)
            },
{
    let found = provider.walk(args.path.as_str(), false);
    list_entries(&found, args.recursive)
}

/// The values of the fields of `r`, in output (field-name) order.
pub open spec fn ls_cells(r: LsRecord) -> Seq<Cell> {
    seq![Cell::Bool(r.is_dir), Cell::Text(r.path), opt_int(r.size)]
}

impl LsRecord {
    /// The record as an output row: its fields by name, in name order, which
    /// are exactly the columns of [`csv_columns`].
    pub fn to_row(&self) -> (r: Row)
        ensures
            render::row_fits(r.fields@, ls_columns_spec()),
            render::field_values(r.fields@) == ls_cells(*self),
    {
        let fields = vec![
            ("is_dir".to_owned(), Cell::Bool(self.is_dir)),
            ("path".to_owned(), Cell::Text(self.path.clone())),
            ("size".to_owned(), render::int_cell(self.size)),
        ];
        assert(render::field_values(fields@) =~= ls_cells(*self));
        Row { fields }
    }
}

} // verus!
