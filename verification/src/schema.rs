//! csvdb schema management.
//!
//! The schema document records the canonical CSV column layout produced by
//! each subcommand, keyed by subcommand name, so that downstream tools know
//! column names and types without running the tool.  Updating a document
//! replaces every built-in table that is absent or differs from its current
//! definition and leaves every other table untouched.

use vstd::prelude::*;
use crate::commands;

verus! {

/// The type of a column's values as they appear in CSV output.
#[derive(Debug, Clone, Copy, PartialEq, Eq, Structural)]
pub enum ColumnType {
    String,
    Integer,
    Boolean,
    Float,
    DateTime,
}

/// Description of a single CSV output column.
#[derive(Debug, PartialEq, Eq)]
pub struct ColumnDef {
    pub name: String,
    pub col_type: ColumnType,
    pub nullable: bool,
}

/// The model of a column: its name, type and nullability.
pub type ColumnView = (Seq<char>, ColumnType, bool);

/// The model of a table: its columns in order.
pub type TableView = Seq<ColumnView>;

impl View for ColumnDef {
    type V = ColumnView;

    open spec fn view(&self) -> ColumnView {
        (self.name@, self.col_type, self.nullable)
    }
}

impl Clone for ColumnDef {
    fn clone(&self) -> (r: Self)
        ensures
            r == *self,
    {
        ColumnDef { name: self.name.clone(), col_type: self.col_type, nullable: self.nullable }
    }
}

impl ColumnDef {
    /// A non-nullable string column.
    pub fn string(name: &str) -> (r: Self)
        ensures
            r@ == (name@, ColumnType::String, false),
    {
        ColumnDef { name: name.to_owned(), col_type: ColumnType::String, nullable: false }
    }

    /// A non-nullable integer column.
    pub fn integer(name: &str) -> (r: Self)
        ensures
            r@ == (name@, ColumnType::Integer, false),
    {
        ColumnDef { name: name.to_owned(), col_type: ColumnType::Integer, nullable: false }
    }

    /// A non-nullable boolean column.
    pub fn boolean(name: &str) -> (r: Self)
        ensures
            r@ == (name@, ColumnType::Boolean, false),
    {
        ColumnDef { name: name.to_owned(), col_type: ColumnType::Boolean, nullable: false }
    }

    /// A nullable integer column.
    pub fn nullable_integer(name: &str) -> (r: Self)
        ensures
            r@ == (name@, ColumnType::Integer, true),
    {
        ColumnDef { name: name.to_owned(), col_type: ColumnType::Integer, nullable: true }
    }

    /// A nullable date-time column.
    pub fn nullable_datetime(name: &str) -> (r: Self)
        ensures
            r@ == (name@, ColumnType::DateTime, true),
    {
        ColumnDef { name: name.to_owned(), col_type: ColumnType::DateTime, nullable: true }
    }

    /// Whether `self` and `other` describe the same column.
    pub fn same_as(&self, other: &ColumnDef) -> (r: bool)
        ensures
            r == (self@ == other@),
    {
        self.name == other.name && self.col_type == other.col_type && self.nullable
            == other.nullable
    }
}

/// The models of a list of columns.
pub open spec fn columns_view(columns: Seq<ColumnDef>) -> TableView {
    columns.map_values(|c: ColumnDef| c@)
}

/// The schema for one subtool's CSV output.
#[derive(Debug, PartialEq, Eq)]
pub struct TableSchema {
    pub columns: Vec<ColumnDef>,
}

impl View for TableSchema {
    type V = TableView;

    open spec fn view(&self) -> TableView {
        columns_view(self.columns@)
    }
}

impl Clone for TableSchema {
    fn clone(&self) -> (r: Self)
        ensures
            r@ == self@,
    {
        let mut columns: Vec<ColumnDef> = Vec::new();
        let n = self.columns.len();
        for i in 0..n
            invariant
                n == self.columns@.len(),
                columns@.len() == i,
                forall|j: int| 0 <= j < i ==> #[trigger] columns@[j] == self.columns@[j],
        {
            columns.push(self.columns[i].clone());
        }
        assert(columns_view(columns@) =~= columns_view(self.columns@));
        TableSchema { columns }
    }
}

impl TableSchema {
    /// Whether `self` and `other` hold the same columns in the same order.
    pub fn same_as(&self, other: &TableSchema) -> (r: bool)
        ensures
            r == (self@ == other@),
    {
        let n = self.columns.len();
        if n != other.columns.len() {
            assert(self@.len() != other@.len());
            return false;
        }
        for i in 0..n
            invariant
                n == self.columns@.len(),
                n == other.columns@.len(),
                forall|j: int| 0 <= j < i ==> #[trigger] self@[j] == other@[j],
        {
            if !self.columns[i].same_as(&other.columns[i]) {
                assert(self@[i as int] != other@[i as int]);
                return false;
            }
        }
        assert(self@ =~= other@);
        true
    }
}

/// A named table of a schema document.
pub type NamedTable = (String, TableSchema);

/// Root schema document: a format version and the tables keyed by subtool
/// name (e.g. `"enum"`, `"ls"`).  No two tables share a name.
#[derive(Debug)]
pub struct CsvdbSchema {
    pub version: u32,
    pub tables: Vec<NamedTable>,
}

/// No two tables of `tables` share a name.
pub open spec fn names_unique(tables: Seq<NamedTable>) -> bool {
    forall|i: int, j: int|
        0 <= i < tables.len() && 0 <= j < tables.len() && i != j ==> #[trigger] tables[i].0@
            != #[trigger] tables[j].0@
}

/// Some table of `tables` is named `name`.
pub open spec fn has_name(tables: Seq<NamedTable>, name: Seq<char>) -> bool {
    exists|i: int| 0 <= i < tables.len() && #[trigger] tables[i].0@ == name
}

/// The tables of a list, as a map from table name to columns.
pub open spec fn tables_view(tables: Seq<NamedTable>) -> Map<Seq<char>, TableView> {
    Map::new(
        |name: Seq<char>| has_name(tables, name),
        |name: Seq<char>| tables[choose|i: int| 0 <= i < tables.len() && tables[i].0@ == name].1@,
    )
}

impl View for CsvdbSchema {
    /// The format version and the tables keyed by name.
    type V = (u32, Map<Seq<char>, TableView>);

    open spec fn view(&self) -> (u32, Map<Seq<char>, TableView>) {
        (self.version, self.tables_map())
    }
}

impl CsvdbSchema {
    /// The table names are unique.
    pub open spec fn wf(&self) -> bool {
        names_unique(self.tables@)
    }

    /// The tables, keyed by name.
    pub open spec fn tables_map(&self) -> Map<Seq<char>, TableView> {
        tables_view(self.tables@)
    }

    /// Whether no two tables share a name.
    pub fn has_unique_names(&self) -> (r: bool)
        ensures
            r == self.wf(),
    {
        let n = self.tables.len();
        for i in 0..n
            invariant
                n == self.tables@.len(),
                forall|a: int, b: int|
                    0 <= a < i && 0 <= b < n && a != b ==> #[trigger] self.tables@[a].0@
                        != #[trigger] self.tables@[b].0@,
        {
            for j in 0..n
                invariant
                    n == self.tables@.len(),
                    i < n,
                    forall|a: int, b: int|
                        0 <= a < i && 0 <= b < n && a != b ==> #[trigger] self.tables@[a].0@
                            != #[trigger] self.tables@[b].0@,
                    forall|b: int|
                        0 <= b < j && b != i ==> self.tables@[i as int].0@
                            != #[trigger] self.tables@[b].0@,
            {
                if j != i && self.tables[i].0 == self.tables[j].0 {
                    return false;
                }
            }
        }
        true
    }
}

impl Default for CsvdbSchema {
    fn default() -> (r: Self)
        ensures
            r.version == 1,
            r.tables@.len() == 0,
            r@ == (1u32, Map::<Seq<char>, TableView>::empty()),
    {
        CsvdbSchema { version: 1, tables: Vec::new() }
    }
}

/// The models of a list of named tables, in order.
pub open spec fn named_tables_view(tables: Seq<NamedTable>) -> Seq<(Seq<char>, TableView)> {
    tables.map_values(|t: NamedTable| (t.0@, t.1@))
}

/// The built-in tables: one per subcommand, in name order.
pub open spec fn builtin_tables_spec() -> Seq<(Seq<char>, TableView)> {
    seq![
        ("enum"@, commands::enumerate::enum_columns_spec()),
        ("ls"@, commands::ls::ls_columns_spec()),
    ]
}

/// All built-in table definitions, keyed by subtool name.
pub fn builtin_tables() -> (r: Vec<NamedTable>)
    ensures
        named_tables_view(r@) == builtin_tables_spec(),
        names_unique(r@),
{
    let mut m: Vec<NamedTable> = Vec::new();
    m.push(("enum".to_owned(), TableSchema { columns: commands::enumerate::csv_columns() }));
    m.push(("ls".to_owned(), TableSchema { columns: commands::ls::csv_columns() }));
    proof {
        reveal_strlit("enum");
        reveal_strlit("ls");
        assert(named_tables_view(m@) =~= builtin_tables_spec());
        assert(m@[0].0@.len() != m@[1].0@.len());
    }
    m
}

/// The keys of `tables` are pairwise distinct.
pub open spec fn keys_unique(tables: Seq<(Seq<char>, TableView)>) -> bool {
    forall|i: int, j: int|
        0 <= i < tables.len() && 0 <= j < tables.len() && i != j ==> #[trigger] tables[i].0
            != #[trigger] tables[j].0
}

/// Some entry of `tables` is keyed `name`.
pub open spec fn has_key(tables: Seq<(Seq<char>, TableView)>, name: Seq<char>) -> bool {
    exists|i: int| 0 <= i < tables.len() && #[trigger] tables[i].0 == name
}

/// `current` holds the table `name` with exactly the columns `columns`.
pub open spec fn table_current(
    current: Map<Seq<char>, TableView>,
    name: Seq<char>,
    columns: TableView,
) -> bool {
    current.contains_key(name) && current[name] == columns
}

/// `current` after each table of `tables` is put in, in turn, replacing any
/// table of the same name.
pub open spec fn with_tables(
    current: Map<Seq<char>, TableView>,
    tables: Seq<(Seq<char>, TableView)>,
) -> Map<Seq<char>, TableView>
    decreases tables.len(),
{
    if tables.len() == 0 {
        current
    } else {
        with_tables(current, tables.drop_last()).insert(tables.last().0, tables.last().1)
    }
}

/// The number of tables of `tables` that `current` lacks or holds with other
/// columns.
pub open spec fn stale_count(
    current: Map<Seq<char>, TableView>,
    tables: Seq<(Seq<char>, TableView)>,
) -> nat
    decreases tables.len(),
{
    if tables.len() == 0 {
        0
    } else {
        stale_count(current, tables.drop_last()) + (if table_current(
            current,
            tables.last().0,
            tables.last().1,
        ) {
            0nat
        } else {
            1nat
        })
    }
}

proof fn lemma_view_at(s: Seq<NamedTable>, j: int)
    requires
        names_unique(s),
        0 <= j < s.len(),
    ensures
        tables_view(s).contains_key(s[j].0@),
        tables_view(s)[s[j].0@] == s[j].1@,
{
    let k = s[j].0@;
    assert(has_name(s, k));
    let c = choose|i: int| 0 <= i < s.len() && s[i].0@ == k;
    assert(c == j);
}

proof fn lemma_view_update(s: Seq<NamedTable>, j: int, t: NamedTable)
    requires
        names_unique(s),
        0 <= j < s.len(),
        s[j].0@ == t.0@,
    ensures
        names_unique(s.update(j, t)),
        tables_view(s.update(j, t)) == tables_view(s).insert(t.0@, t.1@),
{
    let u = s.update(j, t);
    assert forall|i: int, k: int|
        0 <= i < u.len() && 0 <= k < u.len() && i != k implies #[trigger] u[i].0@
        != #[trigger] u[k].0@ by {
        assert(s[i].0@ != s[k].0@);
    }
    assert forall|name: Seq<char>|
        #![auto]
        tables_view(u).contains_key(name) == tables_view(s).insert(t.0@, t.1@).contains_key(
            name,
        ) by {
        if has_name(s, name) {
            let i = choose|i: int| 0 <= i < s.len() && s[i].0@ == name;
            assert(u[i].0@ == name);
        }
        if has_name(u, name) {
            let i = choose|i: int| 0 <= i < u.len() && u[i].0@ == name;
            assert(s[i].0@ == name);
        }
    }
    assert forall|name: Seq<char>| #[trigger]
        tables_view(u).contains_key(name) implies tables_view(u)[name] == tables_view(s).insert(
        t.0@,
        t.1@,
    )[name] by {
        let i = choose|i: int| 0 <= i < u.len() && u[i].0@ == name;
        lemma_view_at(u, i);
        if i != j {
            lemma_view_at(s, i);
        }
    }
    assert(tables_view(u) =~= tables_view(s).insert(t.0@, t.1@));
}

proof fn lemma_view_push(s: Seq<NamedTable>, t: NamedTable)
    requires
        names_unique(s),
        !has_name(s, t.0@),
    ensures
        names_unique(s.push(t)),
        tables_view(s.push(t)) == tables_view(s).insert(t.0@, t.1@),
{
    let u = s.push(t);
    assert forall|i: int, k: int|
        0 <= i < u.len() && 0 <= k < u.len() && i != k implies #[trigger] u[i].0@
        != #[trigger] u[k].0@ by {
        if i < s.len() && k < s.len() {
            assert(s[i].0@ != s[k].0@);
        } else if i < s.len() {
            assert(s[i].0@ != t.0@);
        } else {
            assert(s[k].0@ != t.0@);
        }
    }
    assert forall|name: Seq<char>|
        #![auto]
        tables_view(u).contains_key(name) == tables_view(s).insert(t.0@, t.1@).contains_key(
            name,
        ) by {
        if has_name(s, name) {
            let i = choose|i: int| 0 <= i < s.len() && s[i].0@ == name;
            assert(u[i].0@ == name);
        }
        if has_name(u, name) && name != t.0@ {
            let i = choose|i: int| 0 <= i < u.len() && u[i].0@ == name;
            assert(s[i].0@ == name);
        }
        if name == t.0@ {
            assert(u[s.len() as int].0@ == name);
        }
    }
    assert forall|name: Seq<char>| #[trigger]
        tables_view(u).contains_key(name) implies tables_view(u)[name] == tables_view(s).insert(
        t.0@,
        t.1@,
    )[name] by {
        let i = choose|i: int| 0 <= i < u.len() && u[i].0@ == name;
        lemma_view_at(u, i);
        if i < s.len() {
            lemma_view_at(s, i);
        }
    }
    assert(tables_view(u) =~= tables_view(s).insert(t.0@, t.1@));
}

/// Putting tables in leaves every table of another name as it was.
proof fn lemma_with_tables_other(
    current: Map<Seq<char>, TableView>,
    tables: Seq<(Seq<char>, TableView)>,
    name: Seq<char>,
)
    requires
        !has_key(tables, name),
    ensures
        with_tables(current, tables).contains_key(name) == current.contains_key(name),
        current.contains_key(name) ==> with_tables(current, tables)[name] == current[name],
    decreases tables.len(),
{
    if tables.len() > 0 {
        let rest = tables.drop_last();
        assert(!has_key(rest, name)) by {
            if has_key(rest, name) {
                let i = choose|i: int| 0 <= i < rest.len() && rest[i].0 == name;
                assert(tables[i].0 == name);
            }
        }
        assert(tables[tables.len() - 1].0 != name);
        lemma_with_tables_other(current, rest, name);
    }
}

/// After a table is put in, the result holds it.
proof fn lemma_with_tables_holds(
    current: Map<Seq<char>, TableView>,
    tables: Seq<(Seq<char>, TableView)>,
    i: int,
)
    requires
        keys_unique(tables),
        0 <= i < tables.len(),
    ensures
        table_current(with_tables(current, tables), tables[i].0, tables[i].1),
    decreases tables.len(),
{
    if i < tables.len() - 1 {
        let rest = tables.drop_last();
        assert(tables[tables.len() - 1].0 != tables[i].0);
        assert(rest[i] == tables[i]);
        lemma_with_tables_holds(current, rest, i);
    }
}

proof fn lemma_stale_count_monotone(
    current: Map<Seq<char>, TableView>,
    tables: Seq<(Seq<char>, TableView)>,
    k: int,
)
    requires
        0 <= k <= tables.len(),
    ensures
        stale_count(current, tables.take(k)) <= stale_count(current, tables),
    decreases tables.len(),
{
    if k < tables.len() {
        let rest = tables.drop_last();
        assert(rest.take(k) =~= tables.take(k));
        lemma_stale_count_monotone(current, rest, k);
    } else {
        assert(tables.take(k) =~= tables);
    }
}

/// When every table of `tables` is already current, putting them in changes nothing.
proof fn lemma_with_current_tables(
    current: Map<Seq<char>, TableView>,
    tables: Seq<(Seq<char>, TableView)>,
)
    requires
        stale_count(current, tables) == 0,
    ensures
        with_tables(current, tables) == current,
    decreases tables.len(),
{
    if tables.len() > 0 {
        lemma_with_current_tables(current, tables.drop_last());
        assert(with_tables(current, tables) =~= current);
    }
}

/// The index of the table named `name`, if any.
fn find_table(tables: &Vec<NamedTable>, name: &String) -> (r: Option<usize>)
    ensures
        r matches Some(i) ==> i < tables@.len() && tables@[i as int].0@ == name@,
        r is None ==> !has_name(tables@, name@),
{
    let n = tables.len();
    for i in 0..n
        invariant
            n == tables@.len(),
            forall|j: int| 0 <= j < i ==> #[trigger] tables@[j].0@ != name@,
    {
        if tables[i].0 == *name {
            return Some(i);
        }
    }
    None
}

/// Put each of `builtins` into `schema`, replacing any table of the same name
/// whose columns differ; tables of other names are left untouched.
///
/// Returns the number of tables that were added or replaced.
pub fn merge_tables(schema: &mut CsvdbSchema, builtins: &Vec<NamedTable>) -> (changed: usize)
    requires
        old(schema).wf(),
        names_unique(builtins@),
    ensures
        final(schema).wf(),
        final(schema)@ == (old(schema)@.0, with_tables(
            old(schema)@.1,
            named_tables_view(builtins@),
        )),
        changed == stale_count(old(schema).tables_map(), named_tables_view(builtins@)),
{
    let ghost start = schema.tables_map();
    let ghost bv = named_tables_view(builtins@);
    let mut changed: usize = 0;
    let n = builtins.len();
    for i in 0..n
        invariant
            n == builtins@.len(),
            bv == named_tables_view(builtins@),
            names_unique(builtins@),
            schema.wf(),
            schema.version == old(schema).version,
            schema.tables_map() == with_tables(start, bv.take(i as int)),
            changed == stale_count(start, bv.take(i as int)),
            changed <= i,
    {
        let ghost cur = schema.tables_map();
        let name = &builtins[i].0;
        let canonical = &builtins[i].1;
        proof {
            assert(bv.take(i + 1).drop_last() =~= bv.take(i as int));
            assert(bv[i as int] == (name@, canonical@));
            assert(!has_key(bv.take(i as int), name@)) by {
                if has_key(bv.take(i as int), name@) {
                    let k = choose|k: int| 0 <= k < i && #[trigger] bv.take(i as int)[k].0 == name@;
                    assert(builtins@[k].0@ == name@);
                }
            }
            lemma_with_tables_other(start, bv.take(i as int), name@);
        }
        match find_table(&schema.tables, name) {
            Some(j) => {
                proof {
                    lemma_view_at(schema.tables@, j as int);
                }
                if !schema.tables[j].1.same_as(canonical) {
                    let t = (name.clone(), canonical.clone());
                    proof {
                        lemma_view_update(schema.tables@, j as int, t);
                    }
                    schema.tables.set(j, t);
                    changed = changed + 1;
                } else {
                    proof {
                        assert(cur.insert(name@, canonical@) =~= cur);
                    }
                }
            },
            None => {
                let t = (name.clone(), canonical.clone());
                proof {
                    lemma_view_push(schema.tables@, t);
                }
                schema.tables.push(t);
                changed = changed + 1;
            },
        }
    }
    proof {
        assert(bv.take(n as int) =~= bv);
    }
    changed
}

/// The tables a loaded document starts from: none when there is no document.
pub open spec fn loaded_tables(loaded: Option<CsvdbSchema>) -> Map<Seq<char>, TableView> {
    match loaded {
        Some(s) => s.tables_map(),
        None => Map::empty(),
    }
}

/// The outcome of updating a schema document.
#[derive(Debug)]
pub struct SchemaUpdate {
    /// The updated document.
    pub schema: CsvdbSchema,
    /// The number of built-in tables that were added or replaced.
    pub changed: usize,
    /// Whether the document must be written back: something changed, or
    /// there was no document yet.
    pub write: bool,
}

/// Update the document `loaded` (`None` when no document exists yet; a
/// document that exists but cannot be parsed is passed as the default one):
/// every built-in table that is absent or differs is replaced by its current
/// definition, every other table is kept.
pub fn update_schema(loaded: Option<CsvdbSchema>) -> (r: SchemaUpdate)
    requires
        loaded matches Some(s) ==> s.wf(),
    ensures
        r.schema.wf(),
        r.schema@ == ((match loaded {
            Some(s) => s.version,
            None => 1u32,
        }), with_tables(loaded_tables(loaded), builtin_tables_spec())),
        r.changed == stale_count(loaded_tables(loaded), builtin_tables_spec()),
        r.write == (r.changed > 0 || loaded is None),
{
    let existed = loaded.is_some();
    let mut schema = match loaded {
        Some(s) => s,
        None => CsvdbSchema::default(),
    };
    proof {
        if !existed {
            assert(schema.tables_map() =~= Map::<Seq<char>, TableView>::empty());
        }
    }
    let builtins = builtin_tables();
    let changed = merge_tables(&mut schema, &builtins);
    SchemaUpdate { schema, changed, write: changed > 0 || !existed }
}

/// Whether the document `loaded` holds some built-in table that is absent or
/// differs from its current definition.  No document (missing, unreadable or
/// unparsable) is never stale.
pub fn is_schema_stale(loaded: &Option<CsvdbSchema>) -> (r: bool)
    requires
        loaded matches Some(s) ==> s.wf(),
    ensures
        r == (loaded matches Some(s) && stale_count(s.tables_map(), builtin_tables_spec()) > 0),
{
    let schema = match loaded {
        Some(s) => s,
        None => return false,
    };
    let builtins = builtin_tables();
    let ghost start = schema.tables_map();
    let ghost bv = named_tables_view(builtins@);
    let n = builtins.len();
    for i in 0..n
        invariant
            n == builtins@.len(),
            bv == named_tables_view(builtins@),
            bv == builtin_tables_spec(),
            schema.wf(),
            start == schema.tables_map(),
            loaded matches Some(s) && s.tables_map() == start,
            stale_count(start, bv.take(i as int)) == 0,
    {
        let name = &builtins[i].0;
        let canonical = &builtins[i].1;
        proof {
            assert(bv.take(i + 1).drop_last() =~= bv.take(i as int));
            assert(bv[i as int] == (name@, canonical@));
        }
        let current = match find_table(&schema.tables, name) {
            Some(j) => {
                proof {
                    lemma_view_at(schema.tables@, j as int);
                }
                schema.tables[j].1.same_as(canonical)
            },
            None => false,
        };
        if !current {
            proof {
                assert(!table_current(start, name@, canonical@));
                assert(bv.take(i + 1).last() == bv[i as int]);
                assert(stale_count(start, bv.take(i + 1)) > 0);
                lemma_stale_count_monotone(start, bv, i + 1);
            }
            return true;
        }
    }
    proof {
        assert(bv.take(n as int) =~= bv);
    }
    false
}

// ── Laws ─────────────────────────────────────────────────────────────────────

/// The built-in tables have distinct names.
pub proof fn lemma_builtin_names_distinct()
    ensures
        keys_unique(builtin_tables_spec()),
{
    reveal_strlit("enum");
    reveal_strlit("ls");
    assert(builtin_tables_spec()[0].0.len() != builtin_tables_spec()[1].0.len());
}

/// Updating is idempotent: after an update, every built-in table is current,
/// so a second update changes nothing and leaves the tables as they were.
pub proof fn lemma_update_idempotent(current: Map<Seq<char>, TableView>)
    ensures
        stale_count(with_tables(current, builtin_tables_spec()), builtin_tables_spec()) == 0,
        with_tables(with_tables(current, builtin_tables_spec()), builtin_tables_spec())
            == with_tables(current, builtin_tables_spec()),
{
    lemma_builtin_names_distinct();
    let b = builtin_tables_spec();
    let updated = with_tables(current, b);
    assert forall|k: int| 0 <= k <= b.len() implies stale_count(updated, #[trigger] b.take(k))
        == 0 by {
        lemma_stale_prefix_current(current, b, k);
    }
    assert(b.take(b.len() as int) =~= b);
    lemma_with_current_tables(updated, b);
}

proof fn lemma_stale_prefix_current(
    current: Map<Seq<char>, TableView>,
    b: Seq<(Seq<char>, TableView)>,
    k: int,
)
    requires
        keys_unique(b),
        0 <= k <= b.len(),
    ensures
        stale_count(with_tables(current, b), b.take(k)) == 0,
    decreases k,
{
    if k > 0 {
        lemma_stale_prefix_current(current, b, k - 1);
        assert(b.take(k).drop_last() =~= b.take(k - 1));
        lemma_with_tables_holds(current, b, k - 1);
    }
}

/// Updating leaves every table that is not a built-in one exactly as it was.
pub proof fn lemma_update_keeps_other_tables(current: Map<Seq<char>, TableView>, name: Seq<char>)
    requires
        !has_key(builtin_tables_spec(), name),
    ensures
        with_tables(current, builtin_tables_spec()).contains_key(name) == current.contains_key(
            name,
        ),
        current.contains_key(name) ==> with_tables(current, builtin_tables_spec())[name]
            == current[name],
{
    lemma_with_tables_other(current, builtin_tables_spec(), name);
}

/// After an update every built-in table is present with its current columns.
pub proof fn lemma_update_installs_builtins(current: Map<Seq<char>, TableView>, i: int)
    requires
        0 <= i < builtin_tables_spec().len(),
    ensures
        table_current(
            with_tables(current, builtin_tables_spec()),
            builtin_tables_spec()[i].0,
            builtin_tables_spec()[i].1,
        ),
{
    lemma_builtin_names_distinct();
    lemma_with_tables_holds(current, builtin_tables_spec(), i);
}

/// A document is stale exactly when updating it would change its tables.
pub proof fn lemma_stale_iff_update_changes(current: Map<Seq<char>, TableView>)
    ensures
        (stale_count(current, builtin_tables_spec()) > 0) <==> (with_tables(
            current,
            builtin_tables_spec(),
        ) != current),
{
    let b = builtin_tables_spec();
    if stale_count(current, b) == 0 {
        lemma_with_current_tables(current, b);
    } else {
        lemma_builtin_names_distinct();
        let i = lemma_stale_witness(current, b);
        lemma_with_tables_holds(current, b, i);
    }
}

proof fn lemma_stale_witness(current: Map<Seq<char>, TableView>, b: Seq<(Seq<char>, TableView)>) -> (i: int)
    requires
        stale_count(current, b) > 0,
    ensures
        0 <= i < b.len(),
        !table_current(current, b[i].0, b[i].1),
    decreases b.len(),
{
    if table_current(current, b.last().0, b.last().1) {
        let i = lemma_stale_witness(current, b.drop_last());
        i
    } else {
        (b.len() - 1) as int
    }
}

} // verus!
