use fileutil::commands::{enumerate, ls};
use fileutil::schema::{
    builtin_tables, is_schema_stale, update_schema, ColumnDef, ColumnType, CsvdbSchema,
    TableSchema,
};

fn names(cols: &[ColumnDef]) -> Vec<&str> {
    cols.iter().map(|c| c.name.as_str()).collect()
}

fn table<'a>(s: &'a CsvdbSchema, name: &str) -> Option<&'a TableSchema> {
    s.tables.iter().find(|(n, _)| n == name).map(|(_, t)| t)
}

#[test]
fn column_constructors() {
    let c = ColumnDef::string("a");
    assert_eq!((c.name.as_str(), c.col_type, c.nullable), ("a", ColumnType::String, false));
    let c = ColumnDef::integer("b");
    assert_eq!((c.col_type, c.nullable), (ColumnType::Integer, false));
    let c = ColumnDef::boolean("c");
    assert_eq!((c.col_type, c.nullable), (ColumnType::Boolean, false));
    let c = ColumnDef::nullable_integer("d");
    assert_eq!((c.col_type, c.nullable), (ColumnType::Integer, true));
    let c = ColumnDef::nullable_datetime("e");
    assert_eq!((c.col_type, c.nullable), (ColumnType::DateTime, true));
}

#[test]
fn enum_columns_are_in_output_order() {
    let cols = enumerate::csv_columns();
    assert_eq!(
        names(&cols),
        ["created_at", "filename", "id", "modified_at", "parent_id", "rel_path", "root", "size"]
    );
    let id = cols.iter().find(|c| c.name == "id").unwrap();
    assert!(id.nullable);
    let created = cols.iter().find(|c| c.name == "created_at").unwrap();
    assert_eq!(created.col_type, ColumnType::DateTime);
}

#[test]
fn ls_columns_are_in_output_order() {
    let cols = ls::csv_columns();
    assert_eq!(names(&cols), ["is_dir", "path", "size"]);
    assert_eq!(cols[0].col_type, ColumnType::Boolean);
}

#[test]
fn builtin_tables_hold_enum_and_ls() {
    let t = builtin_tables();
    let ns: Vec<&str> = t.iter().map(|(n, _)| n.as_str()).collect();
    assert_eq!(ns, ["enum", "ls"]);
}

#[test]
fn update_creates_both_tables() {
    let u = update_schema(None);
    assert_eq!(u.changed, 2);
    assert!(u.write);
    assert_eq!(u.schema.version, 1);
    assert!(table(&u.schema, "enum").is_some());
    assert!(table(&u.schema, "ls").is_some());
}

#[test]
fn update_is_idempotent() {
    let first = update_schema(None);
    let second = update_schema(Some(first.schema));
    assert_eq!(second.changed, 0);
    assert!(!second.write);
    assert!(!is_schema_stale(&Some(second.schema)));
}

#[test]
fn update_replaces_stale_entry() {
    let stale = CsvdbSchema {
        version: 1,
        tables: vec![(
            "ls".to_string(),
            TableSchema { columns: vec![ColumnDef::string("old_column")] },
        )],
    };
    assert!(is_schema_stale(&Some(CsvdbSchema { version: 1, tables: stale.tables.clone() })));
    let u = update_schema(Some(stale));
    assert_eq!(u.changed, 2); // ls replaced, enum added
    assert!(u.write);
    let cols = &table(&u.schema, "ls").unwrap().columns;
    assert!(!cols.iter().any(|c| c.name == "old_column"));
    assert!(cols.iter().any(|c| c.name == "path"));
}

#[test]
fn update_preserves_unknown_tables() {
    let existing = CsvdbSchema {
        version: 1,
        tables: vec![(
            "my_plugin".to_string(),
            TableSchema { columns: vec![ColumnDef::string("custom_col")] },
        )],
    };
    let u = update_schema(Some(existing));
    assert_eq!(table(&u.schema, "my_plugin").unwrap().columns[0].name, "custom_col");
    assert!(table(&u.schema, "enum").is_some());
    assert_eq!(u.schema.tables.len(), 3);
}

#[test]
fn missing_schema_is_not_stale() {
    assert!(!is_schema_stale(&None));
    assert!(is_schema_stale(&Some(CsvdbSchema::default())));
}

#[test]
fn unique_names_are_checked() {
    let t = TableSchema { columns: vec![] };
    let dup = CsvdbSchema {
        version: 1,
        tables: vec![("a".to_string(), t.clone()), ("a".to_string(), t.clone())],
    };
    assert!(!dup.has_unique_names());
    assert!(update_schema(None).schema.has_unique_names());
}

#[test]
fn update_keeps_version() {
    let doc = CsvdbSchema { version: 3, tables: vec![] };
    assert_eq!(update_schema(Some(doc)).schema.version, 3);
}
