use fileutil::commands::enumerate::EnumRecord;
use fileutil::commands::ls::LsRecord;
use fileutil::render::{csv_records, decimal_text, strip_datetime_tz, table_records, Cell, Row};
use fileutil::time::{FixedZone, Timestamp};

fn ls_row(path: &str, is_dir: bool, size: Option<u64>) -> Row {
    LsRecord { path: path.to_string(), is_dir, size }.to_row()
}

#[test]
fn strip_removes_negative_offset() {
    assert_eq!(
        strip_datetime_tz("2026-02-23T22:45:31.961327-05:00"),
        "2026-02-23T22:45:31.961327"
    );
}

#[test]
fn strip_removes_positive_offset() {
    assert_eq!(strip_datetime_tz("2026-02-23T22:45:31+01:00"), "2026-02-23T22:45:31");
}

#[test]
fn strip_keeps_plain_strings() {
    assert_eq!(strip_datetime_tz("Test-1.rs"), "Test-1.rs");
    assert_eq!(strip_datetime_tz("a-T+b"), "a-T+b");
    assert_eq!(strip_datetime_tz("2026-02-23T22:45:31Z"), "2026-02-23T22:45:31Z");
    assert_eq!(strip_datetime_tz("2026-02-23T22:45:31.-05:00"), "2026-02-23T22:45:31.-05:00");
    assert_eq!(strip_datetime_tz("x2026-02-23T22:45:31-05:00"), "x2026-02-23T22:45:31-05:00");
    assert_eq!(strip_datetime_tz("src/main.rs"), "src/main.rs");
    assert_eq!(strip_datetime_tz("2026-02-23"), "2026-02-23");
    assert_eq!(strip_datetime_tz("2026-02-23T22:45:31"), "2026-02-23T22:45:31");
    assert_eq!(strip_datetime_tz(""), "");
}

#[test]
fn strip_is_idempotent() {
    let once = strip_datetime_tz("2026-02-23T22:45:31-05:00");
    assert_eq!(strip_datetime_tz(&once), once);
}

#[test]
fn decimal_text_values() {
    assert_eq!(decimal_text(0), "0");
    assert_eq!(decimal_text(42), "42");
    assert_eq!(decimal_text(u64::MAX), "18446744073709551615");
}

#[test]
fn csv_lines_for_ls_rows() {
    let rows = vec![ls_row("/a", true, None), ls_row("/a/b.txt", false, Some(12))];
    let lines = csv_records(&rows);
    assert_eq!(lines.len(), 3);
    assert_eq!(lines[0], ["is_dir", "path", "size"]);
    assert_eq!(lines[1], ["true", "/a", ""]);
    assert_eq!(lines[2], ["false", "/a/b.txt", "12"]);
}

#[test]
fn table_lines_use_json_text() {
    let rows = vec![ls_row("/a", true, None)];
    let lines = table_records(&rows);
    assert_eq!(lines[0], ["is_dir", "path", "size"]);
    assert_eq!(lines[1], ["true", "\"/a\"", "null"]);
}

#[test]
fn no_rows_no_lines() {
    assert!(csv_records(&vec![]).is_empty());
    assert!(table_records(&vec![]).is_empty());
}

#[test]
fn missing_fields_render_empty() {
    let rows = vec![
        Row { fields: vec![("a".to_string(), Cell::Int(1)), ("b".to_string(), Cell::Bool(false))] },
        Row { fields: vec![("b".to_string(), Cell::Text("x-T+y".to_string()))] },
    ];
    let lines = csv_records(&rows);
    assert_eq!(lines[0], ["a", "b"]);
    assert_eq!(lines[1], ["1", "false"]);
    assert_eq!(lines[2], ["", "x-T+y"]);
}

#[test]
fn enum_csv_strips_datetime_offsets() {
    let rec = EnumRecord {
        root: ".".to_string(),
        rel_path: "a.rs".to_string(),
        filename: "a.rs".to_string(),
        parent_id: Some(7),
        id: Some(8),
        size: Some(9),
        created_at: Some(Timestamp { secs: 1771904731, nanos: 961327000 }),
        modified_at: None,
    };
    let row = rec.to_row(&FixedZone { offset_seconds: -5 * 3600 });
    assert_eq!(row.fields[0].1, Cell::Text("2026-02-23T22:45:31.961327-05:00".to_string()));
    let lines = csv_records(&vec![row]);
    assert_eq!(
        lines[0],
        ["created_at", "filename", "id", "modified_at", "parent_id", "rel_path", "root", "size"]
    );
    assert_eq!(
        lines[1],
        ["2026-02-23T22:45:31.961327", "a.rs", "8", "", "7", "a.rs", ".", "9"]
    );
}

#[test]
fn enum_header_matches_schema_columns() {
    let rec = EnumRecord {
        root: "r".to_string(),
        rel_path: String::new(),
        filename: String::new(),
        parent_id: None,
        id: None,
        size: None,
        created_at: None,
        modified_at: None,
    };
    let header: Vec<String> = rec.to_row(&FixedZone { offset_seconds: 0 }).fields.iter().map(|(n, _)| n.clone()).collect();
    let cols: Vec<String> =
        fileutil::commands::enumerate::csv_columns().into_iter().map(|c| c.name).collect();
    assert_eq!(header, cols);
}

#[test]
fn table_text_escapes_strings() {
    let rows = vec![Row { fields: vec![("s".to_string(), Cell::Text("a\"b".to_string()))] }];
    let lines = table_records(&rows);
    assert_eq!(lines[1], ["\"a\\\"b\""]);
}

#[test]
fn enum_times_keep_their_fields() {
    let rec = EnumRecord {
        root: ".".to_string(),
        rel_path: "a".to_string(),
        filename: "a".to_string(),
        parent_id: None,
        id: None,
        size: None,
        created_at: Some(Timestamp { secs: 0, nanos: 0 }),
        modified_at: Some(Timestamp { secs: 86400, nanos: 0 }),
    };
    let row = rec.to_row(&FixedZone { offset_seconds: 3600 });
    assert_eq!(row.fields[0].1, Cell::Text("1970-01-01T01:00:00+01:00".to_string()));
    assert_eq!(row.fields[3].1, Cell::Text("1970-01-02T01:00:00+01:00".to_string()));
    let lines = csv_records(&vec![row]);
    assert_eq!(lines[1][0], "1970-01-01T01:00:00");
    let table = table_records(&vec![rec.to_row(&FixedZone { offset_seconds: 0 })]);
    assert_eq!(table[1][0], "\"1970-01-01T00:00:00+00:00\"");
}

#[test]
fn strip_handles_signed_years() {
    assert_eq!(
        strip_datetime_tz("+10000-01-01T00:00:00+01:00"),
        "+10000-01-01T00:00:00"
    );
    assert_eq!(
        strip_datetime_tz("-0001-12-31T23:59:59.5-05:00"),
        "-0001-12-31T23:59:59.5"
    );
    assert_eq!(
        strip_datetime_tz("+123-01-01T00:00:00+01:00"),
        "+123-01-01T00:00:00+01:00"
    );
    assert_eq!(
        strip_datetime_tz("10000-01-01T00:00:00+01:00"),
        "10000-01-01T00:00:00+01:00"
    );
}

#[test]
fn far_years_lose_offset_in_csv() {
    let utc = FixedZone { offset_seconds: 0 };
    let text = fileutil::time::local_time_text(&utc, Some(Timestamp { secs: 253_402_300_800, nanos: 0 }));
    assert_eq!(text, Some("+10000-01-01T00:00:00+00:00".to_string()));
    assert_eq!(strip_datetime_tz(&text.unwrap()), "+10000-01-01T00:00:00");
}
