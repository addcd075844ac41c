use tass::schema::{Field, LogicalType};
use tass::source::{CsvFile, JsonFile};

fn unknown(name: &str) -> Field {
    Field { name: name.to_string(), data_type: LogicalType::Null, nullable: true }
}

fn typed(name: &str, t: LogicalType, nullable: bool) -> Field {
    Field { name: name.to_string(), data_type: t, nullable }
}

fn header(names: &[&str]) -> Option<Vec<Field>> {
    Some(names.iter().map(|n| unknown(n)).collect())
}

fn check_csv(src: &mut CsvFile, data: &[u8]) -> usize {
    let hdr = if src.needs_header() { header(&["a", "b", "c", "d"]) } else { None };
    let from = src.scan_from() as usize;
    src.check_for_new_rows(data.len() as u64, hdr, &data[from..])
}

// This tests the situation in which `tass` catches up with stdin, running out of bytes
// in the middle of a line.
#[test]
fn handles_unfinished_line() {
    let data = "\
a,b,c,d
1,2,3,4
5,6,7,8
9,👻,10,11
12,13,14,15";

    let halfway_through_codepoint = data.find("👻").unwrap() + 1;

    let mut source = CsvFile::new(b',');
    check_csv(&mut source, &data.as_bytes()[..halfway_through_codepoint]);
    check_csv(&mut source, data.as_bytes());

    assert_eq!(source.row_offsets(), [8, 16, 24, 37]);
}

#[test]
fn csv_counts_rows_after_header() {
    let data = b"a,b,c,d\n1,2,3,4\n5,6,7,8\n";
    let mut src = CsvFile::new(b',');
    assert_eq!(src.row_count(), 0);
    assert_eq!(check_csv(&mut src, data), 2);
    assert_eq!(src.row_count(), 2);
    assert!(src.up_to_date());
    let more = b"a,b,c,d\n1,2,3,4\n5,6,7,8\n9,9,9,9\n";
    assert_eq!(check_csv(&mut src, more), 1);
    assert_eq!(src.row_count(), 3);
    assert_eq!(src.schema().len(), 4);
    assert_eq!(src.delimiter(), b',');
}

#[test]
fn csv_unchanged_length_is_cheap() {
    let data = b"a,b,c,d\n1,2,3,4\n";
    let mut src = CsvFile::new(b',');
    check_csv(&mut src, data);
    let before = src.row_offsets().to_vec();
    assert_eq!(src.check_for_new_rows(data.len() as u64, None, b"garbage\n"), 0);
    assert_eq!(src.row_offsets(), &before[..]);
}

#[test]
fn csv_header_failure_retries_later() {
    let data = b"a,b,c,d\n1,2,3,4\n";
    let mut src = CsvFile::new(b',');
    assert_eq!(src.check_for_new_rows(data.len() as u64, None, data), 0);
    assert!(src.needs_header());
    assert_eq!(src.row_count(), 0);
    let more = b"a,b,c,d\n1,2,3,4\n5,6,7,8\n";
    assert_eq!(check_csv(&mut src, more), 2);
    assert!(!src.needs_header());
}

#[test]
fn csv_fetch_range_adds_a_trailing_row() {
    let data = b"h\n1\n22\n333\n4444\n";
    let mut src = CsvFile::new(b',');
    src.check_for_new_rows(data.len() as u64, Some(vec![unknown("h")]), data);
    assert_eq!(src.row_count(), 4);
    assert_eq!(src.fetch_range(0, 2), (2, 11));
    assert_eq!(src.fetch_range(1, 1), (4, 11));
    assert_eq!(src.fetch_range(2, 10), (7, 16));
    assert_eq!(src.fetch_range(4, 3), (16, 16));
    assert_eq!(src.fetch_range(usize::MAX, usize::MAX), (16, 16));
}

#[test]
fn csv_merge_widens_types() {
    let data = b"a,b\n1,x\n";
    let mut src = CsvFile::new(b',');
    src.check_for_new_rows(data.len() as u64, Some(vec![unknown("a"), unknown("b")]), data);
    src.merge_schema(&vec![
        typed("column_1", LogicalType::Int64, false),
        typed("column_2", LogicalType::Utf8, false),
    ]);
    src.merge_schema(&vec![
        typed("column_1", LogicalType::Float64, false),
        typed("column_2", LogicalType::Null, true),
    ]);
    let s = src.schema();
    assert_eq!(s[0].name, "a");
    assert_eq!(s[0].data_type, LogicalType::Utf8);
    assert!(s[0].nullable);
    assert_eq!(s[1].data_type, LogicalType::Utf8);
}

#[test]
fn csv_search_skips_header() {
    let data = b"name,n\nbob,1\nalice,2\nbobby,3\n";
    let mut src = CsvFile::new(b',');
    src.check_for_new_rows(data.len() as u64, Some(vec![unknown("name"), unknown("n")]), data);
    assert_eq!(src.search(data, b"bob"), vec![0, 2]);
    assert_eq!(src.search(data, b"name"), Vec::<usize>::new());
}

#[test]
fn json_rows_start_at_first_line() {
    let data = b"{\"a\":1}\n{\"a\":2,\"b\":\"x\"}\n{\"a\":3";
    let mut src = JsonFile::new();
    let from = src.scan_from() as usize;
    assert_eq!(src.check_for_new_rows(data.len() as u64, &data[from..]), 2);
    assert_eq!(src.row_count(), 2);
    assert!(src.up_to_date());
    assert_eq!(src.row_offsets(), &[8, 24]);
    assert_eq!(src.fetch_range(0, 1), (0, 24));
    assert_eq!(src.fetch_range(1, 5), (8, 24));
    assert_eq!(src.search(data, b"\"b\""), vec![1]);
}

#[test]
fn json_merge_appends_new_fields() {
    let mut src = JsonFile::new();
    src.merge_schema(&vec![typed("a", LogicalType::Int64, true)]);
    src.merge_schema(&vec![
        typed("b", LogicalType::Timestamp(tass::schema::TimeUnit::Second), true),
        typed("a", LogicalType::Float64, true),
    ]);
    let s = src.schema();
    assert_eq!(s.len(), 2);
    assert_eq!(s[0].name, "a");
    assert_eq!(s[0].data_type, LogicalType::Utf8);
    assert_eq!(s[1].name, "b");
    assert_eq!(s[1].data_type, LogicalType::Utf8);
}

#[test]
fn csv_schema_survives_an_empty_chunk() {
    let data = b"a,b\n1,x\n";
    let mut src = CsvFile::new(b',');
    src.check_for_new_rows(data.len() as u64, Some(vec![unknown("a"), unknown("b")]), data);
    assert_eq!(src.fetch_range(5, 10), (8, 8));
    src.merge_schema(&Vec::new());
    assert_eq!(src.schema().len(), 2);
    assert!(!src.needs_header());
}

#[test]
fn csv_header_only_adds_no_row() {
    let data = b"a,b,c,d\n";
    let mut src = CsvFile::new(b',');
    assert_eq!(check_csv(&mut src, data), 0);
    assert_eq!(src.row_offsets(), &[8]);
    assert_eq!(src.row_count(), 0);
}
