use arrow::array::{Array, StringArray};
use arrow::csv::ReaderBuilder;
use arrow::datatypes::{DataType as ArrowType, Field as ArrowField, Schema};
use arrow::record_batch::RecordBatch;
use std::collections::HashSet;
use std::io::Cursor;
use std::sync::Arc;
use tass::cache::{CachedSource, LoadedColumn, CHUNK_SIZE};
use tass::schema::{Field, LogicalType};
use tass::source::CsvFile;
use tass::stats::{ColumnSummary, RenderSettings};

fn text_schema(names: &[&str]) -> Arc<Schema> {
    Arc::new(Schema::new(
        names.iter().map(|n| ArrowField::new(*n, ArrowType::Utf8, true)).collect::<Vec<_>>(),
    ))
}

fn decode(bytes: &[u8], schema: Arc<Schema>, len: usize) -> RecordBatch {
    let mut rdr = ReaderBuilder::new(schema.clone())
        .with_header(false)
        .with_bounds(0, len)
        .with_batch_size(len)
        .build(Cursor::new(bytes.to_vec()))
        .unwrap();
    match rdr.next() {
        Some(b) => b.unwrap(),
        None => RecordBatch::new_empty(schema),
    }
}

fn describe(batch: &RecordBatch) -> Vec<LoadedColumn> {
    let schema = batch.schema();
    schema
        .fields()
        .iter()
        .zip(batch.columns())
        .map(|(f, col)| {
            let col = col.as_any().downcast_ref::<StringArray>().unwrap();
            let max_len = col.iter().flatten().map(|s| s.len() as u64).max().unwrap_or(0);
            let distinct = col.iter().flatten().collect::<HashSet<_>>().len();
            LoadedColumn {
                name: f.name().clone(),
                summary: ColumnSummary::Text { max_len, distinct },
                all_null: col.null_count() == col.len(),
            }
        })
        .collect()
}

fn settings() -> RenderSettings {
    RenderSettings { float_dps: 3, hide_empty: true }
}

fn empty_cache(pinned: &[&str]) -> CachedSource<RecordBatch> {
    CachedSource::new(
        RecordBatch::new_empty(Arc::new(Schema::empty())),
        pinned.iter().map(|s| s.to_string()).collect(),
    )
}

fn cell(batch: &RecordBatch, col: usize, row: usize) -> String {
    batch.column(col).as_any().downcast_ref::<StringArray>().unwrap().value(row).to_string()
}

#[test]
fn last_row_through_a_refetch() {
    let mut data = String::from("a,b,c\n");
    for i in 0..25_000u64 {
        data.push_str(&format!("{i},x{i},{}\n", i * 3));
    }
    let data = data.into_bytes();
    let mut src = CsvFile::new(b',');
    let header: Vec<Field> = ["a", "b", "c"]
        .iter()
        .map(|n| Field { name: n.to_string(), data_type: LogicalType::Null, nullable: true })
        .collect();
    let mut header = Some(header);
    while src.row_count() < 25_000 {
        let from = src.scan_from() as usize;
        src.check_for_new_rows(data.len() as u64, header.take(), &data[from..]);
    }
    assert_eq!(src.row_count(), 25_000);
    let schema = text_schema(&["a", "b", "c"]);
    let mut fetches = 0;
    let mut cache = empty_cache(&[]);

    let (s, e) = src.fetch_range(0, CHUNK_SIZE);
    let batch = decode(&data[s as usize..e as usize], schema.clone(), CHUNK_SIZE);
    assert_eq!(batch.num_rows(), CHUNK_SIZE);
    let cols = describe(&batch);
    let n = batch.num_rows();
    cache.load(0, batch, n, &cols, &settings());

    let mut ask = |cache: &mut CachedSource<RecordBatch>| {
        if let Some(from) = cache.ensure_available(24_999..25_000) {
            fetches += 1;
            assert_eq!(from, 24_999 - CHUNK_SIZE / 2);
            let (s, e) = src.fetch_range(from, CHUNK_SIZE);
            let batch = decode(&data[s as usize..e as usize], schema.clone(), CHUNK_SIZE);
            let cols = describe(&batch);
            let n = batch.num_rows();
            cache.load(from, batch, n, &cols, &settings());
        }
    };
    ask(&mut cache);
    ask(&mut cache);
    assert_eq!(fetches, 1);

    let slice = cache.get_batch(24_999..25_000, 0..3);
    assert_eq!(slice.columns, vec![0, 1, 2]);
    assert_eq!(slice.len, 1);
    let out = cache.batch().project(&slice.columns).unwrap().slice(slice.offset, slice.len);
    assert_eq!(out.num_rows(), 1);
    let got = [cell(&out, 0, 0), cell(&out, 1, 0), cell(&out, 2, 0)];
    assert_eq!(got, ["24999".to_string(), "x24999".to_string(), "74997".to_string()]);

    assert_eq!(cache.ensure_available(24_990..25_000), None);
    let slice = cache.get_batch(24_990..25_000, 0..3);
    assert_eq!(slice.len, 10);
    let out = cache.batch().project(&slice.columns).unwrap().slice(slice.offset, slice.len);
    let text = String::from_utf8(data.clone()).unwrap();
    let lines: Vec<&str> = text.lines().skip(1 + 24_990).collect();
    for (r, line) in lines.iter().enumerate() {
        let fields: Vec<&str> = line.split(',').collect();
        for c in 0..3 {
            assert_eq!(cell(&out, c, r), fields[c]);
        }
    }
}

#[test]
fn window_hits_and_misses() {
    let mut cache = empty_cache(&[]);
    assert_eq!(cache.ensure_available(0..0), Some(0));
    let batch = RecordBatch::new_empty(Arc::new(Schema::empty()));
    cache.load(7_000, batch, CHUNK_SIZE, &Vec::new(), &settings());
    assert_eq!(cache.ensure_available(7_000..7_040), None);
    assert_eq!(cache.ensure_available(16_960..17_000), None);
    assert_eq!(cache.ensure_available(16_990..17_001), Some(16_990 - CHUNK_SIZE / 2));
    assert_eq!(cache.ensure_available(6_999..7_010), Some(1_999));
    assert_eq!(cache.ensure_available(100..120), Some(0));
    assert!(!cache.reaches_end());
    let slice = cache.get_batch(16_990..17_000, 0..0);
    assert_eq!(slice.offset, 9_990);
    assert_eq!(slice.len, 10);

    let batch = RecordBatch::new_empty(Arc::new(Schema::empty()));
    cache.load(20_000, batch, 30, &Vec::new(), &settings());
    assert!(cache.reaches_end());
    assert_eq!(cache.available_rows(), 20_000..20_030);
    let slice = cache.get_batch(20_020..20_060, 0..0);
    assert_eq!(slice.offset, 20);
    assert_eq!(slice.len, 10);
}

#[test]
fn pinned_columns_first_and_empty_ones_hidden() {
    let data = b"1,,x,\n2,,y,\n";
    let schema = text_schema(&["a", "b", "c", "d"]);
    let batch = decode(data, schema, 10);
    let cols = describe(&batch);
    assert!(cols[1].all_null && cols[3].all_null);
    let mut cache = empty_cache(&["c", "zz", "b"]);
    cache.load(0, batch, 2, &cols, &settings());
    let slice = cache.get_batch(0..2, 0..3);
    assert_eq!(slice.columns, vec![2, 1, 0]);
    assert_eq!(cache.col_stats().len(), 3);
    assert_eq!(cache.col_stats()[0].cardinality, Some(2));
}

#[test]
fn stats_accumulate_across_chunks() {
    let schema = text_schema(&["a"]);
    let mut cache = empty_cache(&[]);
    let b1 = decode(b"short\n", schema.clone(), 10);
    let c1 = describe(&b1);
    cache.load(0, b1, 1, &c1, &settings());
    let b2 = decode(b"a_much_longer_value\n", schema, 10);
    let c2 = describe(&b2);
    cache.load(5, b2, 1, &c2, &settings());
    assert_eq!(cache.col_stats()[0].ideal_width, 19);
    assert_eq!(cache.col_stats()[0].cardinality, Some(1));
}
