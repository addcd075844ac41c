use tass::schema::{merge_by_name, merge_fields, merge_positional, merge_types, Field, LogicalType, TimeUnit};
use tass::schema::LogicalType::{Boolean, Float64, Int64, Null, Other, Timestamp, Utf8};

fn f(name: &str, t: LogicalType, nullable: bool) -> Field {
    Field { name: name.to_string(), data_type: t, nullable }
}

fn same(a: &[Field], b: &[Field]) -> bool {
    a.len() == b.len()
        && a.iter().zip(b).all(|(x, y)| x.name == y.name && x.data_type == y.data_type && x.nullable == y.nullable)
}

#[test]
fn type_rule_table() {
    let ts = Timestamp(TimeUnit::Millisecond);
    assert_eq!(merge_types(Int64, ts), Utf8);
    assert_eq!(merge_types(Null, ts), Utf8);
    assert_eq!(merge_types(ts, ts), Utf8);
    assert_eq!(merge_types(Null, Int64), Int64);
    assert_eq!(merge_types(Float64, Null), Float64);
    assert_eq!(merge_types(ts, Null), ts);
    assert_eq!(merge_types(Boolean, Boolean), Boolean);
    assert_eq!(merge_types(Int64, Float64), Utf8);
    assert_eq!(merge_types(Other(3), Other(3)), Other(3));
    assert_eq!(merge_types(Other(3), Other(4)), Utf8);
}

#[test]
fn nullability_is_or_plus_unknown() {
    let m = merge_fields(&f("a", LogicalType::Int64, false), &f("z", LogicalType::Int64, false));
    assert!(!m.nullable);
    assert_eq!(m.name, "a");
    let m = merge_fields(&f("a", LogicalType::Int64, false), &f("z", LogicalType::Null, false));
    assert!(m.nullable);
    let m = merge_fields(&f("a", LogicalType::Int64, false), &f("z", LogicalType::Int64, true));
    assert!(m.nullable);
}

#[test]
fn positional_merge_is_associative() {
    let a = vec![f("x", Null, true), f("y", Int64, false), f("z", Boolean, false)];
    let b = vec![f("1", Int64, false), f("2", Null, false), f("3", Timestamp(TimeUnit::Second), false)];
    let c = vec![f("1", Float64, false), f("2", Int64, false), f("3", Null, true)];
    let l = merge_positional(&merge_positional(&a, &b), &c);
    let r = merge_positional(&a, &merge_positional(&b, &c));
    assert!(same(&l, &r));
    assert_eq!(l[0].data_type, Utf8);
    assert_eq!(l[1].data_type, Int64);
    assert!(l[1].nullable);
    assert_eq!(l[2].data_type, Utf8);
}

#[test]
fn positional_merge_is_idempotent_when_settled() {
    let a = vec![f("x", Null, true), f("y", Int64, false), f("z", Utf8, true)];
    assert!(same(&merge_positional(&a, &a), &a));
}

#[test]
fn positional_merge_keeps_unmatched_columns() {
    let a = vec![f("x", Int64, false), f("y", Int64, false)];
    let b = vec![f("1", Float64, false)];
    let m = merge_positional(&a, &b);
    assert_eq!(m.len(), 2);
    assert_eq!(m[0].data_type, Utf8);
    assert_eq!(m[1].name, "y");
    assert_eq!(m[1].data_type, Int64);
    assert!(!m[1].nullable);
    assert!(same(&merge_positional(&a, &Vec::new()), &a));
    let c = vec![f("1", Int64, false), f("2", Int64, false), f("3", Int64, false)];
    assert_eq!(merge_positional(&a, &c).len(), 2);
}

#[test]
fn by_name_merge_keeps_absent_and_appends_new() {
    let old = vec![f("a", Int64, false), f("b", Boolean, false)];
    let new = vec![f("c", Float64, false), f("a", Int64, true), f("d", Timestamp(TimeUnit::Second), false)];
    let m = merge_by_name(&old, &new);
    let names: Vec<&str> = m.iter().map(|x| x.name.as_str()).collect();
    assert_eq!(names, vec!["a", "b", "c", "d"]);
    assert_eq!(m[0].data_type, Int64);
    assert!(m[0].nullable);
    assert_eq!(m[1].data_type, Boolean);
    assert!(!m[1].nullable);
    assert_eq!(m[2].data_type, Float64);
    assert_eq!(m[3].data_type, Utf8);
}

#[test]
fn by_name_merge_is_associative_on_example() {
    let a = vec![f("a", Int64, false)];
    let b = vec![f("b", Timestamp(TimeUnit::Second), false), f("a", Null, false)];
    let c = vec![f("b", Null, false), f("c", Boolean, false), f("a", Int64, false)];
    let l = merge_by_name(&merge_by_name(&a, &b), &c);
    let r = merge_by_name(&a, &merge_by_name(&b, &c));
    assert!(same(&l, &r));
}
