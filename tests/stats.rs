use tass::schema::TimeUnit;
use tass::stats::{ColumnStats, ColumnSummary, FloatShape, MinMax, RenderSettings};

fn settings() -> RenderSettings {
    RenderSettings { float_dps: 5, hide_empty: false }
}

fn stats(name: &str, col: ColumnSummary) -> ColumnStats {
    ColumnStats::new(name, &col, &settings())
}

#[test]
fn integral_width_counts_digits_and_sign() {
    let s = stats("n", ColumnSummary::Integral { min: Some(-12345), max: Some(99) });
    assert_eq!(s.ideal_width, 6);
    assert_eq!(s.min_max, Some(MinMax { min: -12345, max: 99 }));
    assert_eq!(s.cardinality, None);
    let s = stats("n", ColumnSummary::Integral { min: Some(0), max: Some(0) });
    assert_eq!(s.ideal_width, 3);
    let s = stats("n", ColumnSummary::Integral { min: Some(i128::MIN), max: Some(i128::MAX) });
    assert_eq!(s.ideal_width, 40);
    let s = stats("n", ColumnSummary::Integral { min: None, max: None });
    assert_eq!(s.ideal_width, 3);
    assert_eq!(s.min_max, None);
}

#[test]
fn floating_width_adds_decimal_places() {
    let s = stats(
        "f",
        ColumnSummary::Floating {
            smallest: Some(FloatShape { magnitude: 2, negative: true }),
            largest: Some(FloatShape { magnitude: 0, negative: false }),
        },
    );
    assert_eq!(s.ideal_width, 2 + 5 + 2 + 1);
    assert_eq!(s.min_max, None);
}

#[test]
fn header_and_floor_bound_width() {
    let s = stats("a_long_header", ColumnSummary::Boolean);
    assert_eq!(s.ideal_width, 13);
    let s = stats("ab", ColumnSummary::Null);
    assert_eq!(s.ideal_width, 3);
    let s = stats("é", ColumnSummary::Null);
    assert_eq!(s.ideal_width, 3);
}

#[test]
fn fixed_widths() {
    assert_eq!(stats("", ColumnSummary::Date).ideal_width, 10);
    assert_eq!(stats("", ColumnSummary::Time(TimeUnit::Second)).ideal_width, 8);
    assert_eq!(stats("", ColumnSummary::Time(TimeUnit::Nanosecond)).ideal_width, 18);
    assert_eq!(stats("", ColumnSummary::Timestamp(TimeUnit::Millisecond, 0)).ideal_width, 24);
    assert_eq!(stats("", ColumnSummary::Timestamp(TimeUnit::Second, 13)).ideal_width, 33);
    assert_eq!(stats("", ColumnSummary::Unmeasured).ideal_width, 15);
}

#[test]
fn text_cardinality_is_capped() {
    let s = stats("t", ColumnSummary::Text { max_len: 7, distinct: 255 });
    assert_eq!(s.cardinality, Some(255));
    assert_eq!(s.ideal_width, 7);
    let s = stats("t", ColumnSummary::Text { max_len: 7, distinct: 256 });
    assert_eq!(s.cardinality, None);
    let s = stats("t", ColumnSummary::Binary { max_len: 100_000, distinct: 3 });
    assert_eq!(s.ideal_width, u16::MAX);
    assert_eq!(s.cardinality, Some(3));
}

#[test]
fn merge_widens_range_and_width() {
    let mut a = ColumnStats { min_max: Some(MinMax { min: 1, max: 5 }), ideal_width: 4, cardinality: Some(3) };
    let b = ColumnStats { min_max: Some(MinMax { min: -2, max: 3 }), ideal_width: 9, cardinality: Some(7) };
    a.merge(b);
    assert_eq!(a, ColumnStats { min_max: Some(MinMax { min: -2, max: 5 }), ideal_width: 9, cardinality: Some(7) });
}

#[test]
fn merge_prefers_the_concrete_side() {
    let mut a = ColumnStats { min_max: None, ideal_width: 4, cardinality: None };
    let b = ColumnStats { min_max: Some(MinMax { min: 0, max: 1 }), ideal_width: 2, cardinality: Some(7) };
    a.merge(b);
    assert_eq!(a, ColumnStats { min_max: Some(MinMax { min: 0, max: 1 }), ideal_width: 4, cardinality: Some(7) });
    let mut c = ColumnStats { min_max: None, ideal_width: 1, cardinality: None };
    c.merge(ColumnStats { min_max: None, ideal_width: 1, cardinality: None });
    assert_eq!(c.cardinality, None);
}

#[test]
fn merge_commutes_and_is_idempotent() {
    let a = ColumnStats { min_max: Some(MinMax { min: 1, max: 5 }), ideal_width: 4, cardinality: None };
    let b = ColumnStats { min_max: None, ideal_width: 9, cardinality: Some(7) };
    let mut ab = a;
    ab.merge(b);
    let mut ba = b;
    ba.merge(a);
    assert_eq!(ab, ba);
    let mut aa = a;
    aa.merge(a);
    assert_eq!(aa, a);
}
