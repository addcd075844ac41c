use crate::schema::TimeUnit;
use crate::text::chars_of;
use vstd::prelude::*;

verus! {

/// Distinct values above this count make a column's cardinality unknown.
pub const CARDINALITY_LIMIT: usize = 255;

/// Width given to the kinds of column whose values are not measured.
pub const UNMEASURED_WIDTH: u16 = 15;

/// Settings of the renderer that the statistics depend on.
pub struct RenderSettings {
    /// Decimal places shown for floating-point values.
    pub float_dps: usize,
    /// Whether columns that hold only nulls in the loaded chunk are hidden.
    pub hide_empty: bool,
}

#[derive(Clone, Copy, PartialEq, Eq, Structural, Debug)]
pub struct MinMax {
    pub min: i128,
    pub max: i128,
}

/// Summary of one column, mergeable across chunks.
#[derive(Clone, Copy, PartialEq, Eq, Structural, Debug)]
pub struct ColumnStats {
    /// Range of the values of an integral column.
    pub min_max: Option<MinMax>,
    /// The length (in chars) of the longest value when formatted, header included.
    pub ideal_width: u16,
    /// Number of distinct values; `None` once there are more than `CARDINALITY_LIMIT`.
    pub cardinality: Option<u8>,
}

/// How a floating-point value is laid out before its decimal point: the
/// integral part of its base-10 logarithm (0 for magnitudes below 10, and for
/// zero) and its sign.
#[derive(Clone, Copy, PartialEq, Eq, Structural, Debug)]
pub struct FloatShape {
    pub magnitude: u16,
    pub negative: bool,
}

/// What the statistics read from one decoded column.
#[derive(Clone, Copy, PartialEq, Eq, Structural, Debug)]
pub enum ColumnSummary {
    Null,
    Boolean,
    /// Smallest and largest value, absent when every value is null.
    Integral { min: Option<i128>, max: Option<i128> },
    /// Layout of the smallest and largest value, absent when every value is null.
    Floating { smallest: Option<FloatShape>, largest: Option<FloatShape> },
    /// Longest value in bytes, and number of distinct non-null values.
    Text { max_len: u64, distinct: usize },
    Binary { max_len: u64, distinct: usize },
    Date,
    Time(TimeUnit),
    /// Unit, and length of the time zone's name (0 without a time zone).
    Timestamp(TimeUnit, u64),
    /// Decimals, durations, intervals, dictionaries and nested values.
    Unmeasured,
}

pub open spec fn min_i(a: int, b: int) -> int {
    if a <= b {
        a
    } else {
        b
    }
}

pub open spec fn max_i(a: int, b: int) -> int {
    if a >= b {
        a
    } else {
        b
    }
}

pub open spec fn merged_range(a: Option<MinMax>, b: Option<MinMax>) -> Option<MinMax> {
    match (a, b) {
        (Some(x), Some(y)) => Some(
            MinMax { min: min_i(x.min as int, y.min as int) as i128, max: max_i(x.max as int, y.max as int) as i128 },
        ),
        (Some(x), None) => Some(x),
        (None, y) => y,
    }
}

pub open spec fn merged_cardinality(a: Option<u8>, b: Option<u8>) -> Option<u8> {
    match (a, b) {
        (Some(x), Some(y)) => Some(max_i(x as int, y as int) as u8),
        (Some(x), None) => Some(x),
        (None, y) => y,
    }
}

/// Stats of two chunks of one column taken together.
pub open spec fn merged_stats(a: ColumnStats, b: ColumnStats) -> ColumnStats {
    ColumnStats {
        min_max: merged_range(a.min_max, b.min_max),
        ideal_width: max_i(a.ideal_width as int, b.ideal_width as int) as u16,
        cardinality: merged_cardinality(a.cardinality, b.cardinality),
    }
}

/// Number of decimal digits of `n`; zero has one.
pub open spec fn digits(n: nat) -> nat
    decreases n,
{
    if n < 10 {
        1
    } else {
        1 + digits(n / 10)
    }
}

pub open spec fn abs(x: int) -> nat {
    if x < 0 {
        (-x) as nat
    } else {
        x as nat
    }
}

/// Printed length of an integer: its digits and a sign.
pub open spec fn int_width(x: int) -> int {
    digits(abs(x)) + if x < 0 {
        1int
    } else {
        0int
    }
}

/// Printed length of a float with `dps` decimal places.
pub open spec fn float_width(s: FloatShape, dps: int) -> int {
    2 + dps + s.magnitude + if s.negative {
        1int
    } else {
        0int
    }
}

pub open spec fn clamp16(x: int) -> u16 {
    if x > u16::MAX {
        u16::MAX
    } else {
        x as u16
    }
}

pub open spec fn time_width(u: TimeUnit) -> int {
    match u {
        TimeUnit::Second => 8,
        TimeUnit::Millisecond => 12,
        TimeUnit::Microsecond => 15,
        TimeUnit::Nanosecond => 18,
    }
}

pub open spec fn fraction_width(u: TimeUnit) -> int {
    match u {
        TimeUnit::Second => 0,
        TimeUnit::Millisecond => 4,
        TimeUnit::Microsecond => 7,
        TimeUnit::Nanosecond => 10,
    }
}

pub open spec fn int_opt_width(o: Option<i128>) -> int {
    match o {
        Some(x) => int_width(x as int),
        None => 0,
    }
}

pub open spec fn float_opt_width(o: Option<FloatShape>, dps: int) -> int {
    match o {
        Some(s) => float_width(s, dps),
        None => 0,
    }
}

/// Width of a column's values, before the header is taken into account.
pub open spec fn values_width(col: ColumnSummary, dps: int) -> int {
    match col {
        ColumnSummary::Null => 0,
        ColumnSummary::Boolean => 5,
        ColumnSummary::Integral { min, max } => max_i(int_opt_width(min), int_opt_width(max)),
        ColumnSummary::Floating { smallest, largest } => max_i(
            float_opt_width(smallest, dps),
            float_opt_width(largest, dps),
        ),
        ColumnSummary::Text { max_len, distinct } => max_len as int,
        ColumnSummary::Binary { max_len, distinct } => max_len as int,
        ColumnSummary::Date => 10,
        ColumnSummary::Time(u) => time_width(u),
        ColumnSummary::Timestamp(u, tz) => 20 + fraction_width(u) + tz,
        ColumnSummary::Unmeasured => 15,
    }
}

pub open spec fn values_range(col: ColumnSummary) -> Option<MinMax> {
    match col {
        ColumnSummary::Integral { min: Some(lo), max: Some(hi) } => Some(MinMax { min: lo, max: hi }),
        _ => None,
    }
}

pub open spec fn distinct_count(col: ColumnSummary) -> Option<u8> {
    match col {
        ColumnSummary::Text { max_len, distinct } => if distinct <= CARDINALITY_LIMIT {
            Some(distinct as u8)
        } else {
            None
        },
        ColumnSummary::Binary { max_len, distinct } => if distinct <= CARDINALITY_LIMIT {
            Some(distinct as u8)
        } else {
            None
        },
        _ => None,
    }
}

/// Stats of a freshly decoded column called by a name of `name_len` characters.
pub open spec fn new_stats(name_len: int, col: ColumnSummary, dps: int) -> ColumnStats {
    ColumnStats {
        min_max: values_range(col),
        ideal_width: clamp16(max_i(max_i(values_width(col, dps), name_len), 3)),
        cardinality: distinct_count(col),
    }
}

proof fn lemma_digits_bound(n: nat)
    ensures
        1 <= digits(n) <= n + 1,
    decreases n,
{
    if n >= 10 {
        lemma_digits_bound(n / 10);
    }
}

fn int_len(x: i128) -> (r: u128)
    ensures
        r == int_width(x as int),
{
    let mut n: u128 = if x < 0 {
        (-(x + 1)) as u128 + 1
    } else {
        x as u128
    };
    let ghost a = abs(x as int);
    proof {
        lemma_digits_bound(a);
    }
    let mut d: u128 = 1;
    while n >= 10
        invariant
            d >= 1,
            d + digits(n as nat) == digits(a) + 1,
            digits(a) <= a + 1,
            a <= 0x8000_0000_0000_0000_0000_0000_0000_0000,
        decreases n,
    {
        proof {
            lemma_digits_bound((n / 10) as nat);
        }
        n = n / 10;
        d = d + 1;
    }
    if x < 0 {
        d + 1
    } else {
        d
    }
}

fn float_len(s: FloatShape, dps: usize) -> (r: u128)
    ensures
        r == float_width(s, dps as int),
{
    let sign: u128 = if s.negative {
        1
    } else {
        0
    };
    2 + dps as u128 + s.magnitude as u128 + sign
}

fn larger(a: u128, b: u128) -> (r: u128)
    ensures
        r == max_i(a as int, b as int),
{
    if a >= b {
        a
    } else {
        b
    }
}

fn time_len(u: TimeUnit) -> (r: u128)
    ensures
        r == time_width(u),
{
    match u {
        TimeUnit::Second => 8,
        TimeUnit::Millisecond => 8 + 1 + 3,
        TimeUnit::Microsecond => 8 + 1 + 6,
        TimeUnit::Nanosecond => 8 + 1 + 9,
    }
}

fn fraction_len(u: TimeUnit) -> (r: u128)
    ensures
        r == fraction_width(u),
{
    match u {
        TimeUnit::Second => 0,
        TimeUnit::Millisecond => 3 + 1,
        TimeUnit::Microsecond => 6 + 1,
        TimeUnit::Nanosecond => 9 + 1,
    }
}

fn capped_count(distinct: usize) -> (r: Option<u8>)
    ensures
        r == (if distinct <= CARDINALITY_LIMIT {
            Some(distinct as u8)
        } else {
            None::<u8>
        }),
{
    if distinct <= CARDINALITY_LIMIT {
        Some(distinct as u8)
    } else {
        None
    }
}

fn values_len(col: &ColumnSummary, dps: usize) -> (r: u128)
    ensures
        r == values_width(*col, dps as int),
{
    match *col {
        ColumnSummary::Null => 0,
        ColumnSummary::Boolean => 5,
        ColumnSummary::Integral { min, max } => {
            let a = match min {
                Some(x) => int_len(x),
                None => 0,
            };
            let b = match max {
                Some(x) => int_len(x),
                None => 0,
            };
            larger(a, b)
        },
        ColumnSummary::Floating { smallest, largest } => {
            let a = match smallest {
                Some(x) => float_len(x, dps),
                None => 0,
            };
            let b = match largest {
                Some(x) => float_len(x, dps),
                None => 0,
            };
            larger(a, b)
        },
        ColumnSummary::Text { max_len, distinct } => max_len as u128,
        ColumnSummary::Binary { max_len, distinct } => max_len as u128,
        ColumnSummary::Date => 10,
        ColumnSummary::Time(u) => time_len(u),
        ColumnSummary::Timestamp(u, tz) => 20 + fraction_len(u) + tz as u128,
        ColumnSummary::Unmeasured => UNMEASURED_WIDTH as u128,
    }
}

impl ColumnStats {
    /// Stats of one freshly decoded column named `name`.
    pub fn new(name: &str, col: &ColumnSummary, settings: &RenderSettings) -> (r: ColumnStats)
        ensures
            r == new_stats(name@.len() as int, *col, settings.float_dps as int),
    {
        let w = larger(larger(values_len(col, settings.float_dps), chars_of(name).len() as u128), 3);
        let ideal_width: u16 = if w > u16::MAX as u128 {
            u16::MAX
        } else {
            w as u16
        };
        let min_max = match *col {
            ColumnSummary::Integral { min: Some(lo), max: Some(hi) } => Some(MinMax { min: lo, max: hi }),
            _ => None,
        };
        let cardinality = match *col {
            ColumnSummary::Text { max_len, distinct } => capped_count(distinct),
            ColumnSummary::Binary { max_len, distinct } => capped_count(distinct),
            _ => None,
        };
        ColumnStats { min_max, ideal_width, cardinality }
    }

    /// Folds the stats of another chunk of the same column into these.
    pub fn merge(&mut self, other: ColumnStats)
        ensures
            *final(self) == merged_stats(*old(self), other),
    {
        let min_max = match (self.min_max, other.min_max) {
            (Some(x), Some(y)) => Some(
                MinMax {
                    min: if x.min <= y.min {
                        x.min
                    } else {
                        y.min
                    },
                    max: if x.max >= y.max {
                        x.max
                    } else {
                        y.max
                    },
                },
            ),
            (Some(x), None) => Some(x),
            (None, y) => y,
        };
        let cardinality = match (self.cardinality, other.cardinality) {
            (Some(x), Some(y)) => Some(
                if x >= y {
                    x
                } else {
                    y
                },
            ),
            (Some(x), None) => Some(x),
            (None, y) => y,
        };
        let ideal_width = if self.ideal_width >= other.ideal_width {
            self.ideal_width
        } else {
            other.ideal_width
        };
        *self = ColumnStats { min_max, ideal_width, cardinality };
    }
}

/// The order in which chunks of a column are merged does not matter.
pub proof fn lemma_merge_commutative(a: ColumnStats, b: ColumnStats)
    ensures
        merged_stats(a, b) == merged_stats(b, a),
{
}

/// Merging stats with themselves changes nothing.
pub proof fn lemma_merge_idempotent(a: ColumnStats)
    ensures
        merged_stats(a, a) == a,
{
}

/// Merging is associative, so repeated chunk merges converge whatever the grouping.
pub proof fn lemma_merge_associative(a: ColumnStats, b: ColumnStats, c: ColumnStats)
    ensures
        merged_stats(merged_stats(a, b), c) == merged_stats(a, merged_stats(b, c)),
{
}

} // verus!
