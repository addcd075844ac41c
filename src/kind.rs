use crate::text::chars_of;
use vstd::prelude::*;

verus! {

/// Distinct values past which a column is no longer tracked value by value.
pub const MAX_TRACKED_VALUES: usize = 200;

/// Least number of non-empty values before a column's kind is guessed.
pub const MIN_SEEN: usize = 10;

#[derive(Copy, Clone, Debug, PartialEq, Eq, Structural)]
pub enum DataKind {
    Numerical,
    Categorical,
    Unstructured,
}

/// Whether `char::is_numeric` holds of `c`.
pub uninterp spec fn numeric_char(c: char) -> bool;

/// Relies on char::is_numeric: whether `c` is in a Unicode number category.
/// The answer depends on `c` alone.
#[verifier::external_body]
fn char_is_numeric(c: char) -> (r: bool)
    ensures
        r == numeric_char(c),
{
    c.is_numeric()
}

/// A value made only of digits, decimal points and minus signs.
pub open spec fn numeric_text(s: Seq<char>) -> bool {
    forall|i: int| 0 <= i < s.len() ==> numeric_char(s[i]) || s[i] == '.' || s[i] == '-'
}

pub struct CategoryView {
    pub total: nat,
    pub numerical: nat,
    pub empty: nat,
    /// The distinct non-empty values seen, while there are few enough.
    pub values: Option<Set<Seq<char>>>,
}

/// What feeding one value `x` does to the counts.
pub open spec fn fed(v: CategoryView, x: Seq<char>) -> CategoryView {
    CategoryView {
        total: v.total + 1,
        numerical: if x.len() > 0 && numeric_text(x) {
            v.numerical + 1
        } else {
            v.numerical
        },
        empty: if x.len() == 0 {
            v.empty + 1
        } else {
            v.empty
        },
        values: match v.values {
            None => None,
            Some(s) => {
                let t = if x.len() > 0 {
                    s.insert(x)
                } else {
                    s
                };
                if t.len() >= MAX_TRACKED_VALUES {
                    None
                } else {
                    Some(t)
                }
            },
        },
    }
}

/// The guess for a column with these counts.
pub open spec fn estimated(v: CategoryView) -> DataKind {
    let seen = v.total - v.empty;
    let unique = match v.values {
        Some(s) => s.len() as int,
        None => v.total as int,
    };
    if seen < MIN_SEEN {
        DataKind::Unstructured
    } else if seen < 10 * v.numerical {
        DataKind::Numerical
    } else if seen > 10 * unique {
        DataKind::Categorical
    } else {
        DataKind::Unstructured
    }
}

/// A heuristic for guessing whether a column contains categorical data.
pub struct CategoryDetector {
    /// The total number of values we've seen
    total: usize,
    /// The number of purely numerical values we've seen
    numerical: usize,
    /// The number of empty-string values we've seen
    empty: usize,
    vals: Option<Vec<String>>,
}

pub open spec fn strings_view(v: Seq<String>) -> Seq<Seq<char>> {
    v.map_values(|s: String| s@)
}

impl View for CategoryDetector {
    type V = CategoryView;

    closed spec fn view(&self) -> CategoryView {
        CategoryView {
            total: self.total as nat,
            numerical: self.numerical as nat,
            empty: self.empty as nat,
            values: match self.vals {
                Some(v) => Some(strings_view(v@).to_set()),
                None => None,
            },
        }
    }
}

impl CategoryDetector {
    pub closed spec fn well_formed(&self) -> bool {
        &&& self.numerical + self.empty <= self.total
        &&& match self.vals {
            Some(v) => strings_view(v@).no_duplicates() && v@.len() < MAX_TRACKED_VALUES && v@.len()
                <= self.total,
            None => true,
        }
    }

    pub fn new() -> (r: CategoryDetector)
        ensures
            r.well_formed(),
            r@ == (CategoryView { total: 0, numerical: 0, empty: 0, values: Some(Set::empty()) }),
    {
        let r = CategoryDetector { total: 0, numerical: 0, empty: 0, vals: Some(Vec::new()) };
        proof {
            let v: Seq<String> = Seq::empty();
            assert(strings_view(v) =~= Seq::empty());
            assert(strings_view(v).to_set() =~= Set::empty());
        }
        r
    }

    fn is_numeric_text(x: &String) -> (r: bool)
        ensures
            r == numeric_text(x@),
    {
        let cs = chars_of(x.as_str());
        let mut i: usize = 0;
        while i < cs.len()
            invariant
                cs@ == x@,
                i <= cs@.len(),
                forall|k: int| 0 <= k < i ==> numeric_char(cs@[k]) || cs@[k] == '.' || cs@[k] == '-',
            decreases cs@.len() - i,
        {
            let c = cs[i];
            if !char_is_numeric(c) && c != '.' && c != '-' {
                return false;
            }
            i = i + 1;
        }
        true
    }

    /// Counts one more value of the column.
    pub fn feed(&mut self, x: String)
        requires
            old(self).well_formed(),
            old(self)@.total < usize::MAX,
        ensures
            final(self).well_formed(),
            final(self)@ == fed(old(self)@, x@),
    {
        let ghost x_view = x@;
        let is_empty = x.as_str().is_empty();
        self.total = self.total + 1;
        if is_empty {
            self.empty = self.empty + 1;
        } else if Self::is_numeric_text(&x) {
            self.numerical = self.numerical + 1;
        }
        let mut drop_vals = false;
        match &mut self.vals {
            Some(vals) => {
                let ghost before = strings_view(vals@);
                if !is_empty {
                    let mut found = false;
                    let mut i: usize = 0;
                    while i < vals.len()
                        invariant
                            before == strings_view(vals@),
                            x_view == x@,
                            i <= vals@.len(),
                            found == exists|k: int| 0 <= k < i && before[k] == x_view,
                        decreases vals@.len() - i,
                    {
                        assert(before[i as int] == vals@[i as int]@);
                        let vi: &String = &vals[i];
                        let same = vi.eq(&x);
                        assert(vi@ == vals@[i as int]@);
                        if same {
                            found = true;
                        }
                        i = i + 1;
                    }
                    if !found {
                        vals.push(x);
                        proof {
                            assert(strings_view(vals@) =~= before.push(x_view));
                            before.lemma_push_to_set_commute(x_view);
                        }
                    } else {
                        proof {
                            let k = choose|k: int| 0 <= k < i && before[k] == x_view;
                            assert(before.to_set().contains(x_view));
                            assert(before.to_set().insert(x_view) =~= before.to_set());
                        }
                    }
                }
                proof {
                    strings_view(vals@).unique_seq_to_set();
                }
                if vals.len() >= MAX_TRACKED_VALUES {
                    drop_vals = true;
                }
            },
            None => {},
        }
        if drop_vals {
            self.vals = None;
        }
    }

    /// The number of distinct values, or of all values once there are too many
    /// to track.
    pub fn unique(&self) -> (r: usize)
        requires
            self.well_formed(),
        ensures
            r == match self@.values {
                Some(s) => s.len(),
                None => self@.total,
            },
    {
        match &self.vals {
            Some(v) => {
                proof {
                    strings_view(v@).unique_seq_to_set();
                }
                v.len()
            },
            None => self.total,
        }
    }

    /// Guesses the kind of the column from what has been fed so far.
    pub fn estimate(&self) -> (r: DataKind)
        requires
            self.well_formed(),
        ensures
            r == estimated(self@),
    {
        let seen = self.total - self.empty;
        if seen < MIN_SEEN {
            DataKind::Unstructured
        } else if (seen as u128) < 10 * (self.numerical as u128) {
            DataKind::Numerical
        } else if (seen as u128) > 10 * (self.unique() as u128) {
            DataKind::Categorical
        } else {
            DataKind::Unstructured
        }
    }
}

impl Default for CategoryDetector {
    fn default() -> (r: CategoryDetector)
        ensures
            r.well_formed(),
            r@ == (CategoryView { total: 0, numerical: 0, empty: 0, values: Some(Set::empty()) }),
    {
        CategoryDetector::new()
    }
}

} // verus!
