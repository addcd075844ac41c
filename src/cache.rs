use crate::stats::{merged_stats, new_stats, ColumnStats, ColumnSummary, RenderSettings};
use vstd::prelude::*;

verus! {

/// Rows fetched on each cache miss.
pub const CHUNK_SIZE: usize = 10_000;

/// One column of a freshly fetched chunk, as the cache needs it.
pub struct LoadedColumn {
    pub name: String,
    pub summary: ColumnSummary,
    /// Every value of the column in this chunk is null.
    pub all_null: bool,
}

/// Which part of the resident chunk to hand out: its columns at these
/// indices, and `len` rows from row `offset` of the chunk.
pub struct BatchSlice {
    pub columns: Vec<usize>,
    pub offset: usize,
    pub len: usize,
}

/// Whether the window `[ws, we)` already holds rows `[s, e)`: it contains the
/// first row asked for and reaches the last.
pub open spec fn covers(ws: int, we: int, s: int, e: int) -> bool {
    ws <= s && s < we && e <= we
}

/// Where a fetch for rows starting at `s` begins: half a chunk earlier, so that
/// scrolling back rarely misses at once.
pub open spec fn refetch_start(s: int) -> int {
    if s >= CHUNK_SIZE / 2 {
        s - CHUNK_SIZE / 2
    } else {
        0
    }
}

/// Rows that a slice of rows `[s, e)` holds, from a window ending at `we`.
pub open spec fn slice_len(s: int, e: int, we: int) -> int {
    (if e <= we {
        e
    } else {
        we
    }) - s
}

pub open spec fn first_with_name(names: Seq<Seq<char>>, t: Seq<char>) -> int {
    choose|j: int|
        0 <= j < names.len() && names[j] == t && forall|k: int| 0 <= k < j ==> names[k] != t
}

pub open spec fn has(names: Seq<Seq<char>>, t: Seq<char>) -> bool {
    exists|j: int| 0 <= j < names.len() && names[j] == t
}

/// The columns asked for first, in the order asked, where the chunk has them.
pub open spec fn pinned(targets: Seq<Seq<char>>, names: Seq<Seq<char>>) -> Seq<usize> {
    targets.filter_map(
        |t: Seq<char>|
            if has(names, t) {
                Some(first_with_name(names, t) as usize)
            } else {
                None
            },
    )
}

/// The columns before `n` that are neither pinned nor hidden, in order.
pub open spec fn rest_upto(pins: Seq<usize>, hidden: Seq<bool>, n: int) -> Seq<usize> {
    Seq::new(n as nat, |i: int| i as usize).filter(|i: usize| !pins.contains(i) && !hidden[i as int])
}

/// The other columns of the chunk, in their order, less the hidden ones.
pub open spec fn unpinned(pins: Seq<usize>, hidden: Seq<bool>) -> Seq<usize> {
    rest_upto(pins, hidden, hidden.len() as int)
}

proof fn lemma_rest_step(pins: Seq<usize>, hidden: Seq<bool>, n: int)
    requires
        0 <= n < usize::MAX,
    ensures
        rest_upto(pins, hidden, n + 1) == if !pins.contains(n as usize) && !hidden[n] {
            rest_upto(pins, hidden, n).push(n as usize)
        } else {
            rest_upto(pins, hidden, n)
        },
{
    reveal(Seq::filter);
    let p = |i: usize| !pins.contains(i) && !hidden[i as int];
    let s0 = Seq::new(n as nat, |i: int| i as usize);
    let s1 = Seq::new((n + 1) as nat, |i: int| i as usize);
    assert(s1.drop_last() =~= s0);
    assert(s1.last() == n as usize);
    assert(rest_upto(pins, hidden, n + 1) == s1.filter(p));
    assert(rest_upto(pins, hidden, n) == s0.filter(p));
    assert(s1.filter(p) == if p(s1.last()) {
        s1.drop_last().filter(p).push(s1.last())
    } else {
        s1.drop_last().filter(p)
    });
}

/// The columns shown, in the order shown.
pub open spec fn arranged(targets: Seq<Seq<char>>, names: Seq<Seq<char>>, hidden: Seq<bool>) -> Seq<usize> {
    pinned(targets, names) + unpinned(pinned(targets, names), hidden)
}

pub open spec fn column_names(cols: Seq<LoadedColumn>) -> Seq<Seq<char>> {
    cols.map_values(|c: LoadedColumn| c.name@)
}

pub open spec fn column_hidden(cols: Seq<LoadedColumn>, hide_empty: bool) -> Seq<bool> {
    cols.map_values(|c: LoadedColumn| hide_empty && c.all_null)
}

/// The per-column stats after a chunk with these columns was loaded: each
/// column's fresh stats merged into what was known of it, or taken as they
/// are for a column seen for the first time.
pub open spec fn folded_stats(old: Seq<ColumnStats>, cols: Seq<LoadedColumn>, dps: int) -> Seq<ColumnStats> {
    Seq::new(
        if cols.len() > old.len() {
            cols.len()
        } else {
            old.len()
        },
        |i: int|
            if i < cols.len() {
                let fresh = new_stats(cols[i].name@.len() as int, cols[i].summary, dps);
                if i < old.len() {
                    merged_stats(old[i], fresh)
                } else {
                    fresh
                }
            } else {
                old[i]
            },
    )
}

pub struct CacheView {
    pub rearranged: Seq<Seq<char>>,
    /// Stats of every column ever loaded, by its position in the chunks.
    pub all_stats: Seq<ColumnStats>,
    pub window_start: int,
    pub window_end: int,
    /// Positions, in the resident chunk, of the columns shown.
    pub columns: Seq<usize>,
    /// Stats of the columns shown, in the order shown.
    pub stats: Seq<ColumnStats>,
    /// The last fetch gave fewer rows than asked: the window reaches the end
    /// of the source as it stood then.
    pub reaches_end: bool,
}

/// Keeps one chunk of rows of a source resident and serves sub-ranges of it.
pub struct CachedSource<B> {
    rearranged_columns: Vec<String>,
    all_col_stats: Vec<ColumnStats>,
    big_df: B,
    available_cols: Vec<usize>,
    available_rows: std::ops::Range<usize>,
    col_stats: Vec<ColumnStats>,
    reaches_end: bool,
}

impl<B> View for CachedSource<B> {
    type V = CacheView;

    closed spec fn view(&self) -> CacheView {
        CacheView {
            rearranged: self.rearranged_columns@.map_values(|s: String| s@),
            all_stats: self.all_col_stats@,
            window_start: self.available_rows.start as int,
            window_end: self.available_rows.end as int,
            columns: self.available_cols@,
            stats: self.col_stats@,
            reaches_end: self.reaches_end,
        }
    }
}

impl<B> CachedSource<B> {
    pub closed spec fn well_formed(&self) -> bool {
        &&& self.available_rows.start <= self.available_rows.end
        &&& self.col_stats@.len() == self.available_cols@.len()
    }

    pub closed spec fn resident(&self) -> B {
        self.big_df
    }

    /// A cache holding `empty`, a chunk with no rows, that shows the columns
    /// named in `rearranged_columns` first.
    pub fn new(empty: B, rearranged_columns: Vec<String>) -> (r: Self)
        ensures
            r.well_formed(),
            r@.rearranged == rearranged_columns@.map_values(|s: String| s@),
            r@.all_stats.len() == 0,
            r@.window_start == 0,
            r@.window_end == 0,
            r@.columns.len() == 0,
            r@.stats.len() == 0,
            !r@.reaches_end,
            r.resident() == empty,
    {
        CachedSource {
            rearranged_columns,
            all_col_stats: Vec::new(),
            big_df: empty,
            available_cols: Vec::new(),
            available_rows: 0..0,
            col_stats: Vec::new(),
            reaches_end: false,
        }
    }

    /// Whether rows `[rows.start, rows.end)` are resident. If not, the row from
    /// which `CHUNK_SIZE` rows are to be fetched and handed to `load`.
    pub fn ensure_available(&self, rows: std::ops::Range<usize>) -> (r: Option<usize>)
        ensures
            covers(self@.window_start, self@.window_end, rows.start as int, rows.end as int) ==> r is None,
            !covers(self@.window_start, self@.window_end, rows.start as int, rows.end as int) ==> r
                == Some(refetch_start(rows.start as int) as usize),
    {
        let a = &self.available_rows;
        if a.start <= rows.start && rows.start < a.end && rows.end <= a.end {
            None
        } else {
            Some(rows.start.saturating_sub(CHUNK_SIZE / 2))
        }
    }

    /// The part of the resident chunk that holds rows `[rows.start, rows.end)`
    /// and the shown columns at positions `[cols.start, cols.end)`. The rows
    /// must lie in the window, except that they may run past its end where the
    /// window reaches the end of the source; those rows are left out.
    pub fn get_batch(&self, rows: std::ops::Range<usize>, cols: std::ops::Range<usize>) -> (r: BatchSlice)
        requires
            self.well_formed(),
            self@.window_start <= rows.start <= self@.window_end,
            rows.start <= rows.end,
            rows.end <= self@.window_end || self@.reaches_end,
            cols.start <= cols.end <= self@.columns.len(),
        ensures
            r.columns@ == self@.columns.subrange(cols.start as int, cols.end as int),
            r.offset == rows.start - self@.window_start,
            r.len == slice_len(rows.start as int, rows.end as int, self@.window_end),
    {
        let mut columns: Vec<usize> = Vec::new();
        let mut c = cols.start;
        while c < cols.end
            invariant
                cols.start <= c <= cols.end,
                cols.end <= self.available_cols@.len(),
                columns@ == self.available_cols@.subrange(cols.start as int, c as int),
            decreases cols.end - c,
        {
            columns.push(self.available_cols[c]);
            assert(columns@ =~= self.available_cols@.subrange(cols.start as int, c + 1));
            c = c + 1;
        }
        let end = if rows.end <= self.available_rows.end {
            rows.end
        } else {
            self.available_rows.end
        };
        BatchSlice { columns, offset: rows.start - self.available_rows.start, len: end - rows.start }
    }

    /// The rows of the source that the resident chunk holds.
    pub fn available_rows(&self) -> (r: std::ops::Range<usize>)
        ensures
            r.start == self@.window_start,
            r.end == self@.window_end,
    {
        self.available_rows.start..self.available_rows.end
    }

    /// Whether the window reaches the end of the source as it stood at the last fetch.
    pub fn reaches_end(&self) -> (r: bool)
        ensures
            r == self@.reaches_end,
    {
        self.reaches_end
    }

    /// The stats of the columns shown, in the order shown.
    pub fn col_stats(&self) -> (r: &Vec<ColumnStats>)
        ensures
            r@ == self@.stats,
    {
        &self.col_stats
    }

    /// The resident chunk.
    pub fn batch(&self) -> (r: &B)
        ensures
            *r == self.resident(),
    {
        &self.big_df
    }

    /// Makes `batch`, the `num_rows` rows fetched from row `from` on (in answer
    /// to a request for `CHUNK_SIZE` rows), the resident chunk. `columns` describes its columns in order. Their stats are
    /// merged into those of every chunk seen before, and the columns shown are
    /// recomputed: those asked for first, then the rest in order, less those
    /// hidden as empty in this chunk.
    pub fn load(
        &mut self,
        from: usize,
        batch: B,
        num_rows: usize,
        columns: &Vec<LoadedColumn>,
        settings: &RenderSettings,
    )
        requires
            old(self).well_formed(),
            from + num_rows <= usize::MAX,
        ensures
            final(self).well_formed(),
            final(self).resident() == batch,
            final(self)@.rearranged == old(self)@.rearranged,
            final(self)@.window_start == from,
            final(self)@.window_end == from + num_rows,
            final(self)@.reaches_end == (num_rows < CHUNK_SIZE),
            final(self)@.all_stats == folded_stats(old(self)@.all_stats, columns@, settings.float_dps as int),
            final(self)@.columns == arranged(
                old(self)@.rearranged,
                column_names(columns@),
                column_hidden(columns@, settings.hide_empty),
            ),
            final(self)@.stats.len() == final(self)@.columns.len(),
            forall|k: int|
                0 <= k < final(self)@.stats.len() ==> final(self)@.stats[k]
                    == final(self)@.all_stats[final(self)@.columns[k] as int],
    {
        self.big_df = batch;
        self.reaches_end = num_rows < CHUNK_SIZE;
        self.available_rows = from..from + num_rows;
        let ghost old_stats = self.all_col_stats@;
        let ghost dps = settings.float_dps as int;
        let mut idx: usize = 0;
        while idx < columns.len()
            invariant
                idx <= columns@.len(),
                dps == settings.float_dps as int,
                self.big_df == batch,
                self.available_rows.start == from,
                self.available_rows.end == from + num_rows,
                self.reaches_end == (num_rows < CHUNK_SIZE),
                self.rearranged_columns == old(self).rearranged_columns,
                self.all_col_stats@.len() == if idx > old_stats.len() {
                    idx as int
                } else {
                    old_stats.len() as int
                },
                forall|i: int|
                    0 <= i < self.all_col_stats@.len() ==> #[trigger] self.all_col_stats@[i] == if i
                        < idx {
                        folded_stats(old_stats, columns@, dps)[i]
                    } else {
                        old_stats[i]
                    },
            decreases columns@.len() - idx,
        {
            let col = &columns[idx];
            let fresh = ColumnStats::new(col.name.as_str(), &col.summary, settings);
            assert(fresh == new_stats(columns@[idx as int].name@.len() as int, columns@[idx as int].summary, dps));
            if idx < self.all_col_stats.len() {
                let mut s = self.all_col_stats[idx];
                s.merge(fresh);
                self.all_col_stats.set(idx, s);
            } else {
                self.all_col_stats.push(fresh);
            }
            idx = idx + 1;
        }
        assert(self.all_col_stats@ =~= folded_stats(old_stats, columns@, dps));
        self.arrange(columns, settings.hide_empty);
        assert(self@.rearranged == old(self)@.rearranged);
    }

    fn arrange(&mut self, columns: &Vec<LoadedColumn>, hide_empty: bool)
        requires
            old(self).available_rows.start <= old(self).available_rows.end,
            columns@.len() <= old(self).all_col_stats@.len(),
        ensures
            final(self).well_formed(),
            final(self).big_df == old(self).big_df,
            final(self).available_rows == old(self).available_rows,
            final(self).all_col_stats == old(self).all_col_stats,
            final(self).rearranged_columns == old(self).rearranged_columns,
            final(self).reaches_end == old(self).reaches_end,
            final(self)@.columns == arranged(
                old(self)@.rearranged,
                column_names(columns@),
                column_hidden(columns@, hide_empty),
            ),
            forall|k: int|
                0 <= k < final(self)@.stats.len() ==> final(self)@.stats[k]
                    == final(self)@.all_stats[final(self)@.columns[k] as int],
    {
        let ghost targets = self@.rearranged;
        let ghost names = column_names(columns@);
        let ghost hidden = column_hidden(columns@, hide_empty);
        self.available_cols = Vec::new();
        self.col_stats = Vec::new();
        let mut t: usize = 0;
        while t < self.rearranged_columns.len()
            invariant
                t <= self.rearranged_columns@.len(),
                targets == self.rearranged_columns@.map_values(|s: String| s@),
                names == column_names(columns@),
                columns@.len() <= self.all_col_stats@.len(),
                self.available_cols@ == pinned(targets.take(t as int), names),
                self.col_stats@.len() == self.available_cols@.len(),
                forall|k: int|
                    0 <= k < self.col_stats@.len() ==> self.col_stats@[k]
                        == self.all_col_stats@[self.available_cols@[k] as int],
                forall|k: int| 0 <= k < self.available_cols@.len() ==> self.available_cols@[k] < columns@.len(),
                self.big_df == old(self).big_df,
                self.available_rows == old(self).available_rows,
                self.all_col_stats == old(self).all_col_stats,
                self.rearranged_columns == old(self).rearranged_columns,
                self.reaches_end == old(self).reaches_end,
            decreases self.rearranged_columns@.len() - t,
        {
            proof {
                assert(targets.take(t + 1).drop_last() =~= targets.take(t as int));
                assert(targets.take(t + 1).last() == targets[t as int]);
            }
            match find_column(columns, &self.rearranged_columns[t]) {
                Some(idx) => {
                    proof {
                        lemma_first_with_name(names, targets[t as int], idx as int);
                    }
                    self.available_cols.push(idx);
                    self.col_stats.push(self.all_col_stats[idx]);
                },
                None => {},
            }
            t = t + 1;
        }
        assert(targets.take(targets.len() as int) =~= targets);
        let explicit_up_to = self.available_cols.len();
        let ghost pins = self.available_cols@;
        let mut idx: usize = 0;
        while idx < columns.len()
            invariant
                idx <= columns@.len(),
                hidden == column_hidden(columns@, hide_empty),
                columns@.len() <= self.all_col_stats@.len(),
                explicit_up_to == pins.len(),
                pins == pinned(targets, names),
                self.available_cols@ == pins + rest_upto(pins, hidden, idx as int),
                self.big_df == old(self).big_df,
                self.available_rows == old(self).available_rows,
                self.all_col_stats == old(self).all_col_stats,
                self.rearranged_columns == old(self).rearranged_columns,
                self.reaches_end == old(self).reaches_end,
                self.col_stats@.len() == self.available_cols@.len(),
                forall|k: int|
                    0 <= k < self.col_stats@.len() ==> self.col_stats@[k]
                        == self.all_col_stats@[self.available_cols@[k] as int],
                forall|k: int| 0 <= k < self.available_cols@.len() ==> self.available_cols@[k] < columns@.len(),
            decreases columns@.len() - idx,
        {
            let explicit = contains_index(&self.available_cols, explicit_up_to, idx);
            let hide = hide_empty && columns[idx].all_null;
            proof {
                lemma_rest_step(pins, hidden, idx as int);
                assert(self.available_cols@.take(explicit_up_to as int) =~= pins);
                assert(hidden[idx as int] == hide);
            }
            let ghost before = self.available_cols@;
            if !explicit && !hide {
                self.available_cols.push(idx);
                self.col_stats.push(self.all_col_stats[idx]);
                assert(self.available_cols@ =~= pins + rest_upto(pins, hidden, idx + 1));
            } else {
                assert(self.available_cols@ =~= pins + rest_upto(pins, hidden, idx + 1));
            }
            idx = idx + 1;
        }
    }
}

/// A cache miss on rows `[s, e)`, at most half a chunk of them, is served by
/// the chunk fetched from `refetch_start(s)`: when the source of `total` rows
/// yields `CHUNK_SIZE` rows, or fewer only at its end, the new window contains
/// `[s, e)` (so asking again fetches nothing), and a slice of those rows holds
/// `e - s` of them, fewer only where `e` runs past the end of the source, in
/// which case the chunk came back short and the window reaches the end.
pub proof fn lemma_window_containment(s: int, e: int, total: int)
    requires
        0 <= s < total,
        s <= e,
        e - s <= CHUNK_SIZE / 2,
    ensures
        ({
            let from = refetch_start(s);
            let loaded = if total - from < CHUNK_SIZE {
                total - from
            } else {
                CHUNK_SIZE as int
            };
            &&& 0 <= from <= s < from + loaded
            &&& slice_len(s, e, from + loaded) == if e <= total {
                e - s
            } else {
                total - s
            }
            &&& e <= total ==> covers(from, from + loaded, s, e)
            &&& e > total ==> loaded < CHUNK_SIZE
        }),
{
}

proof fn lemma_first_with_name(names: Seq<Seq<char>>, t: Seq<char>, j: int)
    requires
        0 <= j < names.len(),
        names[j] == t,
        forall|k: int| 0 <= k < j ==> names[k] != t,
    ensures
        has(names, t),
        first_with_name(names, t) == j,
{
    let c = first_with_name(names, t);
    if c < j {
        assert(names[c] != t);
    }
    if j < c {
        assert(names[j] != t);
    }
}

/// The first column called `name`, if any.
fn find_column(columns: &Vec<LoadedColumn>, name: &String) -> (r: Option<usize>)
    ensures
        match r {
            Some(j) => j < columns@.len() && columns@[j as int].name@ == name@ && forall|k: int|
                0 <= k < j ==> columns@[k].name@ != name@,
            None => forall|k: int| 0 <= k < columns@.len() ==> columns@[k].name@ != name@,
        },
{
    let mut j: usize = 0;
    while j < columns.len()
        invariant
            j <= columns@.len(),
            forall|k: int| 0 <= k < j ==> columns@[k].name@ != name@,
        decreases columns@.len() - j,
    {
        if columns[j].name.eq(name) {
            return Some(j);
        }
        j = j + 1;
    }
    None
}

/// Whether `x` is among the first `n` entries of `v`.
fn contains_index(v: &Vec<usize>, n: usize, x: usize) -> (r: bool)
    requires
        n <= v@.len(),
    ensures
        r == v@.take(n as int).contains(x),
{
    let mut i: usize = 0;
    while i < n
        invariant
            i <= n,
            n <= v@.len(),
            forall|k: int| 0 <= k < i ==> v@[k] != x,
        decreases n - i,
    {
        if v[i] == x {
            assert(v@.take(n as int)[i as int] == x);
            return true;
        }
        i = i + 1;
    }
    false
}

} // verus!
