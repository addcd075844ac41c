use vstd::prelude::*;

verus! {

/// The row terminator.
pub const NEWLINE: u8 = 10;

/// Longest time, in milliseconds, that one call of `Index::update` keeps scanning.
pub const SCAN_BUDGET_MS: u128 = 10;

/// The positions just past each terminator in `data`, in order.
pub open spec fn line_ends(data: Seq<u8>) -> Seq<int>
    decreases data.len(),
{
    if data.len() == 0 {
        Seq::empty()
    } else {
        let pre = line_ends(data.drop_last());
        if data.last() == NEWLINE {
            pre.push(data.len() as int)
        } else {
            pre
        }
    }
}

/// Every position of `s` moved on by `by`.
pub open spec fn shift(s: Seq<int>, by: int) -> Seq<int> {
    s.map_values(|e: int| e + by)
}

pub open spec fn strictly_increasing(s: Seq<int>) -> bool {
    forall|i: int, j: int| 0 <= i < j < s.len() ==> s[i] < s[j]
}

/// Where scanning resumes: just past the last committed terminator.
pub open spec fn cursor_of(ends: Seq<int>) -> int {
    if ends.len() == 0 {
        0
    } else {
        ends.last()
    }
}

/// First byte of line `i`.
pub open spec fn line_start(ends: Seq<int>, i: int) -> int {
    if i <= 0 {
        0
    } else {
        ends[i - 1]
    }
}

/// Byte span of line `i`, terminator excluded.
pub open spec fn line_span(ends: Seq<int>, i: int) -> (int, int) {
    (line_start(ends, i), ends[i] - 1)
}

pub open spec fn contains_at(hay: Seq<u8>, needle: Seq<u8>, at: int) -> bool {
    0 <= at && at + needle.len() <= hay.len() && hay.subrange(at, at + needle.len()) == needle
}

pub open spec fn contains(hay: Seq<u8>, needle: Seq<u8>) -> bool {
    exists|at: int| contains_at(hay, needle, at)
}

/// Relies on memchr::memchr: the index of the first `needle` in `hay[from..]`.
#[verifier::external_body]
fn find_byte(needle: u8, hay: &[u8], from: usize) -> (r: Option<usize>)
    requires
        from <= hay@.len(),
    ensures
        match r {
            Some(i) => from + i < hay@.len() && hay@[from + i] == needle && forall|j: int|
                from <= j < from + i ==> hay@[j] != needle,
            None => forall|j: int| from <= j < hay@.len() ==> hay@[j] != needle,
        },
{
    memchr::memchr(needle, &hay[from..])
}

/// Relies on memchr::memmem::find: the index of the first occurrence of
/// `needle` in `hay`, if any.
#[verifier::external_body]
fn find_bytes(hay: &[u8], needle: &[u8]) -> (r: Option<usize>)
    ensures
        match r {
            Some(i) => contains_at(hay@, needle@, i as int) && forall|j: int|
                0 <= j < i ==> !contains_at(hay@, needle@, j),
            None => !contains(hay@, needle@),
        },
{
    memchr::memmem::find(hay, needle)
}

#[verifier::external_type_specification]
#[verifier::external_body]
pub struct ExInstant(std::time::Instant);

/// Relies on Instant::now: reads the monotonic clock.
#[verifier::external_body]
fn clock_now() -> (r: std::time::Instant) {
    std::time::Instant::now()
}

/// Relies on Instant::elapsed: whole milliseconds since `start`.
#[verifier::external_body]
fn elapsed_ms(start: &std::time::Instant) -> (r: u128) {
    start.elapsed().as_millis()
}

/// Records where every complete line of an append-only byte stream ends.
pub struct Index {
    /// One entry per complete line: the position just past its terminator.
    ends: Vec<u64>,
    pub watch_for_updates: bool,
    up_to_date: bool,
}

impl View for Index {
    type V = Seq<int>;

    closed spec fn view(&self) -> Seq<int> {
        self.ends@.map_values(|e: u64| e as int)
    }
}

proof fn lemma_newline_step(s: Seq<u8>, p: int)
    requires
        0 <= p < s.len(),
        s[p] == NEWLINE,
    ensures
        line_ends(s.take(p + 1)) == line_ends(s.take(p)).push(p + 1),
{
    assert(s.take(p + 1).drop_last() =~= s.take(p));
}

proof fn lemma_no_newline(s: Seq<u8>, a: int, b: int)
    requires
        0 <= a <= b <= s.len(),
        forall|j: int| a <= j < b ==> s[j] != NEWLINE,
    ensures
        line_ends(s.take(b)) == line_ends(s.take(a)),
    decreases b - a,
{
    if a < b {
        lemma_no_newline(s, a, b - 1);
        assert(s.take(b).drop_last() =~= s.take(b - 1));
    }
}

/// The line ends of a prefix are a prefix of the line ends.
proof fn lemma_prefix(s: Seq<u8>, k: int)
    requires
        0 <= k <= s.len(),
    ensures
        line_ends(s.take(k)).len() <= line_ends(s).len(),
        line_ends(s.take(k)) == line_ends(s).take(line_ends(s.take(k)).len() as int),
    decreases s.len(),
{
    if k == s.len() {
        assert(s.take(k) =~= s);
        assert(line_ends(s) =~= line_ends(s).take(line_ends(s).len() as int));
    } else {
        let d = s.drop_last();
        assert(s.take(k) =~= d.take(k));
        lemma_prefix(d, k);
        let n = line_ends(d.take(k)).len() as int;
        assert(line_ends(d).take(n) =~= line_ends(s).take(n));
    }
}

/// The committed ends are bounded by the cursor and ordered.
proof fn lemma_ends_order(idx: &Index)
    requires
        idx.well_formed(),
    ensures
        forall|i: int| 0 <= i < idx@.len() ==> idx@[i] <= cursor_of(idx@),
{
}

/// The bytes of line `i` of `data`, terminator excluded.
pub open spec fn line_bytes(data: Seq<u8>, ends: Seq<int>, i: int) -> Seq<u8> {
    data.subrange(line_span(ends, i).0, line_span(ends, i).1)
}

/// Splitting a scan anywhere gives the same line ends as one scan.
proof fn lemma_concat(s: Seq<u8>, c: int)
    requires
        0 <= c <= s.len(),
    ensures
        line_ends(s) == line_ends(s.take(c)) + shift(line_ends(s.skip(c)), c),
    decreases s.len(),
{
    if s.len() == c {
        assert(s.take(c) =~= s);
        assert(s.skip(c) =~= Seq::<u8>::empty());
        assert(line_ends(s) =~= line_ends(s.take(c)) + shift(line_ends(s.skip(c)), c));
    } else {
        let d = s.drop_last();
        lemma_concat(d, c);
        assert(d.take(c) =~= s.take(c));
        assert(s.skip(c).drop_last() =~= d.skip(c));
        if s.last() == NEWLINE {
            assert(shift(line_ends(s.skip(c)), c) =~= shift(line_ends(d.skip(c)), c).push(s.len() as int));
            assert(line_ends(s) =~= line_ends(s.take(c)) + shift(line_ends(s.skip(c)), c));
        }
    }
}

/// No terminator lies at or after the last line end.
proof fn lemma_after_cursor(s: Seq<u8>)
    ensures
        0 <= cursor_of(line_ends(s)) <= s.len(),
        forall|j: int| cursor_of(line_ends(s)) <= j < s.len() ==> s[j] != NEWLINE,
    decreases s.len(),
{
    if s.len() > 0 {
        let d = s.drop_last();
        lemma_after_cursor(d);
        if s.last() != NEWLINE {
            assert forall|j: int| cursor_of(line_ends(s)) <= j < s.len() implies s[j] != NEWLINE by {
                if j < d.len() {
                    assert(s[j] == d[j]);
                }
            }
        }
    }
}

/// Once a line has been reported, its span never changes: an index that only
/// ever gains line ends at its back (as `update` and `push_line` ensure) has at
/// least as many lines afterwards, and each earlier line keeps its span.
pub proof fn lemma_lines_stable(before: Seq<int>, added: Seq<int>)
    ensures
        (before + added).len() >= before.len(),
        forall|i: int|
            0 <= i < before.len() ==> #[trigger] line_span(before + added, i) == line_span(before, i),
{
    assert forall|i: int| 0 <= i < before.len() implies #[trigger] line_span(before + added, i)
        == line_span(before, i) by {
        if i > 0 {
            assert((before + added)[i - 1] == before[i - 1]);
        }
        assert((before + added)[i] == before[i]);
    }
}

/// Scanning a stream that was first seen only up to byte `k` (possibly in the
/// middle of a multi-byte character), and then again from the cursor that the
/// first scan left, gives exactly the line ends of a single scan of the whole.
pub proof fn lemma_split_scan(data: Seq<u8>, k: int)
    requires
        0 <= k <= data.len(),
    ensures
        0 <= cursor_of(line_ends(data.take(k))) <= k,
        line_ends(data) == line_ends(data.take(k)) + shift(
            line_ends(data.skip(cursor_of(line_ends(data.take(k))))),
            cursor_of(line_ends(data.take(k))),
        ),
{
    let first = line_ends(data.take(k));
    let c = cursor_of(first);
    lemma_after_cursor(data.take(k));
    assert forall|j: int| c <= j < k implies data[j] != NEWLINE by {
        assert(data.take(k)[j] == data[j]);
    }
    lemma_no_newline(data, c, k);
    assert(data.take(k).take(c) =~= data.take(c));
    lemma_concat(data, c);
}

impl Index {
    pub closed spec fn well_formed(&self) -> bool {
        &&& strictly_increasing(self@)
        &&& forall|i: int| 0 <= i < self@.len() ==> 1 <= #[trigger] self@[i]
    }

    pub closed spec fn is_watching(&self) -> bool {
        self.watch_for_updates
    }

    pub closed spec fn is_up_to_date(&self) -> bool {
        self.up_to_date
    }

    /// An index with no lines, to be filled by `update` or `push_line`.
    pub fn no_file() -> (r: Index)
        ensures
            r.well_formed(),
            r@ == Seq::<int>::empty(),
            r.is_watching(),
            !r.is_up_to_date(),
    {
        let r = Index { ends: Vec::new(), watch_for_updates: true, up_to_date: false };
        assert(r@ =~= Seq::<int>::empty());
        r
    }

    pub fn stop_watching(&mut self)
        ensures
            final(self)@ == old(self)@,
            final(self).well_formed() == old(self).well_formed(),
            final(self).is_up_to_date(),
            !final(self).is_watching(),
    {
        self.up_to_date = true;
        self.watch_for_updates = false;
    }

    pub fn up_to_date(&self) -> (r: bool)
        ensures
            r == self.is_up_to_date(),
    {
        self.up_to_date
    }

    /// Number of complete lines seen so far.
    pub fn len(&self) -> (r: usize)
        ensures
            r == self@.len(),
    {
        self.ends.len()
    }

    /// Where the next scan starts: just past the last complete line.
    pub fn cursor(&self) -> (r: u64)
        ensures
            r == cursor_of(self@),
    {
        if self.ends.len() == 0 {
            0
        } else {
            self.ends[self.ends.len() - 1]
        }
    }

    /// The committed line ends, in order.
    pub fn row_offsets(&self) -> (r: &[u64])
        ensures
            r@.map_values(|e: u64| e as int) == self@,
    {
        self.ends.as_slice()
    }

    /// Records one more line of `len` bytes, terminator excluded.
    pub fn push_line(&mut self, len: u64)
        requires
            old(self).well_formed(),
            cursor_of(old(self)@) + len + 1 <= u64::MAX,
        ensures
            final(self).well_formed(),
            final(self)@ == old(self)@.push(cursor_of(old(self)@) + len + 1),
            final(self).is_watching() == old(self).is_watching(),
            final(self).is_up_to_date() == old(self).is_up_to_date(),
    {
        let c = self.cursor();
        self.ends.push(c + len + 1);
        assert(self@ =~= old(self)@.push(c + len + 1));
    }

    /// Scans `tail`, the bytes of the stream from `self.cursor()` on, and records
    /// the end of each complete line found there. A last line with no terminator
    /// is left for a later call. Stops early once the scan budget is spent;
    /// returns how many lines were added.
    pub fn update(&mut self, tail: &[u8]) -> (n: usize)
        requires
            old(self).well_formed(),
            cursor_of(old(self)@) + tail@.len() <= u64::MAX,
        ensures
            final(self).well_formed(),
            final(self).is_watching() == old(self).is_watching(),
            final(self)@ == old(self)@ + shift(line_ends(tail@).take(n as int), cursor_of(old(self)@)),
            n <= line_ends(tail@).len(),
            old(self).is_watching() && line_ends(tail@).len() > 0 ==> n > 0,
            !old(self).is_watching() ==> n == 0,
            old(self).is_watching() && final(self).is_up_to_date() ==> n == line_ends(tail@).len(),
            final(self)@.len() >= old(self)@.len(),
            forall|i: int|
                0 <= i < old(self)@.len() ==> #[trigger] line_span(final(self)@, i) == line_span(old(self)@, i),
    {
        let ghost s = tail@;
        let ghost old_view = self@;
        if !self.watch_for_updates {
            assert(line_ends(s).take(0) =~= Seq::<int>::empty());
            assert(self@ =~= old_view + shift(line_ends(s).take(0), cursor_of(old_view)));
            proof {
                lemma_lines_stable(old_view, shift(line_ends(s).take(0), cursor_of(old_view)));
            }
            return 0;
        }
        let c = self.cursor();
        let tail_len = tail.len();
        self.up_to_date = false;
        let start = clock_now();
        let mut pos: usize = 0;
        let mut n: usize = 0;
        proof {
            assert(s.take(0) =~= Seq::<u8>::empty());
            assert(line_ends(s.take(0)) =~= Seq::<int>::empty());
            assert(self@ =~= old_view + shift(line_ends(s.take(0)), c as int));
        }
        loop
            invariant_except_break
                !self.up_to_date,
            invariant
                s == tail@,
                c == cursor_of(old_view),
                c + s.len() <= u64::MAX,
                pos <= s.len(),
                n <= pos,
                n == line_ends(s.take(pos as int)).len(),
                self@ == old_view + shift(line_ends(s.take(pos as int)), c as int),
                self@.len() > 0 ==> self@.last() == c + pos,
                self.well_formed(),
                self.watch_for_updates,
                tail_len == s.len(),
            ensures
                self.up_to_date ==> n == line_ends(s).len(),
                n > 0 || n == line_ends(s).len(),
            decreases s.len() - pos,
        {
            match find_byte(NEWLINE, tail, pos) {
                None => {
                    proof {
                        lemma_no_newline(s, pos as int, s.len() as int);
                        assert(s.take(s.len() as int) =~= s);
                    }
                    self.up_to_date = true;
                    break ;
                },
                Some(i) => {
                    let end = pos + i + 1;
                    proof {
                        lemma_no_newline(s, pos as int, (pos + i) as int);
                        lemma_newline_step(s, (pos + i) as int);
                    }
                    let ghost before = self@;
                    self.ends.push(c + end as u64);
                    assert(self@ =~= before.push(c + end));
                    assert(shift(line_ends(s.take(end as int)), c as int) =~= shift(
                        line_ends(s.take(pos as int)),
                        c as int,
                    ).push(c + end));
                    n = n + 1;
                    pos = end;
                    if elapsed_ms(&start) > SCAN_BUDGET_MS {
                        self.up_to_date = false;
                        break ;
                    }
                },
            }
        }
        proof {
            lemma_prefix(s, pos as int);
            lemma_lines_stable(old_view, shift(line_ends(s).take(n as int), cursor_of(old_view)));
        }
        n
    }

    /// First byte of line `line`; past the last complete line, the cursor.
    pub fn line_start(&self, line: usize) -> (r: u64)
        requires
            self.well_formed(),
        ensures
            r == line_start(self@, if line <= self@.len() { line as int } else { self@.len() as int }),
    {
        let l = if line <= self.ends.len() {
            line
        } else {
            self.ends.len()
        };
        if l == 0 {
            0
        } else {
            assert(self@[l - 1] == self.ends@[l - 1] as int);
            self.ends[l - 1]
        }
    }

    /// The lines from `first_line` on whose bytes in `data` hold `needle`,
    /// numbered from `first_line`, ascending and without repeats.
    pub fn search(&self, data: &[u8], needle: &[u8], first_line: usize) -> (r: Vec<usize>)
        requires
            self.well_formed(),
            cursor_of(self@) <= data@.len(),
        ensures
            forall|a: int, b: int| 0 <= a < b < r@.len() ==> r@[a] < r@[b],
            forall|k: int|
                0 <= k < r@.len() ==> first_line + r@[k] < self@.len() && contains(
                    line_bytes(data@, self@, first_line + r@[k]),
                    needle@,
                ),
            forall|l: int|
                first_line <= l < self@.len() && contains(#[trigger] line_bytes(data@, self@, l), needle@)
                    ==> r@.contains((l - first_line) as usize),
    {
        let mut r: Vec<usize> = Vec::new();
        let mut line = first_line;
        let n = self.ends.len();
        let dl = data.len();
        proof {
            lemma_ends_order(self);
        }
        while line < n
            invariant
                self.well_formed(),
                dl == data@.len(),
                n == self@.len(),
                cursor_of(self@) <= data@.len(),
                first_line <= line || n <= line,
                forall|a: int, b: int| 0 <= a < b < r@.len() ==> r@[a] < r@[b],
                forall|k: int| 0 <= k < r@.len() ==> first_line + r@[k] < line,
                forall|k: int|
                    0 <= k < r@.len() ==> first_line + r@[k] < self@.len() && contains(
                        line_bytes(data@, self@, first_line + r@[k]),
                        needle@,
                    ),
                forall|l: int|
                    first_line <= l < line && l < self@.len() && contains(
                        #[trigger] line_bytes(data@, self@, l),
                        needle@,
                    ) ==> r@.contains((l - first_line) as usize),
                forall|i: int| 0 <= i < self@.len() ==> self@[i] <= cursor_of(self@),
            decreases n - line,
        {
            let start = if line == 0 {
                0
            } else {
                assert(self@[line - 1] == self.ends@[line - 1] as int);
                self.ends[line - 1]
            };
            assert(self@[line as int] == self.ends@[line as int] as int);
            let end = self.ends[line] - 1;
            assert(self@[line as int] <= cursor_of(self@));
            assert(line > 0 ==> self@[line - 1] < self@[line as int]);
            let bytes = &data[start as usize..end as usize];
            let found = find_bytes(bytes, needle);
            let ghost prev = r@;
            if found.is_some() {
                r.push(line - first_line);
            }
            assert forall|l: int|
                first_line <= l < line + 1 && l < self@.len() && contains(
                    #[trigger] line_bytes(data@, self@, l),
                    needle@,
                ) implies r@.contains((l - first_line) as usize) by {
                if l < line {
                    assert(prev.contains((l - first_line) as usize));
                    let w = choose|w: int| 0 <= w < prev.len() && prev[w] == (l - first_line) as usize;
                    assert(r@[w] == (l - first_line) as usize);
                } else {
                    assert(bytes@ == line_bytes(data@, self@, line as int));
                    assert(r@[r@.len() - 1] == (l - first_line) as usize);
                }
            }
            line = line + 1;
        }
        r
    }

    /// Byte span of line `line`, terminator excluded; `None` past the last
    /// complete line.
    pub fn line2range(&self, line: usize) -> (r: Option<std::ops::Range<u64>>)
        requires
            self.well_formed(),
        ensures
            line < self@.len() ==> (r matches Some(g) && g.start == line_span(self@, line as int).0
                && g.end == line_span(self@, line as int).1),
            line >= self@.len() ==> r is None,
    {
        if line >= self.ends.len() {
            return None;
        }
        let lhs = if line == 0 {
            0
        } else {
            assert(self@[line - 1] == self.ends@[line - 1] as int);
            self.ends[line - 1]
        };
        assert(self@[line as int] == self.ends@[line as int] as int);
        let rhs = self.ends[line] - 1;
        Some(lhs..rhs)
    }
}

} // verus!
