use crate::index::{contains, cursor_of, line_bytes, line_ends, line_start, shift, Index};
use crate::schema::{
    fields_view, merge_by_name, merge_positional, merged_by_name, merged_positional, Field,
    FieldView,
};
use vstd::prelude::*;

verus! {

/// What a source knows: where its complete lines end, its cumulative schema,
/// the stream length it last looked at, and whether its last scan reached the
/// end of what it was given (rather than stopping when its time ran out).
pub struct SourceView {
    pub lines: Seq<int>,
    pub schema: Seq<FieldView>,
    pub seen_len: int,
    pub caught_up: bool,
}

/// Complete data rows of a source whose first line is a header.
pub open spec fn data_rows(lines: Seq<int>) -> int {
    if lines.len() == 0 {
        0
    } else {
        lines.len() - 1
    }
}

/// First byte of line `l`, or the end of the last complete line past it.
pub open spec fn clamped_start(lines: Seq<int>, l: int) -> int {
    line_start(lines, if l <= lines.len() { l } else { lines.len() as int })
}

pub open spec fn sat_add(a: int, b: int) -> int {
    if a + b > usize::MAX {
        usize::MAX as int
    } else {
        a + b
    }
}

/// The state after `update` has committed `n` of the line ends found in `tail`.
pub open spec fn scanned(lines: Seq<int>, tail: Seq<u8>, n: int) -> Seq<int> {
    lines + shift(line_ends(tail).take(n), cursor_of(lines))
}

/// What a scan of `tail` may commit: some of the line ends found there, in
/// order, at least one where there is one, and all of them where the scan
/// reached the end of `tail`.
pub open spec fn scan_result(old: Seq<int>, tail: Seq<u8>, new: Seq<int>, caught_up: bool) -> bool {
    let n = new.len() - old.len();
    &&& 0 <= n <= line_ends(tail).len()
    &&& line_ends(tail).len() > 0 ==> n > 0
    &&& caught_up ==> n == line_ends(tail).len()
    &&& new == scanned(old, tail, n)
}

/// Scanning from an empty state up to byte `k` (say, in the middle of a
/// multi-byte character), and then the rest of the stream from the cursor
/// that scan left, commits exactly what one scan of the whole stream commits,
/// where neither scan is cut short by its time budget.
pub proof fn lemma_split_checks(data: Seq<u8>, k: int)
    requires
        0 <= k <= data.len(),
    ensures
        ({
            let first = scanned(Seq::empty(), data.take(k), line_ends(data.take(k)).len() as int);
            let rest = data.skip(cursor_of(first));
            scanned(first, rest, line_ends(rest).len() as int) == scanned(
                Seq::empty(),
                data,
                line_ends(data).len() as int,
            )
        }),
{
    crate::index::lemma_split_scan(data, k);
    let e1 = line_ends(data.take(k));
    let e = line_ends(data);
    assert(e1.take(e1.len() as int) =~= e1);
    assert(shift(e1, 0) =~= e1);
    assert(Seq::<int>::empty() + e1 =~= e1);
    assert(e.take(e.len() as int) =~= e);
    assert(shift(e, 0) =~= e);
    assert(Seq::<int>::empty() + e =~= e);
    let rest = data.skip(cursor_of(e1));
    assert(line_ends(rest).take(line_ends(rest).len() as int) =~= line_ends(rest));
}

/// Checks for new rows never lose rows: the count of lines never drops, and
/// the lines already known keep their place at the front, so every byte range
/// already reported stays the same.
pub proof fn lemma_scan_keeps_lines(old: Seq<int>, tail: Seq<u8>, new: Seq<int>, caught_up: bool)
    requires
        scan_result(old, tail, new, caught_up),
    ensures
        new.len() >= old.len(),
        data_rows(new) >= data_rows(old),
        new.subrange(0, old.len() as int) == old,
{
    assert(new.subrange(0, old.len() as int) =~= old);
}

/// A delimited text source whose first line names the columns.
pub struct CsvFile {
    index: Index,
    schema: Vec<Field>,
    seen_len: u64,
    delimiter: u8,
}

impl View for CsvFile {
    type V = SourceView;

    closed spec fn view(&self) -> SourceView {
        SourceView {
            lines: self.index@,
            schema: fields_view(self.schema@),
            seen_len: self.seen_len as int,
            caught_up: self.index.is_up_to_date(),
        }
    }
}

impl CsvFile {
    pub closed spec fn well_formed(&self) -> bool {
        self.index.well_formed() && self.index.is_watching()
    }

    pub closed spec fn spec_delimiter(&self) -> u8 {
        self.delimiter
    }

    pub fn new(delimiter: u8) -> (r: CsvFile)
        ensures
            r.well_formed(),
            r@.lines == Seq::<int>::empty(),
            r@.schema == Seq::<FieldView>::empty(),
            r@.seen_len == 0,
            !r@.caught_up,
            r.spec_delimiter() == delimiter,
    {
        let r = CsvFile { index: Index::no_file(), schema: Vec::new(), seen_len: 0, delimiter };
        assert(fields_view(r.schema@) =~= Seq::<FieldView>::empty());
        r
    }

    pub fn delimiter(&self) -> (r: u8)
        ensures
            r == self.spec_delimiter(),
    {
        self.delimiter
    }

    pub fn schema(&self) -> (r: &Vec<Field>)
        ensures
            fields_view(r@) == self@.schema,
    {
        &self.schema
    }

    /// Whether the header still has to be read: no column is known yet.
    pub fn needs_header(&self) -> (r: bool)
        ensures
            r == (self@.schema.len() == 0),
    {
        self.schema.len() == 0
    }

    /// Where the stream's bytes are to be read from for the next check.
    pub fn scan_from(&self) -> (r: u64)
        ensures
            r == cursor_of(self@.lines),
    {
        self.index.cursor()
    }

    /// The stream offsets just past each complete line, header included.
    pub fn row_offsets(&self) -> (r: &[u64])
        ensures
            r@.map_values(|e: u64| e as int) == self@.lines,
    {
        self.index.row_offsets()
    }

    /// Takes in growth of the stream, now `file_len` bytes long. `header` is
    /// the schema read from the header line, where `needs_header()` held and
    /// reading it succeeded; `tail` holds the stream's bytes from `scan_from()`
    /// on. Returns the number of new complete data rows (the header is no row).
    pub fn check_for_new_rows(&mut self, file_len: u64, header: Option<Vec<Field>>, tail: &[u8]) -> (n: usize)
        requires
            old(self).well_formed(),
            cursor_of(old(self)@.lines) + tail@.len() <= u64::MAX,
        ensures
            final(self).well_formed(),
            final(self).spec_delimiter() == old(self).spec_delimiter(),
            n == data_rows(final(self)@.lines) - data_rows(old(self)@.lines),
            file_len == old(self)@.seen_len ==> final(self)@ == old(self)@,
            file_len != old(self)@.seen_len && old(self)@.schema.len() == 0 && header is None
                ==> final(self)@ == (SourceView { seen_len: file_len as int, ..old(self)@ }),
            file_len != old(self)@.seen_len && (old(self)@.schema.len() > 0 || header is Some) ==> {
                &&& scan_result(old(self)@.lines, tail@, final(self)@.lines, final(self)@.caught_up)
                &&& final(self)@.schema == if old(self)@.schema.len() == 0 {
                    fields_view(header->0@)
                } else {
                    old(self)@.schema
                }
                &&& final(self)@.seen_len == if final(self)@.lines.len() > old(self)@.lines.len() {
                    cursor_of(final(self)@.lines)
                } else {
                    file_len as int
                }
            },
    {
        if file_len == self.seen_len {
            return 0;
        }
        self.seen_len = file_len;
        if self.schema.len() == 0 {
            match header {
                Some(h) => {
                    self.schema = h;
                },
                None => {
                    return 0;
                },
            }
        }
        let before = self.row_count();
        let k = self.index.update(tail);
        if k > 0 {
            self.seen_len = self.index.cursor();
        }
        self.row_count() - before
    }

    /// Whether the last scan reached the end of the bytes it was given.
    pub fn up_to_date(&self) -> (r: bool)
        ensures
            r == self@.caught_up,
    {
        self.index.up_to_date()
    }

    /// Number of complete data rows: complete lines after the header.
    pub fn row_count(&self) -> (r: usize)
        ensures
            r == data_rows(self@.lines),
    {
        let n = self.index.len();
        if n == 0 {
            0
        } else {
            n - 1
        }
    }

    /// The bytes to decode for `len` rows from row `offset` on: from the start
    /// of that row up to the start of the row after the one past them, cut at
    /// the end of the last complete line.
    pub fn fetch_range(&self, offset: usize, len: usize) -> (r: (u64, u64))
        requires
            self.well_formed(),
        ensures
            r.0 == clamped_start(self@.lines, sat_add(offset as int, 1)),
            r.1 == clamped_start(self@.lines, sat_add(sat_add(offset as int, len as int), 2)),
    {
        let first = offset.saturating_add(1);
        let last = offset.saturating_add(len).saturating_add(2);
        (self.index.line_start(first), self.index.line_start(last))
    }

    /// Widens the cumulative schema with the one inferred from a chunk.
    pub fn merge_schema(&mut self, chunk: &Vec<Field>)
        requires
            old(self).well_formed(),
        ensures
            final(self).well_formed(),
            final(self).spec_delimiter() == old(self).spec_delimiter(),
            final(self)@ == (SourceView {
                schema: merged_positional(old(self)@.schema, fields_view(chunk@)),
                ..old(self)@
            }),
    {
        self.schema = merge_positional(&self.schema, chunk);
    }

    /// The data rows whose line in `data`, the stream's bytes, holds `needle`.
    pub fn search(&self, data: &[u8], needle: &[u8]) -> (r: Vec<usize>)
        requires
            self.well_formed(),
            cursor_of(self@.lines) <= data@.len(),
        ensures
            forall|a: int, b: int| 0 <= a < b < r@.len() ==> r@[a] < r@[b],
            forall|k: int|
                0 <= k < r@.len() ==> 1 + r@[k] < self@.lines.len() && contains(
                    line_bytes(data@, self@.lines, 1 + r@[k]),
                    needle@,
                ),
            forall|l: int|
                1 <= l < self@.lines.len() && contains(#[trigger] line_bytes(data@, self@.lines, l), needle@)
                    ==> r@.contains((l - 1) as usize),
    {
        self.index.search(data, needle, 1)
    }
}

/// A source of one JSON document per line; columns appear as they are first seen.
pub struct JsonFile {
    index: Index,
    schema: Vec<Field>,
    seen_len: u64,
}

impl View for JsonFile {
    type V = SourceView;

    closed spec fn view(&self) -> SourceView {
        SourceView {
            lines: self.index@,
            schema: fields_view(self.schema@),
            seen_len: self.seen_len as int,
            caught_up: self.index.is_up_to_date(),
        }
    }
}

impl JsonFile {
    pub closed spec fn well_formed(&self) -> bool {
        self.index.well_formed() && self.index.is_watching()
    }

    pub fn new() -> (r: JsonFile)
        ensures
            r.well_formed(),
            r@.lines == Seq::<int>::empty(),
            r@.schema == Seq::<FieldView>::empty(),
            r@.seen_len == 0,
            !r@.caught_up,
    {
        let r = JsonFile { index: Index::no_file(), schema: Vec::new(), seen_len: 0 };
        assert(fields_view(r.schema@) =~= Seq::<FieldView>::empty());
        r
    }

    pub fn schema(&self) -> (r: &Vec<Field>)
        ensures
            fields_view(r@) == self@.schema,
    {
        &self.schema
    }

    pub fn scan_from(&self) -> (r: u64)
        ensures
            r == cursor_of(self@.lines),
    {
        self.index.cursor()
    }

    pub fn row_offsets(&self) -> (r: &[u64])
        ensures
            r@.map_values(|e: u64| e as int) == self@.lines,
    {
        self.index.row_offsets()
    }

    /// Takes in growth of the stream, now `file_len` bytes long; `tail` holds
    /// the stream's bytes from `scan_from()` on. Returns the number of new
    /// complete rows.
    pub fn check_for_new_rows(&mut self, file_len: u64, tail: &[u8]) -> (n: usize)
        requires
            old(self).well_formed(),
            cursor_of(old(self)@.lines) + tail@.len() <= u64::MAX,
        ensures
            final(self).well_formed(),
            n == final(self)@.lines.len() - old(self)@.lines.len(),
            file_len == old(self)@.seen_len ==> final(self)@ == old(self)@,
            file_len != old(self)@.seen_len ==> {
                &&& scan_result(old(self)@.lines, tail@, final(self)@.lines, final(self)@.caught_up)
                &&& final(self)@.schema == old(self)@.schema
                &&& final(self)@.seen_len == if n > 0 {
                    cursor_of(final(self)@.lines)
                } else {
                    file_len as int
                }
            },
    {
        if file_len == self.seen_len {
            return 0;
        }
        self.seen_len = file_len;
        let n = self.index.update(tail);
        if n > 0 {
            self.seen_len = self.index.cursor();
        }
        n
    }

    /// Whether the last scan reached the end of the bytes it was given.
    pub fn up_to_date(&self) -> (r: bool)
        ensures
            r == self@.caught_up,
    {
        self.index.up_to_date()
    }

    /// Number of complete rows.
    pub fn row_count(&self) -> (r: usize)
        ensures
            r == self@.lines.len(),
    {
        self.index.len()
    }

    /// The bytes to decode for `len` rows from row `offset` on, up to the
    /// start of the row after the one past them, cut at the end of the last
    /// complete line.
    pub fn fetch_range(&self, offset: usize, len: usize) -> (r: (u64, u64))
        requires
            self.well_formed(),
        ensures
            r.0 == clamped_start(self@.lines, offset as int),
            r.1 == clamped_start(self@.lines, sat_add(sat_add(offset as int, len as int), 1)),
    {
        let last = offset.saturating_add(len).saturating_add(1);
        (self.index.line_start(offset), self.index.line_start(last))
    }

    /// Widens the cumulative schema with the one inferred from a chunk.
    pub fn merge_schema(&mut self, chunk: &Vec<Field>)
        requires
            old(self).well_formed(),
        ensures
            final(self).well_formed(),
            final(self)@ == (SourceView {
                schema: merged_by_name(old(self)@.schema, fields_view(chunk@)),
                ..old(self)@
            }),
    {
        self.schema = merge_by_name(&self.schema, chunk);
    }

    /// The rows whose line in `data`, the stream's bytes, holds `needle`.
    pub fn search(&self, data: &[u8], needle: &[u8]) -> (r: Vec<usize>)
        requires
            self.well_formed(),
            cursor_of(self@.lines) <= data@.len(),
        ensures
            forall|a: int, b: int| 0 <= a < b < r@.len() ==> r@[a] < r@[b],
            forall|k: int|
                0 <= k < r@.len() ==> r@[k] < self@.lines.len() && contains(
                    line_bytes(data@, self@.lines, r@[k] as int),
                    needle@,
                ),
            forall|l: int|
                0 <= l < self@.lines.len() && contains(#[trigger] line_bytes(data@, self@.lines, l), needle@)
                    ==> r@.contains(l as usize),
    {
        self.index.search(data, needle, 0)
    }
}

} // verus!
