use vstd::prelude::*;

verus! {

#[derive(Clone, Copy, PartialEq, Eq, Structural, Debug)]
pub enum TimeUnit {
    Second,
    Millisecond,
    Microsecond,
    Nanosecond,
}

/// The logical type of a column, as inferred from a sample of its values.
/// `Null` means that nothing is known yet. `Other(k)` stands for a type that
/// the decoder knows and that this library only compares: two columns have the
/// same such type exactly when their `k` is the same.
#[derive(Clone, Copy, PartialEq, Eq, Structural, Debug)]
pub enum LogicalType {
    Null,
    Boolean,
    Int8,
    Int16,
    Int32,
    Int64,
    UInt8,
    UInt16,
    UInt32,
    UInt64,
    Float16,
    Float32,
    Float64,
    Utf8,
    LargeUtf8,
    Binary,
    LargeBinary,
    Date32,
    Date64,
    Time32(TimeUnit),
    Time64(TimeUnit),
    Timestamp(TimeUnit),
    Duration(TimeUnit),
    Other(u32),
}

/// A named, typed column.
#[derive(Debug)]
pub struct Field {
    pub name: String,
    pub data_type: LogicalType,
    pub nullable: bool,
}

pub struct FieldView {
    pub name: Seq<char>,
    pub data_type: LogicalType,
    pub nullable: bool,
}

impl View for Field {
    type V = FieldView;

    open spec fn view(&self) -> FieldView {
        FieldView { name: self.name@, data_type: self.data_type, nullable: self.nullable }
    }
}

impl Clone for Field {
    fn clone(&self) -> (r: Field)
        ensures
            r@ == self@,
    {
        Field { name: self.name.clone(), data_type: self.data_type, nullable: self.nullable }
    }
}

pub open spec fn fields_view(v: Seq<Field>) -> Seq<FieldView> {
    v.map_values(|f: Field| f@)
}

/// The widening rule: a timestamp seen again becomes a string; an unknown side
/// takes the other; equal types stay; any other pair becomes a string.
pub open spec fn merged_type(old: LogicalType, new: LogicalType) -> LogicalType {
    if new is Timestamp {
        LogicalType::Utf8
    } else if new is Null {
        old
    } else if old is Null {
        new
    } else if old == new {
        old
    } else {
        LogicalType::Utf8
    }
}

/// A column merged with a later sighting of itself: the name stays, the type
/// widens, and it is nullable if either side is, or either side is unknown.
pub open spec fn merged_field(old: FieldView, new: FieldView) -> FieldView {
    FieldView {
        name: old.name,
        data_type: merged_type(old.data_type, new.data_type),
        nullable: old.nullable || new.nullable || old.data_type is Null || new.data_type is Null,
    }
}

/// Column-by-column merge of schemas that line up by position. Columns that
/// the chunk lacks are kept as they are; columns past the known ones are not
/// taken in, since the header fixes the columns.
pub open spec fn merged_positional(old: Seq<FieldView>, new: Seq<FieldView>) -> Seq<FieldView> {
    Seq::new(
        old.len(),
        |i: int|
            if i < new.len() {
                merged_field(old[i], new[i])
            } else {
                old[i]
            },
    )
}

/// A schema that merging leaves as it is: no timestamp, and every unknown
/// column nullable.
pub open spec fn settled(s: Seq<FieldView>) -> bool {
    forall|i: int|
        0 <= i < s.len() ==> !(s[i].data_type is Timestamp) && (s[i].data_type is Null
            ==> s[i].nullable)
}

pub fn merge_types(old: LogicalType, new: LogicalType) -> (r: LogicalType)
    ensures
        r == merged_type(old, new),
{
    match new {
        LogicalType::Timestamp(_) => LogicalType::Utf8,
        LogicalType::Null => old,
        _ => match old {
            LogicalType::Null => new,
            _ => if old == new {
                old
            } else {
                LogicalType::Utf8
            },
        },
    }
}

pub fn merge_fields(old: &Field, new: &Field) -> (r: Field)
    ensures
        r@ == merged_field(old@, new@),
{
    let nullable = old.nullable || new.nullable || old.data_type == LogicalType::Null
        || new.data_type == LogicalType::Null;
    Field { name: old.name.clone(), data_type: merge_types(old.data_type, new.data_type), nullable }
}

/// Merges a schema inferred from one chunk into the cumulative one, matching
/// columns by position (for formats whose column names are fixed by a header).
pub fn merge_positional(old: &Vec<Field>, new: &Vec<Field>) -> (r: Vec<Field>)
    ensures
        fields_view(r@) == merged_positional(fields_view(old@), fields_view(new@)),
{
    let mut r: Vec<Field> = Vec::new();
    let mut i: usize = 0;
    while i < old.len()
        invariant
            i <= old@.len(),
            r@.len() == i,
            forall|k: int|
                0 <= k < i ==> #[trigger] r@[k]@ == if k < new@.len() {
                    merged_field(old@[k]@, new@[k]@)
                } else {
                    old@[k]@
                },
        decreases old@.len() - i,
    {
        if i < new.len() {
            r.push(merge_fields(&old[i], &new[i]));
        } else {
            r.push(old[i].clone());
        }
        i = i + 1;
    }
    assert(fields_view(r@) =~= merged_positional(fields_view(old@), fields_view(new@)));
    r
}

proof fn lemma_type_assoc(a: LogicalType, b: LogicalType, c: LogicalType)
    ensures
        merged_type(merged_type(a, b), c) == merged_type(a, merged_type(b, c)),
{
}

/// Merging positional schemas is associative: chunks can be folded into the
/// cumulative schema in any grouping, where the middle one has at least the
/// columns of the last (as chunks of one file with a fixed header do).
pub proof fn lemma_positional_assoc(a: Seq<FieldView>, b: Seq<FieldView>, c: Seq<FieldView>)
    requires
        c.len() <= b.len(),
    ensures
        merged_positional(merged_positional(a, b), c) == merged_positional(a, merged_positional(b, c)),
{
    let l = merged_positional(merged_positional(a, b), c);
    let r = merged_positional(a, merged_positional(b, c));
    assert forall|i: int| 0 <= i < l.len() implies l[i] == r[i] by {
        lemma_type_assoc(a[i].data_type, b[i].data_type, c[i].data_type);
    }
    assert(l =~= r);
}

/// Merging a settled schema with itself gives it back.
pub proof fn lemma_positional_idempotent(a: Seq<FieldView>)
    requires
        settled(a),
    ensures
        merged_positional(a, a) == a,
{
    assert(merged_positional(a, a) =~= a);
}

pub open spec fn has_name(s: Seq<FieldView>, name: Seq<char>) -> bool {
    exists|j: int| 0 <= j < s.len() && s[j].name == name
}

pub open spec fn is_first_named(s: Seq<FieldView>, name: Seq<char>, j: int) -> bool {
    0 <= j < s.len() && s[j].name == name && forall|k: int| 0 <= k < j ==> s[k].name != name
}

/// Where the first column called `name` stands in `s`; -1 if none does.
pub open spec fn first_named(s: Seq<FieldView>, name: Seq<char>) -> int {
    if has_name(s, name) {
        choose|j: int| is_first_named(s, name, j)
    } else {
        -1
    }
}

/// A column seen for the first time: a timestamp is taken as a string.
pub open spec fn adopted(f: FieldView) -> FieldView {
    FieldView {
        name: f.name,
        data_type: if f.data_type is Timestamp {
            LogicalType::Utf8
        } else {
            f.data_type
        },
        nullable: f.nullable,
    }
}

/// What a chunk adds: its columns not yet known, in the order of the chunk.
pub open spec fn new_columns(old: Seq<FieldView>, new: Seq<FieldView>) -> Seq<FieldView> {
    new.filter_map(
        |f: FieldView|
            if has_name(old, f.name) {
                None
            } else {
                Some(adopted(f))
            },
    )
}

/// Merge of schemas whose columns are matched by name: each known column is
/// merged with the chunk's column of that name, or kept if the chunk lacks it;
/// then the chunk's new columns follow, in the order first seen.
pub open spec fn merged_by_name(old: Seq<FieldView>, new: Seq<FieldView>) -> Seq<FieldView> {
    Seq::new(
        old.len(),
        |i: int|
            if has_name(new, old[i].name) {
                merged_field(old[i], new[first_named(new, old[i].name)])
            } else {
                old[i]
            },
    ) + new_columns(old, new)
}

proof fn lemma_first_named(s: Seq<FieldView>, name: Seq<char>, j: int)
    requires
        is_first_named(s, name, j),
    ensures
        has_name(s, name),
        first_named(s, name) == j,
{
    let c = choose|c: int| is_first_named(s, name, c);
    assert(is_first_named(s, name, c));
    if c < j {
        assert(s[c].name != name);
    }
    if j < c {
        assert(s[j].name != name);
    }
}

/// Where the first column named like `name` stands in `fields`, if any.
fn find_named(fields: &Vec<Field>, name: &String) -> (r: Option<usize>)
    ensures
        match r {
            Some(j) => is_first_named(fields_view(fields@), name@, j as int),
            None => !has_name(fields_view(fields@), name@),
        },
{
    let ghost v = fields_view(fields@);
    let mut j: usize = 0;
    while j < fields.len()
        invariant
            v == fields_view(fields@),
            j <= fields@.len(),
            forall|k: int| 0 <= k < j ==> v[k].name != name@,
        decreases fields@.len() - j,
    {
        if fields[j].name == *name {
            return Some(j);
        }
        j = j + 1;
    }
    None
}

fn adopt(f: &Field) -> (r: Field)
    ensures
        r@ == adopted(f@),
{
    let data_type = match f.data_type {
        LogicalType::Timestamp(_) => LogicalType::Utf8,
        t => t,
    };
    Field { name: f.name.clone(), data_type, nullable: f.nullable }
}

/// Merges a schema inferred from one chunk into the cumulative one, matching
/// columns by name (for formats whose columns appear as they are first seen).
pub fn merge_by_name(old: &Vec<Field>, new: &Vec<Field>) -> (r: Vec<Field>)
    ensures
        fields_view(r@) == merged_by_name(fields_view(old@), fields_view(new@)),
{
    let ghost ov = fields_view(old@);
    let ghost nv = fields_view(new@);
    let mut r: Vec<Field> = Vec::new();
    let mut i: usize = 0;
    while i < old.len()
        invariant
            ov == fields_view(old@),
            nv == fields_view(new@),
            i <= old@.len(),
            fields_view(r@) =~= merged_by_name(ov, nv).take(i as int),
        decreases old@.len() - i,
    {
        let f = match find_named(new, &old[i].name) {
            Some(j) => {
                proof {
                    lemma_first_named(nv, ov[i as int].name, j as int);
                }
                merge_fields(&old[i], &new[j])
            },
            None => old[i].clone(),
        };
        let ghost prev = r@;
        r.push(f);
        proof {
            assert(fields_view(r@) =~= fields_view(prev).push(f@));
            assert(merged_by_name(ov, nv)[i as int] == f@);
        }
        i = i + 1;
    }
    let mut j: usize = 0;
    while j < new.len()
        invariant
            ov == fields_view(old@),
            nv == fields_view(new@),
            j <= new@.len(),
            fields_view(r@) =~= merged_by_name(ov, nv).take(ov.len() as int) + new_columns(
                ov,
                nv.take(j as int),
            ),
        decreases new@.len() - j,
    {
        let ghost prev = r@;
        proof {
            let t = nv.take(j + 1);
            assert(t.drop_last() =~= nv.take(j as int));
            assert(t.last() == nv[j as int]);
            assert(nv[j as int] == new@[j as int]@);
        }
        if find_named(old, &new[j].name).is_none() {
            let f = adopt(&new[j]);
            r.push(f);
            assert(fields_view(r@) =~= fields_view(prev).push(f@));
        } else {
            assert(fields_view(r@) =~= fields_view(prev));
        }
        j = j + 1;
    }
    assert(nv.take(nv.len() as int) =~= nv);
    r
}

/// No two columns share a name.
pub open spec fn unique_names(s: Seq<FieldView>) -> bool {
    forall|i: int, j: int| 0 <= i < j < s.len() ==> s[i].name != s[j].name
}

/// A chunk whose every column is already known adds none.
proof fn lemma_no_new_columns(old: Seq<FieldView>, new: Seq<FieldView>)
    requires
        forall|j: int| 0 <= j < new.len() ==> has_name(old, #[trigger] new[j].name),
    ensures
        new_columns(old, new) == Seq::<FieldView>::empty(),
    decreases new.len(),
{
    if new.len() > 0 {
        let d = new.drop_last();
        assert forall|j: int| 0 <= j < d.len() implies has_name(old, #[trigger] d[j].name) by {
            assert(d[j] == new[j]);
        }
        lemma_no_new_columns(old, d);
        assert(has_name(old, new[new.len() - 1].name));
    }
}

/// Merging a settled schema with unique names with itself, by name, gives it back.
pub proof fn lemma_by_name_idempotent(a: Seq<FieldView>)
    requires
        settled(a),
        unique_names(a),
    ensures
        merged_by_name(a, a) == a,
{
    assert forall|i: int| 0 <= i < a.len() implies has_name(a, #[trigger] a[i].name) && first_named(a, a[i].name) == i by {
        lemma_first_named(a, a[i].name, i);
    }
    lemma_no_new_columns(a, a);
    assert(merged_by_name(a, a) =~= a);
}

pub open spec fn names(s: Seq<FieldView>) -> Seq<Seq<char>> {
    s.map_values(|f: FieldView| f.name)
}

/// The column of `s` called `n`.
pub open spec fn named(s: Seq<FieldView>, n: Seq<char>) -> FieldView {
    s[first_named(s, n)]
}

/// What a merge by name holds under name `n`.
pub open spec fn merged_under(old: Seq<FieldView>, new: Seq<FieldView>, n: Seq<char>) -> FieldView {
    if has_name(old, n) {
        if has_name(new, n) {
            merged_field(named(old, n), named(new, n))
        } else {
            named(old, n)
        }
    } else {
        adopted(named(new, n))
    }
}

proof fn lemma_has_name_names(s: Seq<FieldView>, n: Seq<char>)
    ensures
        has_name(s, n) == names(s).contains(n),
{
    if has_name(s, n) {
        let j = choose|j: int| 0 <= j < s.len() && s[j].name == n;
        assert(names(s)[j] == n);
    }
    if names(s).contains(n) {
        let j = choose|j: int| 0 <= j < names(s).len() && names(s)[j] == n;
        assert(s[j].name == n);
    }
}

/// A name that occurs has a first occurrence.
proof fn lemma_first_exists(s: Seq<FieldView>, n: Seq<char>)
    requires
        has_name(s, n),
    ensures
        is_first_named(s, n, first_named(s, n)),
    decreases s.len(),
{
    let d = s.drop_last();
    assert forall|k: int| 0 <= k < d.len() implies d[k] == s[k] by {}
    if has_name(d, n) {
        lemma_first_exists(d, n);
        let j = first_named(d, n);
        assert(is_first_named(s, n, j));
        lemma_first_named(s, n, j);
    } else {
        let j0 = choose|j: int| 0 <= j < s.len() && s[j].name == n;
        if j0 < d.len() {
            assert(d[j0].name == n);
        }
        assert(is_first_named(s, n, s.len() - 1));
        lemma_first_named(s, n, s.len() - 1);
    }
}

proof fn lemma_unique_first(s: Seq<FieldView>, i: int)
    requires
        unique_names(s),
        0 <= i < s.len(),
    ensures
        has_name(s, s[i].name),
        first_named(s, s[i].name) == i,
        named(s, s[i].name) == s[i],
{
    lemma_first_named(s, s[i].name, i);
}

/// What a chunk adds: each new column is a first sighting of a column of the
/// chunk that was not known, and their names are those of the chunk less the
/// known ones.
proof fn lemma_new_columns(old: Seq<FieldView>, new: Seq<FieldView>)
    requires
        unique_names(new),
    ensures
        unique_names(new_columns(old, new)),
        names(new_columns(old, new)) == names(new).filter(|n: Seq<char>| !names(old).contains(n)),
        forall|k: int|
            0 <= k < new_columns(old, new).len() ==> {
                let f = #[trigger] new_columns(old, new)[k];
                &&& !has_name(old, f.name)
                &&& has_name(new, f.name)
                &&& f == adopted(named(new, f.name))
            },
    decreases new.len(),
{
    reveal(Seq::filter);
    let q = new_columns(old, new);
    if new.len() == 0 {
        assert(names(q) =~= names(new).filter(|n: Seq<char>| !names(old).contains(n)));
    } else {
        let d = new.drop_last();
        let last = new.last();
        lemma_new_columns(old, d);
        let qd = new_columns(old, d);
        assert(names(new).drop_last() =~= names(d));
        lemma_has_name_names(old, last.name);
        assert forall|k: int| 0 <= k < qd.len() implies {
            let f = #[trigger] qd[k];
            &&& has_name(new, f.name)
            &&& named(new, f.name) == named(d, f.name)
            &&& f.name != last.name
        } by {
            let f = qd[k];
            let j = first_named(d, f.name);
            lemma_first_exists(d, f.name);
            assert(new[j] == d[j]);
            lemma_first_named(new, f.name, j);
            assert(new[new.len() - 1].name != new[j].name);
        }
        lemma_unique_first(new, new.len() - 1);
        if has_name(old, last.name) {
            assert(q == qd);
            assert(names(q) =~= names(new).filter(|n: Seq<char>| !names(old).contains(n)));
        } else {
            assert(q == qd + seq![adopted(last)]);
            assert(names(q) =~= names(qd).push(last.name));
            assert(names(q) =~= names(new).filter(|n: Seq<char>| !names(old).contains(n)));
        }
    }
}

/// The shape of a merge by name of schemas with unique names: names stay
/// unique, known names come first and the chunk's new ones follow in order,
/// and each column is what the merge holds under its name.
proof fn lemma_merged_structure(a: Seq<FieldView>, b: Seq<FieldView>)
    requires
        unique_names(a),
        unique_names(b),
    ensures
        unique_names(merged_by_name(a, b)),
        names(merged_by_name(a, b)) == names(a) + names(b).filter(|n: Seq<char>| !names(a).contains(n)),
        forall|i: int|
            0 <= i < merged_by_name(a, b).len() ==> #[trigger] merged_by_name(a, b)[i] == merged_under(
                a,
                b,
                merged_by_name(a, b)[i].name,
            ),
        forall|n: Seq<char>|
            #[trigger] has_name(merged_by_name(a, b), n) == (has_name(a, n) || has_name(b, n)),
{
    let m = merged_by_name(a, b);
    let q = new_columns(a, b);
    lemma_new_columns(a, b);
    assert forall|i: int| 0 <= i < m.len() implies #[trigger] m[i] == merged_under(a, b, m[i].name) by {
        if i < a.len() {
            lemma_unique_first(a, i);
        } else {
            assert(m[i] == q[i - a.len()]);
        }
    }
    assert forall|i: int, j: int| 0 <= i < j < m.len() implies m[i].name != m[j].name by {
        if j < a.len() {
        } else if i < a.len() {
            assert(m[j] == q[j - a.len()]);
            assert(!has_name(a, q[j - a.len()].name));
        } else {
            assert(m[i] == q[i - a.len()]);
            assert(m[j] == q[j - a.len()]);
        }
    }
    let pn = names(a);
    assert(names(m) =~= names(a) + names(q));
    assert forall|n: Seq<char>| #[trigger] has_name(m, n) == (has_name(a, n) || has_name(b, n)) by {
        if has_name(m, n) {
            let i = choose|i: int| 0 <= i < m.len() && m[i].name == n;
            if i < a.len() {
                assert(a[i].name == n);
            } else {
                assert(m[i] == q[i - a.len()]);
            }
        }
        if has_name(a, n) {
            let i = choose|i: int| 0 <= i < a.len() && a[i].name == n;
            assert(m[i].name == n);
        } else if has_name(b, n) {
            let j = choose|j: int| 0 <= j < b.len() && b[j].name == n;
            lemma_has_name_names(a, n);
            assert(names(b)[j] == n);
            names(b).lemma_filter_contains(|n: Seq<char>| !names(a).contains(n), j);
            assert(names(q).contains(n));
            let k = choose|k: int| 0 <= k < names(q).len() && names(q)[k] == n;
            assert(m[a.len() + k] == q[k]);
        }
    }
}

proof fn lemma_filter_twice(x: Seq<Seq<char>>, p: spec_fn(Seq<char>) -> bool, q: spec_fn(Seq<char>) -> bool, r: spec_fn(Seq<char>) -> bool)
    requires
        forall|n: Seq<char>| #[trigger] p(n) == (q(n) && r(n)),
    ensures
        x.filter(p) == x.filter(q).filter(r),
    decreases x.len(),
{
    reveal(Seq::filter);
    if x.len() > 0 {
        lemma_filter_twice(x.drop_last(), p, q, r);
        let fq = x.filter(q);
        if q(x.last()) {
            assert(fq.drop_last() =~= x.drop_last().filter(q));
            assert(fq.last() == x.last());
        } else {
            assert(fq == x.drop_last().filter(q));
        }
    }
}

proof fn lemma_named_in_merge(a: Seq<FieldView>, b: Seq<FieldView>, n: Seq<char>)
    requires
        unique_names(a),
        unique_names(b),
        has_name(a, n) || has_name(b, n),
    ensures
        has_name(merged_by_name(a, b), n),
        named(merged_by_name(a, b), n) == merged_under(a, b, n),
{
    let m = merged_by_name(a, b);
    lemma_merged_structure(a, b);
    lemma_first_exists(m, n);
    let j = first_named(m, n);
    assert(m[j] == merged_under(a, b, m[j].name));
}

/// Merging by name is associative on schemas with unique names: chunks can be
/// folded into the cumulative schema in any grouping.
pub proof fn lemma_by_name_assoc(a: Seq<FieldView>, b: Seq<FieldView>, c: Seq<FieldView>)
    requires
        unique_names(a),
        unique_names(b),
        unique_names(c),
    ensures
        merged_by_name(merged_by_name(a, b), c) == merged_by_name(a, merged_by_name(b, c)),
{
    let ab = merged_by_name(a, b);
    let bc = merged_by_name(b, c);
    let l = merged_by_name(ab, c);
    let r = merged_by_name(a, bc);
    lemma_merged_structure(a, b);
    lemma_merged_structure(b, c);
    lemma_merged_structure(ab, c);
    lemma_merged_structure(a, bc);
    let na = names(a);
    let nb = names(b);
    let nc = names(c);
    let not_a = |n: Seq<char>| !na.contains(n);
    let not_b = |n: Seq<char>| !nb.contains(n);
    let not_ab = |n: Seq<char>| !names(ab).contains(n);
    assert forall|n: Seq<char>| #[trigger] not_ab(n) == (not_b(n) && not_a(n)) by {
        lemma_has_name_names(ab, n);
        lemma_has_name_names(a, n);
        lemma_has_name_names(b, n);
    }
    lemma_filter_twice(nc, not_ab, not_b, not_a);
    Seq::filter_distributes_over_add(nb, nc.filter(not_b), not_a);
    assert(names(l) =~= names(r));
    assert(l.len() == names(l).len());
    assert forall|i: int| 0 <= i < l.len() implies l[i] == r[i] by {
        assert(names(l)[i] == names(r)[i]);
        let n = l[i].name;
        assert(r[i].name == n);
        assert(l[i] == merged_under(ab, c, n));
        assert(r[i] == merged_under(a, bc, n));
        lemma_has_name_names(l, n);
        assert(has_name(l, n));
        if has_name(a, n) || has_name(b, n) {
            lemma_named_in_merge(a, b, n);
        }
        if has_name(b, n) || has_name(c, n) {
            lemma_named_in_merge(b, c, n);
        }
        lemma_type_assoc(named(a, n).data_type, named(b, n).data_type, named(c, n).data_type);
    }
    assert(l =~= r);
}

} // verus!
