//! The quality checker: missing-value census, duplicate-row census, and
//! target-column census. The three checks are independent reads of the table.

use vstd::prelude::*;
use vstd::arithmetic::mul::lemma_mul_is_distributive_add;
use crate::table::ColumnModel;
use crate::table::Dtype;
use crate::table::Table;
use crate::table::TableModel;
use crate::table::lemma_column_index_unique;

verus! {

/// How many cells of a column are null.
pub open spec fn null_count(vs: Seq<Option<Seq<char>>>) -> nat
    decreases vs.len(),
{
    if vs.len() == 0 {
        0
    } else {
        null_count(vs.drop_last()) + if vs.last() is None {
            1nat
        } else {
            0nat
        }
    }
}

/// A column never holds more nulls than cells.
pub proof fn lemma_null_count_le(vs: Seq<Option<Seq<char>>>)
    ensures
        null_count(vs) <= vs.len(),
    decreases vs.len(),
{
    if vs.len() > 0 {
        lemma_null_count_le(vs.drop_last());
    }
}

/// `part` out of `total` in tenths of a percent, rounded down; defined as 0
/// when there is nothing to take a share of.
pub open spec fn pct_tenths(part: int, total: int) -> int {
    if total <= 0 {
        0
    } else {
        part * 1000 / total
    }
}

/// Counts the nulls of one column.
fn null_count_of(values: &Vec<Option<String>>) -> (r: usize)
    ensures
        r == null_count(values.deep_view()),
{
    let ghost all = values.deep_view();
    let n = values.len();
    let mut count: usize = 0;
    let mut i: usize = 0;
    while i < n
        invariant
            n == values@.len(),
            all == values.deep_view(),
            all.len() == n,
            i <= n,
            count <= i,
            count == null_count(all.subrange(0, i as int)),
        decreases n - i,
    {
        let ghost prefix = all.subrange(0, i as int);
        let ghost extended = all.subrange(0, i + 1 as int);
        proof {
            assert(extended.drop_last() =~= prefix);
            assert(extended.last() == all[i as int]);
            assert(all[i as int] == values@[i as int].deep_view());
        }
        match &values[i] {
            None => {
                count = count + 1;
            },
            Some(_) => {},
        }
        i = i + 1;
    }
    proof {
        assert(all.subrange(0, n as int) =~= all);
    }
    count
}

/// Computes `part` out of `total` in tenths of a percent, rounded down.
fn pct_tenths_of(part: usize, total: usize) -> (r: u64)
    requires
        part <= total,
    ensures
        r == pct_tenths(part as int, total as int),
        r <= 1000,
{
    if total == 0 {
        0
    } else {
        proof {
            assert((part as u128) * 1000 <= u128::MAX) by (nonlinear_arith)
                requires
                    part <= u64::MAX,
            ;
            assert(part as int * 1000 / (total as int) <= 1000) by (nonlinear_arith)
                requires
                    0 < total as int,
                    part as int <= total as int,
            ;
        }
        ((part as u128) * 1000 / (total as u128)) as u64
    }
}

/// One line of the missing-value census: a column with at least one null.
pub struct MissingEntry {
    pub name: String,
    pub null_count: usize,
    pub percent_tenths: u64,
}

/// The missing-value census of a column sequence: for each column with at
/// least one null cell, in column order, its name and null count.
pub open spec fn missing_model(cols: Seq<ColumnModel>) -> Seq<(Seq<char>, nat)>
    decreases cols.len(),
{
    if cols.len() == 0 {
        Seq::empty()
    } else {
        missing_model(cols.drop_last()) + if null_count(cols.last().values) > 0 {
            seq![(cols.last().name, null_count(cols.last().values))]
        } else {
            Seq::empty()
        }
    }
}

/// Runs the missing-value census: one entry per column with nulls, in column
/// order, with the column's null count and its share of the rows. A table
/// without nulls (in particular a zero-row table) yields no entries.
pub fn missing_values(t: &Table) -> (r: Vec<MissingEntry>)
    requires
        t@.wf(),
    ensures
        r@.len() == missing_model(t@.columns).len(),
        forall|i: int|
            0 <= i < r@.len() ==> {
                &&& (#[trigger] r@[i]).name@ == missing_model(t@.columns)[i].0
                &&& r@[i].null_count == missing_model(t@.columns)[i].1
                &&& r@[i].percent_tenths == pct_tenths(
                    missing_model(t@.columns)[i].1 as int,
                    t@.row_count as int,
                )
            },
{
    let ghost cols = t@.columns;
    let n = t.columns.len();
    let mut out: Vec<MissingEntry> = Vec::new();
    let mut c: usize = 0;
    while c < n
        invariant
            t@.wf(),
            n == t.columns@.len(),
            cols == t@.columns,
            cols.len() == n,
            c <= n,
            out@.len() == missing_model(cols.subrange(0, c as int)).len(),
            forall|i: int|
                0 <= i < out@.len() ==> {
                    &&& (#[trigger] out@[i]).name@ == missing_model(cols.subrange(0, c as int))[i].0
                    &&& out@[i].null_count == missing_model(cols.subrange(0, c as int))[i].1
                    &&& out@[i].percent_tenths == pct_tenths(
                        missing_model(cols.subrange(0, c as int))[i].1 as int,
                        t@.row_count as int,
                    )
                },
        decreases n - c,
    {
        let ghost prefix = cols.subrange(0, c as int);
        let ghost extended = cols.subrange(0, c + 1 as int);
        proof {
            assert(extended.drop_last() =~= prefix);
            assert(extended.last() == cols[c as int]);
            assert(cols[c as int] == t.columns@[c as int]@);
            assert(cols[c as int].values.len() == t@.row_count);
            lemma_null_count_le(cols[c as int].values);
        }
        let column = &t.columns[c];
        let nulls = null_count_of(&column.values);
        if nulls > 0 {
            let share = pct_tenths_of(nulls, t.row_count);
            out.push(
                MissingEntry { name: column.name.clone(), null_count: nulls, percent_tenths: share },
            );
            proof {
                assert(missing_model(extended) =~= missing_model(prefix) + seq![
                    (cols[c as int].name, null_count(cols[c as int].values)),
                ]);
            }
        } else {
            proof {
                assert(missing_model(extended) =~= missing_model(prefix));
            }
        }
        c = c + 1;
    }
    proof {
        assert(cols.subrange(0, n as int) =~= cols);
    }
    out
}

/// The total null count reported by a missing-value census.
pub open spec fn missing_total(entries: Seq<(Seq<char>, nat)>) -> nat
    decreases entries.len(),
{
    if entries.len() == 0 {
        0
    } else {
        missing_total(entries.drop_last()) + entries.last().1
    }
}

/// The census total over every column whose cells all have length `row_count`
/// is at most `row_count` nulls per column.
proof fn lemma_missing_total_bounded_cols(cols: Seq<ColumnModel>, row_count: nat)
    requires
        forall|c: int| 0 <= c < cols.len() ==> (#[trigger] cols[c]).values.len() == row_count,
    ensures
        missing_total(missing_model(cols)) <= row_count * cols.len(),
    decreases cols.len(),
{
    if cols.len() == 0 {
    } else {
        let init = cols.drop_last();
        lemma_missing_total_bounded_cols(init, row_count);
        lemma_null_count_le(cols.last().values);
        if null_count(cols.last().values) > 0 {
            let entry = (cols.last().name, null_count(cols.last().values));
            assert(missing_model(cols) == missing_model(init) + seq![entry]);
            assert((missing_model(init) + seq![entry]).drop_last() =~= missing_model(init));
            assert((missing_model(init) + seq![entry]).last() == entry);
        } else {
            assert(missing_model(cols) =~= missing_model(init));
        }
        lemma_mul_is_distributive_add(row_count as int, cols.len() - 1, 1);
    }
}

/// The nulls reported by the missing-value census, summed over its entries,
/// never exceed the table's cell count (`row_count` times the column count).
pub proof fn lemma_missing_total_bounded(t: TableModel)
    requires
        t.wf(),
    ensures
        missing_total(missing_model(t.columns)) <= t.row_count * t.columns.len(),
{
    lemma_missing_total_bounded_cols(t.columns, t.row_count);
}

/// Row `i` repeats an earlier row: some row before it holds, column for
/// column, exactly the same cells (nulls equal to nulls).
pub open spec fn row_is_duplicate(t: TableModel, i: int) -> bool {
    exists|j: int| 0 <= j < i && t.row(j) == t.row(i)
}

/// How many of the first `upto` rows repeat an earlier row. The first
/// occurrence of each distinct row is never counted: only later repeats are.
pub open spec fn duplicate_count(t: TableModel, upto: int) -> nat
    decreases upto,
{
    if upto <= 0 {
        0
    } else {
        duplicate_count(t, upto - 1) + if row_is_duplicate(t, upto - 1) {
            1nat
        } else {
            0nat
        }
    }
}

/// How many of the first `upto` rows are the first occurrence of their
/// contents: the rows a deduplication that keeps first occurrences would keep.
pub open spec fn distinct_row_count(t: TableModel, upto: int) -> nat
    decreases upto,
{
    if upto <= 0 {
        0
    } else {
        distinct_row_count(t, upto - 1) + if row_is_duplicate(t, upto - 1) {
            0nat
        } else {
            1nat
        }
    }
}

/// Every row is either the first occurrence of its contents or a repeat of an
/// earlier one: the duplicate count is the row count less the distinct count.
pub proof fn lemma_duplicates_complement_distinct(t: TableModel, upto: int)
    requires
        upto >= 0,
    ensures
        duplicate_count(t, upto) + distinct_row_count(t, upto) == upto,
    decreases upto,
{
    if upto > 0 {
        lemma_duplicates_complement_distinct(t, upto - 1);
    }
}

/// The duplicate-row census: how many rows repeat an earlier one, and their
/// share of all rows.
pub struct DuplicateReport {
    pub duplicate_rows: usize,
    pub percent_tenths: u64,
}

/// Whether two cells hold the same value (null equals null).
fn cell_eq(a: &Option<String>, b: &Option<String>) -> (r: bool)
    ensures
        r == (a.deep_view() == b.deep_view()),
{
    match (a, b) {
        (None, None) => true,
        (Some(x), Some(y)) => x.eq(y),
        _ => false,
    }
}

/// Whether rows `a` and `b` of the table hold the same cells.
fn row_eq(t: &Table, a: usize, b: usize) -> (r: bool)
    requires
        t@.wf(),
        a < t@.row_count,
        b < t@.row_count,
    ensures
        r == (t@.row(a as int) == t@.row(b as int)),
{
    let n = t.columns.len();
    let mut c: usize = 0;
    while c < n
        invariant
            t@.wf(),
            a < t@.row_count,
            b < t@.row_count,
            n == t.columns@.len(),
            c <= n,
            forall|k: int| 0 <= k < c ==> t@.row(a as int)[k] == t@.row(b as int)[k],
        decreases n - c,
    {
        let column = &t.columns[c];
        proof {
            assert(t@.columns[c as int] == t.columns@[c as int]@);
            assert(t@.columns[c as int].values.len() == t@.row_count);
            assert(column.values@.len() == column@.values.len());
            assert(column@.values[a as int] == column.values@[a as int].deep_view());
            assert(column@.values[b as int] == column.values@[b as int].deep_view());
        }
        if !cell_eq(&column.values[a], &column.values[b]) {
            proof {
                assert(t@.row(a as int)[c as int] != t@.row(b as int)[c as int]);
            }
            return false;
        }
        proof {
            assert(t@.row(a as int)[c as int] == t@.row(b as int)[c as int]);
        }
        c = c + 1;
    }
    proof {
        assert(t@.row(a as int) =~= t@.row(b as int));
    }
    true
}

/// Runs the duplicate-row census: counts the rows that repeat an earlier row
/// (first occurrences win and are not counted) and their share of all rows.
pub fn duplicate_census(t: &Table) -> (r: DuplicateReport)
    requires
        t@.wf(),
    ensures
        r.duplicate_rows == duplicate_count(t@, t@.row_count as int),
        r.percent_tenths == pct_tenths(
            duplicate_count(t@, t@.row_count as int) as int,
            t@.row_count as int,
        ),
{
    let n = t.row_count;
    let mut count: usize = 0;
    let mut i: usize = 0;
    while i < n
        invariant
            t@.wf(),
            n == t@.row_count,
            i <= n,
            count <= i,
            count == duplicate_count(t@, i as int),
        decreases n - i,
    {
        let mut found = false;
        let mut j: usize = 0;
        while j < i
            invariant
                t@.wf(),
                n == t@.row_count,
                i < n,
                j <= i,
                found == exists|k: int| 0 <= k < j && t@.row(k) == t@.row(i as int),
            decreases i - j,
        {
            if row_eq(t, j, i) {
                found = true;
            }
            j = j + 1;
        }
        proof {
            assert(found == row_is_duplicate(t@, i as int));
        }
        if found {
            count = count + 1;
        }
        i = i + 1;
    }
    let share = pct_tenths_of(count, n);
    DuplicateReport { duplicate_rows: count, percent_tenths: share }
}

/// Whether the value of cell `i` already occurs among the first `i` cells.
pub open spec fn value_seen_before(vs: Seq<Option<Seq<char>>>, i: int) -> bool {
    exists|j: int| 0 <= j < i && vs[j] == vs[i]
}

/// How many distinct non-null values the first `upto` cells hold: each cell
/// counts when it is non-null and its value has not occurred before it.
pub open spec fn distinct_non_null(vs: Seq<Option<Seq<char>>>, upto: int) -> nat
    decreases upto,
{
    if upto <= 0 {
        0
    } else {
        distinct_non_null(vs, upto - 1) + if vs[upto - 1] is Some && !value_seen_before(
            vs,
            upto - 1,
        ) {
            1nat
        } else {
            0nat
        }
    }
}

/// The set of values held by the non-null cells among the first `upto` cells.
pub open spec fn non_null_values(vs: Seq<Option<Seq<char>>>, upto: int) -> Set<Seq<char>>
    decreases upto,
{
    if upto <= 0 {
        Set::empty()
    } else {
        let rest = non_null_values(vs, upto - 1);
        match vs[upto - 1] {
            Some(v) => rest.insert(v),
            None => rest,
        }
    }
}

/// A value is in `non_null_values` exactly when some cell before `upto` holds it.
proof fn lemma_non_null_values_membership(vs: Seq<Option<Seq<char>>>, upto: int, v: Seq<char>)
    ensures
        non_null_values(vs, upto).contains(v) <==> exists|j: int|
            0 <= j < upto && vs[j] == Some(v),
    decreases upto,
{
    broadcast use vstd::set::group_set_axioms;

    if upto > 0 {
        lemma_non_null_values_membership(vs, upto - 1, v);
        if non_null_values(vs, upto).contains(v) && !(vs[upto - 1] == Some(v)) {
            assert(non_null_values(vs, upto - 1).contains(v));
        }
        if exists|j: int| 0 <= j < upto && vs[j] == Some(v) {
            let j = choose|j: int| 0 <= j < upto && vs[j] == Some(v);
            if j < upto - 1 {
                assert(non_null_values(vs, upto - 1).contains(v));
            }
        }
    }
}

/// Counting cells whose value has not occurred before counts each distinct
/// non-null value exactly once: `distinct_non_null` equals the cardinality of
/// the set of values the column's non-null cells hold.
pub proof fn lemma_distinct_counts_value_set(vs: Seq<Option<Seq<char>>>, upto: int)
    ensures
        non_null_values(vs, upto).finite(),
        distinct_non_null(vs, upto) == non_null_values(vs, upto).len(),
    decreases upto,
{
    broadcast use vstd::set::group_set_axioms;

    if upto > 0 {
        lemma_distinct_counts_value_set(vs, upto - 1);
        let rest = non_null_values(vs, upto - 1);
        match vs[upto - 1] {
            Some(v) => {
                lemma_non_null_values_membership(vs, upto - 1, v);
                if value_seen_before(vs, upto - 1) {
                    assert(rest.contains(v));
                    assert(rest.insert(v).len() == rest.len());
                } else {
                    assert(!rest.contains(v));
                    assert(rest.insert(v).len() == rest.len() + 1);
                }
            },
            None => {},
        }
    }
}

/// Counts the distinct non-null values of one column.
fn distinct_non_null_of(values: &Vec<Option<String>>) -> (r: usize)
    ensures
        r == distinct_non_null(values.deep_view(), values.deep_view().len() as int),
{
    let ghost all = values.deep_view();
    let n = values.len();
    let mut count: usize = 0;
    let mut i: usize = 0;
    while i < n
        invariant
            n == values@.len(),
            all == values.deep_view(),
            all.len() == n,
            i <= n,
            count <= i,
            count == distinct_non_null(all, i as int),
        decreases n - i,
    {
        proof {
            assert(all[i as int] == values@[i as int].deep_view());
        }
        let is_value = match &values[i] {
            Some(_) => true,
            None => false,
        };
        if is_value {
            let mut seen = false;
            let mut j: usize = 0;
            while j < i
                invariant
                    n == values@.len(),
                    all == values.deep_view(),
                    all.len() == n,
                    i < n,
                    j <= i,
                    seen == exists|k: int| 0 <= k < j && all[k] == all[i as int],
                decreases i - j,
            {
                proof {
                    assert(all[j as int] == values@[j as int].deep_view());
                }
                if cell_eq(&values[j], &values[i]) {
                    seen = true;
                }
                j = j + 1;
            }
            proof {
                assert(seen == value_seen_before(all, i as int));
            }
            if !seen {
                count = count + 1;
            }
        }
        i = i + 1;
    }
    count
}

/// The target-column census: either the requested name is absent, or the
/// column's dtype, distinct non-null value count, null count, and null share.
#[derive(Clone, Copy, Debug, PartialEq, Eq, Structural)]
pub enum TargetReport {
    NotFound,
    Found { dtype: Dtype, unique_values: usize, null_count: usize, percent_tenths: u64 },
}

/// What the target-column census reports for `name`: nothing when no column
/// carries the name, else the column's dtype, distinct non-null value count,
/// and null count.
pub open spec fn target_model(t: TableModel, name: Seq<char>) -> Option<(Dtype, nat, nat)> {
    if t.has_column(name) {
        let column = t.columns[t.column_index(name)];
        Some(
            (
                column.dtype,
                distinct_non_null(column.values, column.values.len() as int),
                null_count(column.values),
            ),
        )
    } else {
        None
    }
}

/// Runs the target-column census. An absent name is a reported condition, not
/// a failure: the census returns the explicit `NotFound` marker.
pub fn target_census(t: &Table, name: &str) -> (r: TargetReport)
    requires
        t@.wf(),
    ensures
        r is NotFound <==> !t@.has_column(name@),
        target_model(t@, name@) matches Some(m) ==> {
            &&& r matches TargetReport::Found { dtype, unique_values, null_count: nulls, percent_tenths }
            &&& dtype == m.0
            &&& unique_values == m.1
            &&& nulls == m.2
            &&& percent_tenths == pct_tenths(m.2 as int, t@.row_count as int)
        },
{
    let owned = name.to_owned();
    let n = t.columns.len();
    let mut c: usize = 0;
    while c < n
        invariant
            t@.wf(),
            owned@ == name@,
            n == t.columns@.len(),
            c <= n,
            forall|k: int| 0 <= k < c ==> (#[trigger] t@.columns[k]).name != name@,
        decreases n - c,
    {
        proof {
            assert(t@.columns[c as int] == t.columns@[c as int]@);
        }
        let column = &t.columns[c];
        if column.name.eq(&owned) {
            proof {
                lemma_column_index_unique(t@, name@, c as int);
                assert(t@.columns[c as int].values.len() == t@.row_count);
                lemma_null_count_le(t@.columns[c as int].values);
            }
            let nulls = null_count_of(&column.values);
            let unique = distinct_non_null_of(&column.values);
            let share = pct_tenths_of(nulls, t.row_count);
            return TargetReport::Found {
                dtype: column.dtype,
                unique_values: unique,
                null_count: nulls,
                percent_tenths: share,
            };
        }
        c = c + 1;
    }
    proof {
        assert(!t@.has_column(name@));
    }
    TargetReport::NotFound
}

/// Running the duplicate-row census twice over the same table yields the same
/// count: the census is a function of the table model alone, which a second,
/// row-preserving validation pass leaves unchanged.
pub proof fn lemma_duplicate_census_idempotent(t: TableModel, first: nat, second: nat)
    requires
        first == duplicate_count(t, t.row_count as int),
        second == duplicate_count(t, t.row_count as int),
    ensures
        first == second,
{
}

/// The three checks are order-independent: each census result equals a
/// function of the table model (and, for the target census, the requested
/// name) alone, as the censuses' contracts state. Two runs of the same check
/// over the same table therefore agree, whatever ran in between and in
/// whatever order the checks were taken.
pub proof fn lemma_checks_order_independent(
    t: TableModel,
    name: Seq<char>,
    missing_first: Seq<(Seq<char>, nat)>,
    missing_second: Seq<(Seq<char>, nat)>,
    dup_first: nat,
    dup_second: nat,
    target_first: Option<(Dtype, nat, nat)>,
    target_second: Option<(Dtype, nat, nat)>,
)
    requires
        missing_first == missing_model(t.columns),
        missing_second == missing_model(t.columns),
        dup_first == duplicate_count(t, t.row_count as int),
        dup_second == duplicate_count(t, t.row_count as int),
        target_first == target_model(t, name),
        target_second == target_model(t, name),
    ensures
        missing_first == missing_second,
        dup_first == dup_second,
        target_first == target_second,
{
}

} // verus!
