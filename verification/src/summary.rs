//! The summary computer: shape and estimated memory footprint of a table.

use vstd::prelude::*;
use crate::table::ColumnModel;
use crate::table::Dtype;
use crate::table::Table;

verus! {

/// The fixed per-cell byte width assumed for each dtype. Text columns add the
/// length of their cell texts on top (see `column_memory`).
pub open spec fn dtype_width(d: Dtype) -> nat {
    match d {
        Dtype::Integer => 8,
        Dtype::Float => 8,
        Dtype::Boolean => 1,
        Dtype::Text => 8,
        Dtype::Unknown => 1,
    }
}

/// How many characters a cell holds (a null cell holds none).
pub open spec fn cell_chars(v: Option<Seq<char>>) -> nat {
    match v {
        Some(s) => s.len(),
        None => 0,
    }
}

/// The total characters held by a column's cells.
pub open spec fn text_chars(vs: Seq<Option<Seq<char>>>) -> nat
    decreases vs.len(),
{
    if vs.len() == 0 {
        0
    } else {
        text_chars(vs.drop_last()) + cell_chars(vs.last())
    }
}

/// The estimated bytes a column occupies: a fixed width per cell, plus, for a
/// text column, one byte per character of its cell texts. An estimate by
/// design, not a measurement.
pub open spec fn column_memory(c: ColumnModel) -> nat {
    dtype_width(c.dtype) * c.values.len() + if c.dtype is Text {
        text_chars(c.values)
    } else {
        0
    }
}

/// The estimated bytes a whole table occupies: the sum over its columns.
pub open spec fn table_memory(cols: Seq<ColumnModel>) -> nat
    decreases cols.len(),
{
    if cols.len() == 0 {
        0
    } else {
        table_memory(cols.drop_last()) + column_memory(cols.last())
    }
}

/// `n` clamped to what a `u64` can hold.
pub open spec fn clamp64(n: int) -> int {
    if n > u64::MAX {
        u64::MAX as int
    } else {
        n
    }
}

/// Saturating 64-bit addition.
fn sat_add64(a: u64, b: u64) -> (r: u64)
    ensures
        r == clamp64(a + b),
{
    if a > u64::MAX - b {
        u64::MAX
    } else {
        a + b
    }
}

/// Saturating 64-bit multiplication.
fn sat_mul64(a: u64, b: u64) -> (r: u64)
    ensures
        r == clamp64(a as int * b as int),
{
    proof {
        assert((a as u128) * (b as u128) <= u128::MAX) by (nonlinear_arith)
            requires
                a <= u64::MAX,
                b <= u64::MAX,
        ;
    }
    let wide = (a as u128) * (b as u128);
    if wide > u64::MAX as u128 {
        u64::MAX
    } else {
        wide as u64
    }
}

/// The total characters held by a column's cells, clamped to a `u64`.
fn text_chars_of(values: &Vec<Option<String>>) -> (r: u64)
    ensures
        r == clamp64(text_chars(values.deep_view()) as int),
{
    let ghost all = values.deep_view();
    let n = values.len();
    let mut acc: u64 = 0;
    let mut i: usize = 0;
    while i < n
        invariant
            n == values@.len(),
            all == values.deep_view(),
            all.len() == n,
            i <= n,
            acc == clamp64(text_chars(all.subrange(0, i as int)) as int),
        decreases n - i,
    {
        let ghost prefix = all.subrange(0, i as int);
        let ghost extended = all.subrange(0, i + 1 as int);
        proof {
            assert(extended.drop_last() =~= prefix);
            assert(extended.last() == all[i as int]);
            assert(all[i as int] == values@[i as int].deep_view());
        }
        let step: u64 = match &values[i] {
            Some(s) => s.as_str().unicode_len() as u64,
            None => 0,
        };
        proof {
            assert(step == cell_chars(all[i as int]));
        }
        acc = sat_add64(acc, step);
        i = i + 1;
    }
    proof {
        assert(all.subrange(0, n as int) =~= all);
    }
    acc
}

/// The estimated bytes of one column, clamped to a `u64`.
fn column_memory_of(column: &crate::table::Column) -> (r: u64)
    ensures
        r == clamp64(column_memory(column@) as int),
{
    let width: u64 = match column.dtype {
        Dtype::Integer => 8,
        Dtype::Float => 8,
        Dtype::Boolean => 1,
        Dtype::Text => 8,
        Dtype::Unknown => 1,
    };
    let base = sat_mul64(width, column.values.len() as u64);
    match column.dtype {
        Dtype::Text => sat_add64(base, text_chars_of(&column.values)),
        _ => base,
    }
}

/// A column's name and dtype, as the summary lists them.
pub struct ColumnInfo {
    pub name: String,
    pub dtype: Dtype,
}

/// Mathematical model of a summary line: the column name and its dtype.
pub ghost struct ColumnInfoModel {
    pub name: Seq<char>,
    pub dtype: Dtype,
}

impl View for ColumnInfo {
    type V = ColumnInfoModel;

    open spec fn view(&self) -> ColumnInfoModel {
        ColumnInfoModel { name: self.name@, dtype: self.dtype }
    }
}

/// A read-only snapshot of a table's shape: row and column counts, estimated
/// memory, and the `(name, dtype)` pair of every column in table order.
pub struct SummaryReport {
    pub row_count: usize,
    pub column_count: usize,
    pub estimated_memory_bytes: u64,
    pub columns: Vec<ColumnInfo>,
}

/// Computes the summary of a table. Pure: no failure modes, any table accepted.
pub fn summarize(t: &Table) -> (r: SummaryReport)
    ensures
        r.row_count == t@.row_count,
        r.column_count == t@.columns.len(),
        r.estimated_memory_bytes == clamp64(table_memory(t@.columns) as int),
        r.columns@.len() == t@.columns.len(),
        forall|i: int|
            0 <= i < t@.columns.len() ==> (#[trigger] r.columns@[i])@.name == t@.columns[i].name
                && r.columns@[i]@.dtype == t@.columns[i].dtype,
{
    let ghost cols = t@.columns;
    let n = t.columns.len();
    let mut memory: u64 = 0;
    let mut infos: Vec<ColumnInfo> = Vec::new();
    let mut i: usize = 0;
    while i < n
        invariant
            n == t.columns@.len(),
            cols == t@.columns,
            cols.len() == n,
            i <= n,
            memory == clamp64(table_memory(cols.subrange(0, i as int)) as int),
            infos@.len() == i,
            forall|k: int|
                0 <= k < i ==> (#[trigger] infos@[k])@.name == cols[k].name && infos@[k]@.dtype
                    == cols[k].dtype,
        decreases n - i,
    {
        let ghost prefix = cols.subrange(0, i as int);
        let ghost extended = cols.subrange(0, i + 1 as int);
        proof {
            assert(extended.drop_last() =~= prefix);
            assert(extended.last() == cols[i as int]);
            assert(cols[i as int] == t.columns@[i as int]@);
        }
        let column = &t.columns[i];
        let part = column_memory_of(column);
        memory = sat_add64(memory, part);
        infos.push(ColumnInfo { name: column.name.clone(), dtype: column.dtype });
        i = i + 1;
    }
    proof {
        assert(cols.subrange(0, n as int) =~= cols);
    }
    SummaryReport {
        row_count: t.row_count,
        column_count: n,
        estimated_memory_bytes: memory,
        columns: infos,
    }
}

} // verus!
