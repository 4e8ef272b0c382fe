//! The columnar table that the loader produces and every check reads.

use vstd::prelude::*;

verus! {

/// The value type inferred for a column when the table is loaded.
///
/// `Unknown` marks a column with no non-null cell to infer from.
#[derive(Clone, Copy, Debug, PartialEq, Eq, Structural)]
pub enum Dtype {
    Integer,
    Float,
    Boolean,
    Text,
    Unknown,
}

/// Mathematical model of a column: its name, its inferred type, and its cells
/// in row order. `None` is a null cell; `Some` holds the raw characters.
pub ghost struct ColumnModel {
    pub name: Seq<char>,
    pub dtype: Dtype,
    pub values: Seq<Option<Seq<char>>>,
}

/// Mathematical model of a table: the row count and the columns in file order.
pub ghost struct TableModel {
    pub row_count: nat,
    pub columns: Seq<ColumnModel>,
}

impl TableModel {
    /// Every column has exactly `row_count` cells, and column names are unique.
    pub open spec fn wf(self) -> bool {
        &&& forall|c: int|
            0 <= c < self.columns.len() ==> (#[trigger] self.columns[c]).values.len()
                == self.row_count
        &&& forall|c1: int, c2: int|
            0 <= c1 < c2 < self.columns.len() ==> self.columns[c1].name != self.columns[c2].name
    }

    /// The cells of row `r`, one per column, in column order.
    pub open spec fn row(self, r: int) -> Seq<Option<Seq<char>>> {
        Seq::new(self.columns.len(), |c: int| self.columns[c].values[r])
    }

    /// Whether some column is named `name`.
    pub open spec fn has_column(self, name: Seq<char>) -> bool {
        exists|c: int| 0 <= c < self.columns.len() && self.columns[c].name == name
    }

    /// The index of the column named `name` (the only one, when `wf` holds).
    pub open spec fn column_index(self, name: Seq<char>) -> int {
        choose|c: int| 0 <= c < self.columns.len() && self.columns[c].name == name
    }
}

/// In a well-formed table, `column_index` returns the index of any column that
/// carries the requested name: the name determines the column.
pub proof fn lemma_column_index_unique(t: TableModel, name: Seq<char>, c: int)
    requires
        t.wf(),
        0 <= c < t.columns.len(),
        t.columns[c].name == name,
    ensures
        t.has_column(name),
        t.column_index(name) == c,
{
    assert(t.has_column(name));
    let picked = t.column_index(name);
    if picked != c {
        if picked < c {
            assert(t.columns[picked].name != t.columns[c].name);
        } else {
            assert(t.columns[c].name != t.columns[picked].name);
        }
    }
}

/// A named, typed sequence of cells; `None` is a null cell.
pub struct Column {
    pub name: String,
    pub dtype: Dtype,
    pub values: Vec<Option<String>>,
}

impl View for Column {
    type V = ColumnModel;

    open spec fn view(&self) -> ColumnModel {
        ColumnModel { name: self.name@, dtype: self.dtype, values: self.values.deep_view() }
    }
}

/// An in-memory table: columns of equal length, built once by the loader and
/// never mutated afterwards.
pub struct Table {
    pub row_count: usize,
    pub columns: Vec<Column>,
}

impl View for Table {
    type V = TableModel;

    open spec fn view(&self) -> TableModel {
        TableModel {
            row_count: self.row_count as nat,
            columns: Seq::new(self.columns.len() as nat, |c: int| self.columns[c]@),
        }
    }
}

} // verus!
