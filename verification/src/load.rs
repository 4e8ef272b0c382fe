//! The table loader: delimited text with a header row in, a `Table` out.

use vstd::prelude::*;
use crate::infer::infer_dtype;
use crate::infer::infer_dtype_of;
use crate::table::Column;
use crate::table::ColumnModel;
use crate::table::Table;
use crate::table::TableModel;
use crate::text::lines_of;
use crate::text::lemma_split_char_nonempty;
use crate::text::split_char;
use crate::text::split_lines;
use crate::text::split_on;

verus! {

/// Why an input could not be loaded as a table.
#[derive(Clone, Copy, Debug, PartialEq, Eq, Structural)]
pub enum LoadError {
    /// The input has no lines at all, so there is no header row.
    NoHeader,
    /// Two header fields carry the same column name.
    DuplicateColumn,
    /// Some data row does not have exactly one field per column.
    RowWidth,
}

impl LoadError {
    /// A human-readable description of the failure.
    pub fn message(&self) -> (r: String)
        ensures
            *self is NoHeader ==> r@ == "input is empty: no header row"@,
            *self is DuplicateColumn ==> r@ == "duplicate column name in header"@,
            *self is RowWidth ==> r@ == "row with wrong number of fields"@,
    {
        match self {
            LoadError::NoHeader => "input is empty: no header row".to_owned(),
            LoadError::DuplicateColumn => "duplicate column name in header".to_owned(),
            LoadError::RowWidth => "row with wrong number of fields".to_owned(),
        }
    }
}

/// The header fields of `s`: its first line split at commas.
pub open spec fn header_fields(s: Seq<char>) -> Seq<Seq<char>> {
    split_char(split_lines(s)[0], ',')
}

/// How many data rows `s` holds: its lines beyond the header.
pub open spec fn data_row_count(s: Seq<char>) -> int {
    split_lines(s).len() - 1
}

/// The fields of data row `j` (numbered from 0, so line `j + 1` of `s`).
pub open spec fn row_fields(s: Seq<char>, j: int) -> Seq<Seq<char>> {
    split_char(split_lines(s)[j + 1], ',')
}

/// No two header fields of `s` are equal.
pub open spec fn header_unique(s: Seq<char>) -> bool {
    forall|a: int, b: int|
        0 <= a < b < header_fields(s).len() ==> header_fields(s)[a] != header_fields(s)[b]
}

/// Every data row of `s` has exactly one field per header field.
pub open spec fn rows_rectangular(s: Seq<char>) -> bool {
    forall|j: int|
        0 <= j < data_row_count(s) ==> (#[trigger] row_fields(s, j)).len() == header_fields(
            s,
        ).len()
}

/// `s` parses as a table: it has a header line, header names are unique, and
/// every data row is as wide as the header.
pub open spec fn parses(s: Seq<char>) -> bool {
    &&& split_lines(s).len() >= 1
    &&& header_unique(s)
    &&& rows_rectangular(s)
}

/// The cell a raw field denotes: a blank field is a null cell.
pub open spec fn cell_of(field: Seq<char>) -> Option<Seq<char>> {
    if field.len() == 0 {
        None
    } else {
        Some(field)
    }
}

/// The cells of column `c`, one per data row, in row order.
pub open spec fn column_cells(s: Seq<char>, c: int) -> Seq<Option<Seq<char>>> {
    Seq::new(data_row_count(s) as nat, |j: int| cell_of(row_fields(s, j)[c]))
}

/// The table that a parseable input denotes: one column per header field, named
/// by it, holding that field of every data row, with its dtype inferred from
/// those cells.
pub open spec fn loaded_table(s: Seq<char>) -> TableModel {
    TableModel {
        row_count: data_row_count(s) as nat,
        columns: Seq::new(
            header_fields(s).len(),
            |c: int|
                ColumnModel {
                    name: header_fields(s)[c],
                    dtype: infer_dtype(column_cells(s, c)),
                    values: column_cells(s, c),
                },
        ),
    }
}

/// The collected field rows mirror the data rows of `s`, each `width` wide.
spec fn rows_have_fields(rows: Seq<Vec<String>>, s: Seq<char>, width: int) -> bool {
    forall|k: int|
        0 <= k < rows.len() ==> (#[trigger] rows[k]).deep_view() == row_fields(s, k)
            && row_fields(s, k).len() == width
}

/// Loads delimited text with a header row into a `Table`.
///
/// Succeeds exactly on inputs that parse; on failure it reports the first
/// reason in the order: no header line, duplicate header name, misshapen row.
/// Duplicate header names are rejected outright rather than silently renamed:
/// the table keeps column names unique, so looking a column up by name is
/// unambiguous.
pub fn load(input: &str) -> (r: Result<Table, LoadError>)
    ensures
        r is Ok <==> parses(input@),
        r matches Ok(t) ==> t@ == loaded_table(input@) && t@.wf(),
        r matches Ok(t) ==> t@.row_count + 1 == split_lines(input@).len(),
        r matches Err(e) ==> (e is NoHeader <==> split_lines(input@).len() == 0),
        r matches Err(e) ==> (e is DuplicateColumn <==> split_lines(input@).len() >= 1
            && !header_unique(input@)),
        r matches Err(e) ==> (e is RowWidth <==> split_lines(input@).len() >= 1 && header_unique(
            input@,
        ) && !rows_rectangular(input@)),
{
    let lines = lines_of(input);
    let ghost lv = split_lines(input@);
    if lines.len() == 0 {
        return Err(LoadError::NoHeader);
    }
    proof {
        assert(lv.len() == lines@.len());
        assert(lv.len() >= 1);
        assert(lines@[0]@ == lv[0]);
    }
    let header = split_on(lines[0].as_str(), ',');
    let ghost hf = header_fields(input@);
    proof {
        assert(header.deep_view() == hf);
        lemma_split_char_nonempty(lv[0], ',');
    }
    let ncols = header.len();

    let mut a: usize = 0;
    while a < ncols
        invariant
            ncols == hf.len(),
            hf == header_fields(input@),
            lv == split_lines(input@),
            lv.len() >= 1,
            header.deep_view() == hf,
            header@.len() == ncols,
            a <= ncols,
            forall|x: int, y: int| 0 <= x < y < ncols && x < a ==> hf[x] != hf[y],
        decreases ncols - a,
    {
        let mut b: usize = a + 1;
        while b < ncols
            invariant
                ncols == hf.len(),
                hf == header_fields(input@),
                lv == split_lines(input@),
                lv.len() >= 1,
                header.deep_view() == hf,
                header@.len() == ncols,
                a < b <= ncols,
                a < ncols,
                forall|y: int| a < y < b ==> hf[a as int] != hf[y],
            decreases ncols - b,
        {
            proof {
                assert(header@[a as int]@ == hf[a as int]);
                assert(header@[b as int]@ == hf[b as int]);
            }
            if header[a].eq(&header[b]) {
                proof {
                    let ga = a as int;
                    let gb = b as int;
                    assert(header_fields(input@)[ga] == header_fields(input@)[gb]);
                    assert(0 <= ga < gb < header_fields(input@).len());
                    assert(!header_unique(input@));
                }
                return Err(LoadError::DuplicateColumn);
            }
            b = b + 1;
        }
        a = a + 1;
    }
    proof {
        assert(header_unique(input@));
    }

    let nrows = lines.len() - 1;
    let mut rows: Vec<Vec<String>> = Vec::new();
    let mut j: usize = 1;
    while j <= nrows
        invariant
            nrows + 1 == lines@.len(),
            lines.deep_view() == lv,
            lv == split_lines(input@),
            lv.len() >= 1,
            header_unique(input@),
            ncols == hf.len(),
            hf == header_fields(input@),
            1 <= j <= nrows + 1,
            rows@.len() == j - 1,
            rows_have_fields(rows@, input@, ncols as int),
        decreases nrows + 1 - j,
    {
        proof {
            assert(lines@[j as int]@ == lv[j as int]);
        }
        let fields = split_on(lines[j].as_str(), ',');
        proof {
            assert(fields.deep_view() == row_fields(input@, j - 1));
        }
        if fields.len() != ncols {
            proof {
                assert(row_fields(input@, j - 1).len() != hf.len());
                assert(!rows_rectangular(input@));
            }
            return Err(LoadError::RowWidth);
        }
        rows.push(fields);
        j = j + 1;
    }
    proof {
        assert(lv.len() == lines@.len());
        assert(nrows == data_row_count(input@));
        assert forall|k: int|
            0 <= k < data_row_count(input@) implies (#[trigger] row_fields(input@, k)).len()
            == hf.len() by {
            assert(rows@[k].deep_view() == row_fields(input@, k));
        }
        assert(rows_rectangular(input@));
    }

    let mut columns: Vec<Column> = Vec::new();
    let mut c: usize = 0;
    while c < ncols
        invariant
            ncols == hf.len(),
            hf == header_fields(input@),
            header.deep_view() == hf,
            header@.len() == ncols,
            rows@.len() == nrows,
            nrows == data_row_count(input@),
            rows_have_fields(rows@, input@, ncols as int),
            c <= ncols,
            columns@.len() == c,
            forall|x: int| 0 <= x < c ==> (#[trigger] columns@[x])@ == loaded_table(input@).columns[x],
        decreases ncols - c,
    {
        let ghost target = column_cells(input@, c as int);
        let mut vals: Vec<Option<String>> = Vec::new();
        let mut rr: usize = 0;
        while rr < nrows
            invariant
                ncols == hf.len(),
                rows@.len() == nrows,
                nrows == data_row_count(input@),
                c < ncols,
                rows_have_fields(rows@, input@, ncols as int),
                target == column_cells(input@, c as int),
                rr <= nrows,
                vals.deep_view().len() == rr,
                forall|k: int| 0 <= k < rr ==> (#[trigger] vals.deep_view()[k]) == target[k],
            decreases nrows - rr,
        {
            proof {
                assert(rows@[rr as int].deep_view()[c as int] == row_fields(input@, rr as int)[c as int]);
                assert(rows@[rr as int].deep_view()[c as int] == rows@[rr as int]@[c as int]@);
            }
            let row_ref = &rows[rr];
            let field = &row_ref[c];
            let cell: Option<String> = if field.as_str().is_empty() {
                None
            } else {
                Some(field.clone())
            };
            let ghost cell_dv = cell.deep_view();
            let ghost dv_before = vals.deep_view();
            proof {
                assert(cell_dv == cell_of(field@));
                assert(cell_dv == target[rr as int]);
            }
            vals.push(cell);
            proof {
                assert(vals.deep_view() =~= dv_before.push(cell_dv));
            }
            rr = rr + 1;
        }
        proof {
            assert(vals.deep_view() =~= target);
        }
        let dt = infer_dtype_of(&vals);
        proof {
            assert(header@[c as int]@ == hf[c as int]);
        }
        let name = header[c].clone();
        let column = Column { name, dtype: dt, values: vals };
        proof {
            assert(column@ == loaded_table(input@).columns[c as int]);
        }
        columns.push(column);
        c = c + 1;
    }

    let table = Table { row_count: nrows, columns };
    proof {
        assert(table@.columns =~= loaded_table(input@).columns);
        assert(table@ == loaded_table(input@));
        assert(table@.wf()) by {
            let m = loaded_table(input@);
            assert(forall|x: int|
                0 <= x < m.columns.len() ==> (#[trigger] m.columns[x]).values.len()
                    == m.row_count);
            assert(forall|x: int, y: int|
                0 <= x < y < m.columns.len() ==> m.columns[x].name != m.columns[y].name);
        }
    }
    Ok(table)
}

} // verus!
