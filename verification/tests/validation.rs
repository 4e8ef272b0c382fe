use mlcheck::load::load;
use mlcheck::load::LoadError;
use mlcheck::quality::duplicate_census;
use mlcheck::quality::missing_values;
use mlcheck::quality::target_census;
use mlcheck::quality::TargetReport;
use mlcheck::summary::summarize;
use mlcheck::table::Dtype;
use mlcheck::table::Table;

const EXAMPLE: &str = "id,age\n1,30\n2,\n2,\n";

fn load_ok(input: &str) -> Table {
    match load(input) {
        Ok(t) => t,
        Err(_) => panic!("expected the input to load"),
    }
}

#[test]
fn example_shape() {
    let t = load_ok(EXAMPLE);
    let s = summarize(&t);
    assert_eq!(s.row_count, 3);
    assert_eq!(s.column_count, 2);
    assert_eq!(s.columns.len(), 2);
    assert_eq!(s.columns[0].name, "id");
    assert_eq!(s.columns[1].name, "age");
    assert_eq!(s.columns[0].dtype, Dtype::Integer);
    assert_eq!(s.columns[1].dtype, Dtype::Integer);
}

#[test]
fn row_count_is_line_count_minus_header() {
    let t = load_ok("h\n10\n20\n30\n40\n");
    assert_eq!(summarize(&t).row_count, 4);
    let no_trailing_newline = load_ok("h\n10\n20");
    assert_eq!(summarize(&no_trailing_newline).row_count, 2);
}

#[test]
fn example_missing_census() {
    let t = load_ok(EXAMPLE);
    let missing = missing_values(&t);
    assert_eq!(missing.len(), 1);
    assert_eq!(missing[0].name, "age");
    assert_eq!(missing[0].null_count, 2);
    assert_eq!(missing[0].percent_tenths, 666);
}

#[test]
fn example_duplicate_census() {
    let t = load_ok(EXAMPLE);
    let dup = duplicate_census(&t);
    assert_eq!(dup.duplicate_rows, 1);
    assert_eq!(dup.percent_tenths, 333);
}

#[test]
fn example_target_census() {
    let t = load_ok(EXAMPLE);
    match target_census(&t, "age") {
        TargetReport::Found { dtype, unique_values, null_count, percent_tenths } => {
            assert_eq!(dtype, Dtype::Integer);
            assert_eq!(unique_values, 1);
            assert_eq!(null_count, 2);
            assert_eq!(percent_tenths, 666);
        }
        TargetReport::NotFound => panic!("age exists"),
    }
}

#[test]
fn absent_target_is_reported_not_fatal() {
    let t = load_ok(EXAMPLE);
    assert_eq!(target_census(&t, "score"), TargetReport::NotFound);
    // The other checks still run and report the same results afterwards.
    let missing = missing_values(&t);
    assert_eq!(missing.len(), 1);
    let dup = duplicate_census(&t);
    assert_eq!(dup.duplicate_rows, 1);
}

#[test]
fn duplicate_census_is_idempotent() {
    let t = load_ok(EXAMPLE);
    let first = duplicate_census(&t);
    let second = duplicate_census(&t);
    assert_eq!(first.duplicate_rows, second.duplicate_rows);
    assert_eq!(first.percent_tenths, second.percent_tenths);
}

#[test]
fn check_order_does_not_change_results() {
    let t = load_ok(EXAMPLE);
    let missing_before = missing_values(&t);
    let dup_before = duplicate_census(&t);
    let target_before = target_census(&t, "age");
    // Same checks, opposite order.
    let target_after = target_census(&t, "age");
    let dup_after = duplicate_census(&t);
    let missing_after = missing_values(&t);
    assert_eq!(missing_before.len(), missing_after.len());
    assert_eq!(missing_before[0].name, missing_after[0].name);
    assert_eq!(missing_before[0].null_count, missing_after[0].null_count);
    assert_eq!(dup_before.duplicate_rows, dup_after.duplicate_rows);
    assert_eq!(target_before, target_after);
}

#[test]
fn missing_total_within_cell_count() {
    let t = load_ok(EXAMPLE);
    let s = summarize(&t);
    let total: usize = missing_values(&t).iter().map(|e| e.null_count).sum();
    assert!(total <= s.row_count * s.column_count);
}

#[test]
fn no_missing_values_yields_empty_census() {
    let t = load_ok("a,b\n1,2\n3,4\n");
    assert!(missing_values(&t).is_empty());
}

#[test]
fn first_occurrence_wins_in_duplicate_census() {
    // Rows alternate between two distinct rows; only the first of each is kept.
    let t = load_ok("x,y\n1,2\n3,4\n1,2\n3,4\n1,2\n");
    let dup = duplicate_census(&t);
    assert_eq!(dup.duplicate_rows, 3);
    assert_eq!(dup.percent_tenths, 600);
}

#[test]
fn null_cells_compare_equal_in_duplicate_census() {
    let t = load_ok("x,y\n,\n,\n");
    assert_eq!(duplicate_census(&t).duplicate_rows, 1);
}

#[test]
fn empty_input_has_no_header() {
    match load("") {
        Err(LoadError::NoHeader) => {}
        _ => panic!("empty input must fail for want of a header"),
    }
}

#[test]
fn duplicate_header_is_rejected() {
    match load("a,a\n1,2\n") {
        Err(LoadError::DuplicateColumn) => {}
        _ => panic!("duplicate column names must be rejected"),
    }
}

#[test]
fn misshapen_row_is_rejected() {
    match load("a,b\n1\n") {
        Err(LoadError::RowWidth) => {}
        _ => panic!("a narrow row must be rejected"),
    }
}

#[test]
fn zero_row_table_is_handled() {
    let t = load_ok("id,age\n");
    let s = summarize(&t);
    assert_eq!(s.row_count, 0);
    assert_eq!(s.column_count, 2);
    assert!(missing_values(&t).is_empty());
    let dup = duplicate_census(&t);
    assert_eq!(dup.duplicate_rows, 0);
    assert_eq!(dup.percent_tenths, 0);
    match target_census(&t, "age") {
        TargetReport::Found { dtype, unique_values, null_count, percent_tenths } => {
            assert_eq!(dtype, Dtype::Unknown);
            assert_eq!(unique_values, 0);
            assert_eq!(null_count, 0);
            assert_eq!(percent_tenths, 0);
        }
        TargetReport::NotFound => panic!("age exists"),
    }
}

#[test]
fn load_error_messages_name_the_failure() {
    assert_eq!(
        LoadError::NoHeader.message(),
        "input is empty: no header row"
    );
    assert_eq!(
        LoadError::DuplicateColumn.message(),
        "duplicate column name in header"
    );
    assert_eq!(LoadError::RowWidth.message(), "row with wrong number of fields");
}
