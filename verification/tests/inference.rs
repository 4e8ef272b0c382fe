use mlcheck::load::load;
use mlcheck::summary::summarize;
use mlcheck::table::Dtype;
use mlcheck::table::Table;

fn load_ok(input: &str) -> Table {
    match load(input) {
        Ok(t) => t,
        Err(_) => panic!("expected the input to load"),
    }
}

fn single_column_dtype(input: &str) -> Dtype {
    let t = load_ok(input);
    let s = summarize(&t);
    assert_eq!(s.column_count, 1);
    s.columns[0].dtype
}

#[test]
fn integers_infer_integer() {
    assert_eq!(single_column_dtype("x\n1\n-2\n30\n"), Dtype::Integer);
}

#[test]
fn integers_with_nulls_stay_integer() {
    assert_eq!(single_column_dtype("x\n1\n\n2\n"), Dtype::Integer);
}

#[test]
fn mixed_integers_and_floats_infer_float() {
    assert_eq!(single_column_dtype("x\n1\n2.5\n"), Dtype::Float);
    assert_eq!(single_column_dtype("x\n-0.5\n"), Dtype::Float);
}

#[test]
fn bare_point_forms_are_floats() {
    assert_eq!(single_column_dtype("x\n.5\n"), Dtype::Float);
    assert_eq!(single_column_dtype("x\n5.\n"), Dtype::Float);
    assert_eq!(single_column_dtype("x\n-.5\n"), Dtype::Float);
}

#[test]
fn lone_point_is_not_a_number() {
    assert_eq!(single_column_dtype("x\n.\n"), Dtype::Text);
    assert_eq!(single_column_dtype("x\n-\n"), Dtype::Text);
}

#[test]
fn true_false_infer_boolean() {
    assert_eq!(single_column_dtype("x\ntrue\nfalse\ntrue\n"), Dtype::Boolean);
}

#[test]
fn mixed_content_infers_text() {
    assert_eq!(single_column_dtype("x\ntrue\n1\n"), Dtype::Text);
    assert_eq!(single_column_dtype("x\nhello\n2\n"), Dtype::Text);
}

#[test]
fn all_null_column_is_unknown() {
    assert_eq!(single_column_dtype("x\n\n\n"), Dtype::Unknown);
}

#[test]
fn estimated_memory_counts_widths_and_text() {
    // Two integer columns with three rows: 8 bytes per cell.
    let t = load_ok("a,b\n1,2\n3,4\n5,6\n");
    assert_eq!(summarize(&t).estimated_memory_bytes, 2 * 8 * 3);
    // A text column adds one byte per character on top of its fixed width.
    let t = load_ok("a\nxy\nz\n");
    assert_eq!(summarize(&t).estimated_memory_bytes, 8 * 2 + 3);
    // A boolean column costs one byte per cell.
    let t = load_ok("a\ntrue\nfalse\n");
    assert_eq!(summarize(&t).estimated_memory_bytes, 2);
}
