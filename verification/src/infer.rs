//! The dtype-inference policy: which raw cell texts count as integers, floats
//! or booleans, and how a column's type follows from its non-null cells.

use vstd::prelude::*;
use crate::table::Dtype;
use crate::text::split_char;

verus! {

/// A decimal digit.
pub open spec fn is_digit(c: char) -> bool {
    '0' as u32 <= c as u32 && c as u32 <= '9' as u32
}

/// Every character of `s` is a decimal digit.
pub open spec fn all_digits(s: Seq<char>) -> bool {
    forall|i: int| 0 <= i < s.len() ==> is_digit(#[trigger] s[i])
}

/// `s` with one leading minus sign removed, if it has one.
pub open spec fn unsigned_body(s: Seq<char>) -> Seq<char> {
    if s.len() > 0 && s[0] == '-' {
        s.drop_first()
    } else {
        s
    }
}

/// An integer cell: an optional minus sign followed by one or more digits.
pub open spec fn is_int_token(s: Seq<char>) -> bool {
    unsigned_body(s).len() > 0 && all_digits(unsigned_body(s))
}

/// A floating-point cell: an optional minus sign, then digits with exactly one
/// decimal point among them and at least one digit in all (`1.5`, `-.5`, `2.`).
pub open spec fn is_float_token(s: Seq<char>) -> bool {
    let pieces = split_char(unsigned_body(s), '.');
    &&& pieces.len() == 2
    &&& all_digits(pieces[0])
    &&& all_digits(pieces[1])
    &&& pieces[0].len() + pieces[1].len() >= 1
}

/// A boolean cell: exactly `true` or `false`.
pub open spec fn is_bool_token(s: Seq<char>) -> bool {
    s == "true"@ || s == "false"@
}

/// The column has at least one non-null cell.
pub open spec fn has_value(vs: Seq<Option<Seq<char>>>) -> bool {
    exists|i: int| 0 <= i < vs.len() && (#[trigger] vs[i]) is Some
}

/// Every non-null cell is an integer token.
pub open spec fn cells_all_int(vs: Seq<Option<Seq<char>>>) -> bool {
    forall|i: int|
        0 <= i < vs.len() ==> ((#[trigger] vs[i]) matches Some(v) ==> is_int_token(v))
}

/// Every non-null cell is an integer or floating-point token.
pub open spec fn cells_all_numeric(vs: Seq<Option<Seq<char>>>) -> bool {
    forall|i: int|
        0 <= i < vs.len() ==> ((#[trigger] vs[i]) matches Some(v) ==> is_int_token(v)
            || is_float_token(v))
}

/// Every non-null cell is a boolean token.
pub open spec fn cells_all_bool(vs: Seq<Option<Seq<char>>>) -> bool {
    forall|i: int|
        0 <= i < vs.len() ==> ((#[trigger] vs[i]) matches Some(v) ==> is_bool_token(v))
}

/// The dtype inferred for a column from its cells, decided once at load time:
/// all-integer columns are `Integer`, otherwise numeric columns are `Float`,
/// otherwise all-boolean columns are `Boolean`, anything else is `Text`, and a
/// column with no non-null cell at all is `Unknown`.
pub open spec fn infer_dtype(vs: Seq<Option<Seq<char>>>) -> Dtype {
    if !has_value(vs) {
        Dtype::Unknown
    } else if cells_all_int(vs) {
        Dtype::Integer
    } else if cells_all_numeric(vs) {
        Dtype::Float
    } else if cells_all_bool(vs) {
        Dtype::Boolean
    } else {
        Dtype::Text
    }
}

/// Whether `c` is a decimal digit.
fn digit_char(c: char) -> (b: bool)
    ensures
        b == is_digit(c),
{
    let u = c as u32;
    48 <= u && u <= 57
}

/// Whether every character of `s` is a decimal digit.
fn all_digits_str(s: &str) -> (b: bool)
    ensures
        b == all_digits(s@),
{
    let n = s.unicode_len();
    let mut i: usize = 0;
    while i < n
        invariant
            n == s@.len(),
            i <= n,
            forall|j: int| 0 <= j < i ==> is_digit(#[trigger] s@[j]),
        decreases n - i,
    {
        if !digit_char(s.get_char(i)) {
            return false;
        }
        i = i + 1;
    }
    true
}

/// Whether `s` is an integer token.
pub fn is_int_str(s: &str) -> (b: bool)
    ensures
        b == is_int_token(s@),
{
    let n = s.unicode_len();
    let off: usize = if n > 0 && s.get_char(0) == '-' {
        1
    } else {
        0
    };
    proof {
        assert(unsigned_body(s@) =~= s@.subrange(off as int, n as int));
    }
    if n == off {
        return false;
    }
    let body = s.substring_char(off, n);
    all_digits_str(body)
}

/// Whether `s` is a floating-point token.
pub fn is_float_str(s: &str) -> (b: bool)
    ensures
        b == is_float_token(s@),
{
    let n = s.unicode_len();
    let off: usize = if n > 0 && s.get_char(0) == '-' {
        1
    } else {
        0
    };
    proof {
        assert(unsigned_body(s@) =~= s@.subrange(off as int, n as int));
    }
    let body = s.substring_char(off, n);
    let pieces = crate::text::split_on(body, '.');
    if pieces.len() != 2 {
        return false;
    }
    proof {
        assert(pieces.deep_view()[0] == pieces@[0]@);
        assert(pieces.deep_view()[1] == pieces@[1]@);
    }
    let whole_ok = all_digits_str(pieces[0].as_str());
    let frac_ok = all_digits_str(pieces[1].as_str());
    let whole_len = pieces[0].as_str().unicode_len();
    let frac_len = pieces[1].as_str().unicode_len();
    whole_ok && frac_ok && (whole_len >= 1 || frac_len >= 1)
}

/// Whether `s` is a boolean token.
pub fn is_bool_str(s: &str) -> (b: bool)
    ensures
        b == is_bool_token(s@),
{
    let owned = s.to_owned();
    owned == "true".to_owned() || owned == "false".to_owned()
}

/// Infers the dtype of a column from its cells.
pub fn infer_dtype_of(values: &Vec<Option<String>>) -> (d: Dtype)
    ensures
        d == infer_dtype(values.deep_view()),
{
    let ghost all = values.deep_view();
    let n = values.len();
    let mut seen = false;
    let mut all_int = true;
    let mut all_num = true;
    let mut all_bool = true;
    let mut i: usize = 0;
    while i < n
        invariant
            n == values@.len(),
            all.len() == n,
            all == values.deep_view(),
            i <= n,
            seen == has_value(all.subrange(0, i as int)),
            all_int == cells_all_int(all.subrange(0, i as int)),
            all_num == cells_all_numeric(all.subrange(0, i as int)),
            all_bool == cells_all_bool(all.subrange(0, i as int)),
        decreases n - i,
    {
        let ghost prefix = all.subrange(0, i as int);
        let ghost extended = all.subrange(0, i + 1 as int);
        proof {
            assert(extended =~= prefix.push(all[i as int]));
            assert(all[i as int] == values@[i as int].deep_view());
        }
        match &values[i] {
            Some(cell) => {
                seen = true;
                if all_int || all_num {
                    let int_ok = is_int_str(cell.as_str());
                    if !int_ok {
                        all_int = false;
                        if all_num && !is_float_str(cell.as_str()) {
                            all_num = false;
                        }
                    }
                }
                if all_bool && !is_bool_str(cell.as_str()) {
                    all_bool = false;
                }
                proof {
                    assert(all[i as int] matches Some(v) && v == cell@);
                }
            },
            None => {
                proof {
                    assert(all[i as int] is None);
                }
            },
        }
        proof {
            assert(seen == has_value(extended)) by {
                if seen {
                    if has_value(prefix) {
                        let w = choose|k: int| 0 <= k < prefix.len() && prefix[k] is Some;
                        assert(extended[w] is Some);
                    } else {
                        assert(extended[i as int] is Some);
                    }
                }
            }
            assert(all_int == cells_all_int(extended)) by {
                if all_int {
                    assert(forall|k: int|
                        0 <= k < extended.len() ==> ((#[trigger] extended[k]) matches Some(v)
                            ==> is_int_token(v)));
                } else {
                    if cells_all_int(extended) {
                        assert(forall|k: int|
                            0 <= k < prefix.len() ==> ((#[trigger] prefix[k]) matches Some(v)
                                ==> is_int_token(v)));
                    }
                }
            }
            assert(all_num == cells_all_numeric(extended)) by {
                if all_num {
                    assert(forall|k: int|
                        0 <= k < extended.len() ==> ((#[trigger] extended[k]) matches Some(v)
                            ==> is_int_token(v) || is_float_token(v)));
                } else {
                    if cells_all_numeric(extended) {
                        assert(forall|k: int|
                            0 <= k < prefix.len() ==> ((#[trigger] prefix[k]) matches Some(v)
                                ==> is_int_token(v) || is_float_token(v)));
                    }
                }
            }
            assert(all_bool == cells_all_bool(extended)) by {
                if all_bool {
                    assert(forall|k: int|
                        0 <= k < extended.len() ==> ((#[trigger] extended[k]) matches Some(v)
                            ==> is_bool_token(v)));
                } else {
                    if cells_all_bool(extended) {
                        assert(forall|k: int|
                            0 <= k < prefix.len() ==> ((#[trigger] prefix[k]) matches Some(v)
                                ==> is_bool_token(v)));
                    }
                }
            }
        }
        i = i + 1;
    }
    proof {
        assert(all.subrange(0, n as int) =~= all);
    }
    if !seen {
        Dtype::Unknown
    } else if all_int {
        Dtype::Integer
    } else if all_num {
        Dtype::Float
    } else if all_bool {
        Dtype::Boolean
    } else {
        Dtype::Text
    }
}

} // verus!
