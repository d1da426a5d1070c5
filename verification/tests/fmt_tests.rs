//! Exact expected values for the verified decimal formatting.

use battchart::fmt::{fmt_fixed2, fmt_i64, fmt_label, fmt_u64};

#[test]
fn unsigned_numerals() {
    assert_eq!(fmt_u64(0), "0");
    assert_eq!(fmt_u64(7), "7");
    assert_eq!(fmt_u64(10), "10");
    assert_eq!(fmt_u64(90210), "90210");
}

#[test]
fn signed_numerals() {
    assert_eq!(fmt_i64(0), "0");
    assert_eq!(fmt_i64(-1), "-1");
    assert_eq!(fmt_i64(-405), "-405");
    assert_eq!(fmt_i64(12), "12");
}

#[test]
fn fixed_point_two_places() {
    assert_eq!(fmt_fixed2(0), "0.00");
    assert_eq!(fmt_fixed2(5), "0.05");
    assert_eq!(fmt_fixed2(50), "0.50");
    assert_eq!(fmt_fixed2(1234), "12.34");
    assert_eq!(fmt_fixed2(-307), "-3.07");
    assert_eq!(fmt_fixed2(-5), "-0.05");
    assert_eq!(fmt_fixed2(29815), "298.15");
}

#[test]
fn labels_pad_to_two_columns() {
    assert_eq!(fmt_label(0), " 0");
    assert_eq!(fmt_label(9), " 9");
    assert_eq!(fmt_label(10), "10");
    assert_eq!(fmt_label(-1), "-1");
    assert_eq!(fmt_label(-12), "-12");
    assert_eq!(fmt_label(123), "123");
}
