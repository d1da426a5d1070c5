//! Verified rendering of integers to decimal text.
//!
//! Sample values are carried in hundredths of the displayed unit, so the
//! buffer's formatted output needs exactly three shapes of numeral: the plain
//! numeral of a signed integer, a fixed-point numeral with two decimal
//! places, and an axis label padded to at least two characters.

use vstd::prelude::*;
use vstd::string::StringExecFns;

verus! {

/// The decimal digit character for `d` (digits `0` through `9`).
pub open spec fn digit_char(d: nat) -> char {
    if d == 0 {
        '0'
    } else if d == 1 {
        '1'
    } else if d == 2 {
        '2'
    } else if d == 3 {
        '3'
    } else if d == 4 {
        '4'
    } else if d == 5 {
        '5'
    } else if d == 6 {
        '6'
    } else if d == 7 {
        '7'
    } else if d == 8 {
        '8'
    } else {
        '9'
    }
}

/// The decimal numeral of `n`, most significant digit first, without a sign
/// and without leading zeros (zero itself is the single digit `0`).
pub open spec fn dec_digits(n: nat) -> Seq<char>
    decreases n,
{
    if n < 10 {
        seq![digit_char(n)]
    } else {
        dec_digits(n / 10).push(digit_char(n % 10))
    }
}

/// The numeral of a signed value: a minus sign ahead of the digits of the
/// magnitude for negative values, the bare digits otherwise.
pub open spec fn signed_digits(v: int) -> Seq<char> {
    if v < 0 {
        seq!['-'] + dec_digits((-v) as nat)
    } else {
        dec_digits(v as nat)
    }
}

/// A value carried in hundredths, rendered with exactly two decimal places,
/// e.g. `-3.07` for `-307`.
pub open spec fn fixed2_digits(v: int) -> Seq<char> {
    let m = if v < 0 {
        (-v) as nat
    } else {
        v as nat
    };
    let sign: Seq<char> = if v < 0 {
        seq!['-']
    } else {
        Seq::empty()
    };
    sign + dec_digits(m / 100) + seq!['.', digit_char(m % 100 / 10), digit_char(m % 10)]
}

/// An axis label: the plain numeral, left-padded with one space when it is a
/// single character, so labels line up in a two-column gutter.
pub open spec fn label_digits(v: int) -> Seq<char> {
    if signed_digits(v).len() < 2 {
        seq![' '] + signed_digits(v)
    } else {
        signed_digits(v)
    }
}

/// A numeral always holds at least one digit.
pub proof fn lemma_dec_digits_len(n: nat)
    ensures
        dec_digits(n).len() >= 1,
    decreases n,
{
    if n >= 10 {
        lemma_dec_digits_len(n / 10);
    }
}

fn digit_str(d: u64) -> (r: &'static str)
    requires
        d < 10,
    ensures
        r@ == seq![digit_char(d as nat)],
{
    proof {
        reveal_strlit("0");
        reveal_strlit("1");
        reveal_strlit("2");
        reveal_strlit("3");
        reveal_strlit("4");
        reveal_strlit("5");
        reveal_strlit("6");
        reveal_strlit("7");
        reveal_strlit("8");
        reveal_strlit("9");
    }
    if d == 0 {
        "0"
    } else if d == 1 {
        "1"
    } else if d == 2 {
        "2"
    } else if d == 3 {
        "3"
    } else if d == 4 {
        "4"
    } else if d == 5 {
        "5"
    } else if d == 6 {
        "6"
    } else if d == 7 {
        "7"
    } else if d == 8 {
        "8"
    } else {
        "9"
    }
}

/// The decimal numeral of an unsigned value.
pub fn fmt_u64(n: u64) -> (r: String)
    ensures
        r@ == dec_digits(n as nat),
    decreases n,
{
    if n < 10 {
        let r = digit_str(n).to_owned();
        proof {
            assert(r@ =~= dec_digits(n as nat));
        }
        r
    } else {
        let mut s = fmt_u64(n / 10);
        let tail = digit_str(n % 10);
        s.append(tail);
        proof {
            assert(s@ =~= dec_digits(n as nat));
        }
        s
    }
}

/// The decimal numeral of a signed value.
pub fn fmt_i64(v: i64) -> (r: String)
    requires
        v > i64::MIN,
    ensures
        r@ == signed_digits(v as int),
{
    if v < 0 {
        proof {
            reveal_strlit("-");
        }
        let mut s = "-".to_owned();
        let digits = fmt_u64((-v) as u64);
        s.append(digits.as_str());
        proof {
            assert(s@ =~= signed_digits(v as int));
        }
        s
    } else {
        fmt_u64(v as u64)
    }
}

/// A value in hundredths rendered with exactly two decimal places.
pub fn fmt_fixed2(v: i64) -> (r: String)
    requires
        v > i64::MIN,
    ensures
        r@ == fixed2_digits(v as int),
{
    let m: u64 = if v < 0 {
        (-v) as u64
    } else {
        v as u64
    };
    let mut s = if v < 0 {
        proof {
            reveal_strlit("-");
        }
        "-".to_owned()
    } else {
        String::new()
    };
    let whole = fmt_u64(m / 100);
    s.append(whole.as_str());
    proof {
        reveal_strlit(".");
    }
    s.append(".");
    s.append(digit_str(m % 100 / 10));
    s.append(digit_str(m % 10));
    proof {
        assert(m % 100 / 10 == (m as nat) % 100 / 10);
        assert(m % 10 == (m as nat) % 10);
        assert(s@ =~= fixed2_digits(v as int));
    }
    s
}

/// An axis label, padded to at least two characters.
pub fn fmt_label(v: i64) -> (r: String)
    requires
        v > i64::MIN,
    ensures
        r@ == label_digits(v as int),
{
    let digits = fmt_i64(v);
    if 0 <= v && v <= 9 {
        proof {
            reveal_strlit(" ");
        }
        let mut s = " ".to_owned();
        s.append(digits.as_str());
        proof {
            assert(s@ =~= label_digits(v as int));
        }
        s
    } else {
        proof {
            if v < 0 {
                lemma_dec_digits_len((-v) as nat);
            } else {
                lemma_dec_digits_len((v as nat) / 10);
                assert(signed_digits(v as int) == dec_digits(v as nat / 10).push(
                    digit_char(v as nat % 10),
                ));
            }
            assert(signed_digits(v as int).len() >= 2);
        }
        digits
    }
}

} // verus!
