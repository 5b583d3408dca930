//! Human-readable size strings.
//!
//! A byte count is expressed in the largest unit among B, KB, MB, GB and TB
//! for which the scaled magnitude stays below 1024 (values of 1024 TB and
//! beyond stay in TB). Non-byte units carry up to two decimal places,
//! truncated, with trailing zeros of the fraction dropped: `1048576` becomes
//! `"1 MB"`, not `"1.00 MB"`, and `1536` becomes `"1.5 KB"`.

use vstd::prelude::*;
use vstd::string::StringExecFns;

use crate::decimal::{dec_digits, digit_char, decimal_string, push_digit};

verus! {

pub open spec fn unit_index(size: u64) -> int {
    if size < 1024 {
        0
    } else if size < 1048576 {
        1
    } else if size < 1073741824 {
        2
    } else if size < 1099511627776 {
        3
    } else {
        4
    }
}

pub open spec fn unit_factor(i: int) -> int {
    if i == 0 {
        1
    } else if i == 1 {
        1024
    } else if i == 2 {
        1048576
    } else if i == 3 {
        1073741824
    } else {
        1099511627776
    }
}

/// The unit abbreviation, with the separating space.
pub open spec fn unit_suffix(i: int) -> Seq<char> {
    if i == 0 {
        " B"@
    } else if i == 1 {
        " KB"@
    } else if i == 2 {
        " MB"@
    } else if i == 3 {
        " GB"@
    } else {
        " TB"@
    }
}

/// The fractional part rendered from a number of hundredths (below 100):
/// empty when zero, one digit when a multiple of ten, two digits otherwise.
pub open spec fn frac_digits(h: int) -> Seq<char> {
    if h == 0 {
        Seq::<char>::empty()
    } else if h % 10 == 0 {
        seq!['.', digit_char(h / 10)]
    } else {
        seq!['.', digit_char(h / 10), digit_char(h % 10)]
    }
}

/// The pretty form of a byte count: the scaled whole part, a truncated
/// fraction of up to two places with trailing zeros dropped, and the unit.
pub open spec fn pretty_size(size: u64) -> Seq<char> {
    let i = unit_index(size);
    let f = unit_factor(i);
    let whole = size as int / f;
    let h = (size as int % f) * 100 / f;
    dec_digits(whole) + frac_digits(h) + unit_suffix(i)
}

/// Makes a string from a size in bytes (up to TB), with up to two decimal
/// places; trailing zeros of the fraction are removed (e.g. 1.00 MB -> 1 MB).
pub fn size_in_bytes_pretty_string(size: u64) -> (r: String)
    ensures
        r@ == pretty_size(size),
{
    let (factor, suffix): (u64, &str) = if size < 1024 {
        (1, " B")
    } else if size < 1048576 {
        (1024, " KB")
    } else if size < 1073741824 {
        (1048576, " MB")
    } else if size < 1099511627776 {
        (1073741824, " GB")
    } else {
        (1099511627776, " TB")
    };
    let whole = size / factor;
    let rem = size % factor;
    let h = rem * 100 / factor;
    let mut s = decimal_string(whole);
    if h != 0 {
        s.append(".");
        proof {
            reveal_strlit(".");
        }
        push_digit(&mut s, h / 10);
        if h % 10 != 0 {
            push_digit(&mut s, h % 10);
        }
    }
    s.append(suffix);
    s
}

} // verus!
