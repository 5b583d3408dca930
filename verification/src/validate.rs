//! Parsing and validation of the tree-depth argument.
//!
//! The depth string must parse as a `usize` of at least 1. The error
//! messages distinguish an empty value, a value that overflows, a negative
//! value, a malformed value and zero, mirroring how the standard integer
//! parser classifies its failures.

use vstd::prelude::*;
use vstd::string::StringExecFns;

use crate::decimal::{dec_digits, decimal_string};

verus! {

/// How parsing a `usize` out of a character sequence ends.
pub ghost enum ParseOutcome {
    Empty,
    InvalidDigit,
    PosOverflow,
    Value(int),
}

pub open spec fn is_digit(c: char) -> bool {
    48 <= c as u32 <= 57
}

pub open spec fn digit_val(c: char) -> int {
    c as u32 - 48
}

/// Scanning digits left to right with accumulator `acc`, exactly as the
/// standard parser does: the first non-digit stops with `InvalidDigit`, an
/// accumulator that would pass `usize::MAX` stops with `PosOverflow`.
pub open spec fn scan_usize(s: Seq<char>, acc: int) -> ParseOutcome
    decreases s.len(),
{
    if s.len() == 0 {
        ParseOutcome::Value(acc)
    } else if !is_digit(s[0]) {
        ParseOutcome::InvalidDigit
    } else if acc * 10 + digit_val(s[0]) > usize::MAX as int {
        ParseOutcome::PosOverflow
    } else {
        scan_usize(s.drop_first(), acc * 10 + digit_val(s[0]))
    }
}

/// The outcome of parsing `s` as a `usize`: empty input is `Empty`, one
/// leading `+` is allowed (but a bare sign is malformed), and the digits
/// are scanned left to right.
pub open spec fn parse_usize(s: Seq<char>) -> ParseOutcome {
    if s.len() == 0 {
        ParseOutcome::Empty
    } else if s[0] == '+' {
        if s.len() == 1 {
            ParseOutcome::InvalidDigit
        } else {
            scan_usize(s.drop_first(), 0)
        }
    } else {
        scan_usize(s, 0)
    }
}

pub open spec fn all_digits(s: Seq<char>) -> bool {
    forall|i: int| 0 <= i < s.len() ==> is_digit(#[trigger] s[i])
}

/// The numeric value of a digit string, most significant digit first.
pub open spec fn digits_val(s: Seq<char>) -> int
    decreases s.len(),
{
    if s.len() == 0 {
        0
    } else {
        digits_val(s.drop_last()) * 10 + digit_val(s.last())
    }
}

/// `s` parses as a strictly negative `i64`: a minus sign followed by
/// digits whose value is at least 1 and at most 2^63.
pub open spec fn parses_negative(s: Seq<char>) -> bool {
    &&& s.len() >= 2
    &&& s[0] == '-'
    &&& all_digits(s.drop_first())
    &&& 1 <= digits_val(s.drop_first()) <= 0x8000000000000000
}

/// A depth request is acceptable when it parses and is at least 1.
pub open spec fn depth_ok(s: Seq<char>) -> bool {
    exists|v: int| parse_usize(s) == ParseOutcome::Value(v) && v >= 1
}

/// The exact message reported for an unacceptable depth request.
pub open spec fn depth_error_msg(s: Seq<char>) -> Seq<char> {
    match parse_usize(s) {
        ParseOutcome::Empty => "No value provided. Either provide a value with = or remove the flag."@,
        ParseOutcome::InvalidDigit => if parses_negative(s) {
            "Negative depth values are not allowed"@
        } else {
            "invalid digit found in string"@
        },
        ParseOutcome::PosOverflow => "Depth must be less than "@ + dec_digits(usize::MAX as int),
        ParseOutcome::Value(v) => "Depth must be greater than or equal to 1"@,
    }
}

proof fn lemma_digits_val_nonneg(s: Seq<char>)
    requires
        all_digits(s),
    ensures
        digits_val(s) >= 0,
    decreases s.len(),
{
    if s.len() > 0 {
        assert(all_digits(s.drop_last())) by {
            assert(forall|i: int|
                0 <= i < s.drop_last().len() ==> s.drop_last()[i] == s[i]);
        }
        lemma_digits_val_nonneg(s.drop_last());
    }
}

/// Appending digits never shrinks the value: every prefix of a digit
/// string is worth no more than the whole.
proof fn lemma_digits_val_prefix(s: Seq<char>, k: int)
    requires
        all_digits(s),
        0 <= k <= s.len(),
    ensures
        digits_val(s.take(k)) <= digits_val(s),
    decreases s.len() - k,
{
    if k < s.len() {
        lemma_digits_val_prefix(s, k + 1);
        let p = s.take(k + 1);
        assert(p.drop_last() =~= s.take(k));
        assert(all_digits(s.take(k))) by {
            assert(forall|i: int| 0 <= i < k ==> s.take(k)[i] == s[i]);
        }
        lemma_digits_val_nonneg(s.take(k));
        assert(digits_val(p) == digits_val(s.take(k)) * 10 + digit_val(p.last()));
    } else {
        assert(s.take(k) =~= s);
    }
}

/// Decides whether `s` would parse as a strictly negative `i64`.
fn parses_negative_i64(s: &str) -> (r: bool)
    ensures
        r == parses_negative(s@),
{
    let n = s.unicode_len();
    if n < 2 || s.get_char(0) != '-' {
        return false;
    }
    let ghost ds = s@.drop_first();
    let mut i: usize = 1;
    let mut acc: u64 = 0;
    while i < n
        invariant
            1 <= i <= n,
            n == s@.len(),
            n >= 2,
            ds == s@.drop_first(),
            all_digits(ds.take(i - 1)),
            acc == digits_val(ds.take(i - 1)),
            acc <= 0x8000000000000000,
        decreases n - i,
    {
        let c = s.get_char(i);
        let cu = c as u32;
        if cu < 48 || cu > 57 {
            assert(!all_digits(ds)) by {
                assert(ds[i - 1] == s@[i as int]);
            }
            return false;
        }
        let d = (cu - 48) as u64;
        proof {
            assert(ds.take(i as int).drop_last() =~= ds.take(i - 1));
            assert(ds.take(i as int).last() == s@[i as int]);
        }
        if acc > 0x8000000000000000u64 / 10 {
            assert(acc * 10 + d > 0x8000000000000000);
            proof {
                if all_digits(ds) {
                    lemma_digits_val_prefix(ds, i as int);
                }
            }
            return false;
        }
        let acc2 = acc * 10 + d;
        if acc2 > 0x8000000000000000 {
            proof {
                if all_digits(ds) {
                    lemma_digits_val_prefix(ds, i as int);
                }
            }
            return false;
        }
        proof {
            assert(all_digits(ds.take(i as int))) by {
                assert(forall|j: int|
                    0 <= j < i - 1 ==> ds.take(i as int)[j] == ds.take(i - 1)[j]);
                assert(ds.take(i as int)[i - 1] == s@[i as int]);
            }
        }
        acc = acc2;
        i = i + 1;
    }
    proof {
        assert(ds.take(n - 1) =~= ds);
    }
    acc >= 1
}

/// Checks that a string parses into a `usize` greater than or equal to 1,
/// returning the parsed depth or a message saying exactly what was wrong
/// (empty value, negative value, malformed value, overflow, or zero).
pub fn tree_depth_validator(s: &str) -> (r: Result<usize, String>)
    ensures
        r is Ok <==> depth_ok(s@),
        r is Ok ==> parse_usize(s@) == ParseOutcome::Value(r.unwrap() as int),
        r is Err ==> r.unwrap_err()@ == depth_error_msg(s@),
{
    let n = s.unicode_len();
    if n == 0 {
        return Err("No value provided. Either provide a value with = or remove the flag.".to_owned());
    }
    let plus = s.get_char(0) == '+';
    if plus && n == 1 {
        return Err("invalid digit found in string".to_owned());
    }
    let start: usize = if plus {
        1
    } else {
        0
    };
    let ghost digits = s@.subrange(start as int, n as int);
    proof {
        if plus {
            assert(digits =~= s@.drop_first());
        } else {
            assert(digits =~= s@);
        }
    }
    let mut i: usize = start;
    let mut acc: usize = 0;
    while i < n
        invariant
            start <= i <= n,
            n == s@.len(),
            digits == s@.subrange(start as int, n as int),
            parse_usize(s@) == scan_usize(s@.subrange(i as int, n as int), acc as int),
            n > start,
        decreases n - i,
    {
        let ghost rest = s@.subrange(i as int, n as int);
        let c = s.get_char(i);
        let cu = c as u32;
        proof {
            assert(rest[0] == s@[i as int]);
        }
        if cu < 48 || cu > 57 {
            if parses_negative_i64(s) {
                return Err("Negative depth values are not allowed".to_owned());
            } else {
                return Err("invalid digit found in string".to_owned());
            }
        }
        let d = (cu - 48) as usize;
        let overflow = if acc > usize::MAX / 10 {
            true
        } else if acc == usize::MAX / 10 {
            d > usize::MAX % 10
        } else {
            false
        };
        proof {
            vstd::arithmetic::div_mod::lemma_fundamental_div_mod(usize::MAX as int, 10);
            if acc > usize::MAX as int / 10 {
                assert(acc * 10 > usize::MAX as int - 9) by (nonlinear_arith)
                    requires
                        acc > usize::MAX as int / 10,
                        usize::MAX as int == 10 * (usize::MAX as int / 10) + usize::MAX as int % 10,
                        usize::MAX as int % 10 <= 9,
                ;
            } else {
                assert(acc * 10 <= 10 * (usize::MAX as int / 10)) by (nonlinear_arith)
                    requires
                        acc <= usize::MAX as int / 10,
                ;
            }
        }
        if overflow {
            return Err(overflow_message());
        }
        acc = acc * 10 + d;
        proof {
            assert(rest.drop_first() =~= s@.subrange(i + 1, n as int));
        }
        i = i + 1;
    }
    proof {
        assert(s@.subrange(n as int, n as int) =~= Seq::<char>::empty());
    }
    if acc == 0 {
        return Err("Depth must be greater than or equal to 1".to_owned());
    }
    Ok(acc)
}

/// The message for a depth that overflows `usize`, naming the bound.
fn overflow_message() -> (r: String)
    ensures
        r@ == "Depth must be less than "@ + dec_digits(usize::MAX as int),
{
    let mut m = "Depth must be less than ".to_owned();
    let bound = decimal_string(usize::MAX as u64);
    m.append(bound.as_str());
    m
}

} // verus!
