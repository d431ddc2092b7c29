//! Length-guarded integer parsing with a structured error.
//!
//! `f1` accepts a string only while it is shorter than three bytes, and
//! then reads it as a signed decimal integer. The decimal reader itself,
//! `parse_i32`, is general: an optional sign, at least one digit, and a
//! value that fits `i32`, exactly the strings `str::parse::<i32>` accepts.

use vstd::prelude::*;
use vstd::string::StringSliceAdditionalSpecFns;

verus! {

/// What can go wrong while reading a number from a string.
#[derive(Debug)]
pub enum MyError {
    /// The string is not a decimal integer in range.
    ParseError,
    /// The string (carried along with its byte length) is too long.
    LengthError(String, usize),
}

impl vstd::std_specs::cmp::PartialEqSpecImpl for MyError {
    open spec fn obeys_eq_spec() -> bool {
        true
    }

    open spec fn eq_spec(&self, other: &MyError) -> bool {
        match (self, other) {
            (MyError::ParseError, MyError::ParseError) => true,
            (MyError::LengthError(s1, n1), MyError::LengthError(s2, n2)) => s1@ == s2@ && n1
                == n2,
            _ => false,
        }
    }
}

impl PartialEq for MyError {
    fn eq(&self, other: &MyError) -> (r: bool) {
        match (self, other) {
            (MyError::ParseError, MyError::ParseError) => true,
            (MyError::LengthError(s1, n1), MyError::LengthError(s2, n2)) => *s1 == *s2 && *n1
                == *n2,
            _ => false,
        }
    }
}

/// The byte length of a string, as `str::len` reports it.
pub open spec fn byte_len(s: &str) -> usize {
    s.spec_bytes().len() as usize
}

/// A decimal digit.
pub open spec fn is_digit(c: char) -> bool {
    '0' as int <= c as int && c as int <= '9' as int
}

/// The numeric value of a decimal digit.
pub open spec fn digit_val(c: char) -> int {
    c as int - '0' as int
}

/// Every character of `s` is a decimal digit.
pub open spec fn all_digits(s: Seq<char>) -> bool {
    forall|i: int| 0 <= i < s.len() ==> is_digit(#[trigger] s[i])
}

/// The value of a digit string, most significant digit first.
pub open spec fn digits_val(s: Seq<char>) -> int
    decreases s.len(),
{
    if s.len() == 0 {
        0
    } else {
        digits_val(s.drop_last()) * 10 + digit_val(s.last())
    }
}

/// `s` without its leading sign, if it carries one.
pub open spec fn unsigned_body(s: Seq<char>) -> Seq<char> {
    if s.len() > 0 && (s[0] == '-' || s[0] == '+') {
        s.skip(1)
    } else {
        s
    }
}

/// `s` carries a leading minus sign.
pub open spec fn is_negative(s: Seq<char>) -> bool {
    s.len() > 0 && s[0] == '-'
}

/// `s` is an optionally signed decimal integer with at least one digit.
pub open spec fn is_valid_int(s: Seq<char>) -> bool {
    unsigned_body(s).len() > 0 && all_digits(unsigned_body(s))
}

/// The mathematical value of a valid integer string.
pub open spec fn int_val(s: Seq<char>) -> int {
    if is_negative(s) {
        -digits_val(unsigned_body(s))
    } else {
        digits_val(unsigned_body(s))
    }
}

/// What `str::parse::<i32>` would return on `s`: the value, if `s` is an
/// optionally signed digit string whose value fits `i32`; absence
/// otherwise.
pub open spec fn parses_as_i32(s: Seq<char>) -> Option<int> {
    if is_valid_int(s) && i32::MIN <= int_val(s) <= i32::MAX {
        Some(int_val(s))
    } else {
        None
    }
}

/// A digit string has a non-negative value.
proof fn lemma_digits_val_nonneg(s: Seq<char>)
    requires
        all_digits(s),
    ensures
        digits_val(s) >= 0,
    decreases s.len(),
{
    if s.len() > 0 {
        assert(all_digits(s.drop_last()));
        lemma_digits_val_nonneg(s.drop_last());
    }
}

/// Reading more digits never shrinks the value: any prefix of a digit
/// string is worth at most the whole string.
proof fn lemma_digits_val_prefix(s: Seq<char>, m: int)
    requires
        all_digits(s),
        0 <= m <= s.len(),
    ensures
        0 <= digits_val(s.take(m)) <= digits_val(s),
    decreases s.len() - m,
{
    assert(all_digits(s.take(m)));
    lemma_digits_val_nonneg(s.take(m));
    if m < s.len() {
        assert(s.take(m + 1).drop_last() =~= s.take(m));
        lemma_digits_val_prefix(s, m + 1);
    } else {
        assert(s.take(m) =~= s);
    }
}

/// Read `s` as a signed decimal `i32`: an optional `+` or `-`, then at
/// least one digit, refused exactly when `str::parse::<i32>` would refuse
/// it (empty body, a non-digit, or a value out of range).
pub fn parse_i32(s: &str) -> (r: Option<i32>)
    ensures
        r is Some <==> parses_as_i32(s@) is Some,
        r matches Some(v) ==> parses_as_i32(s@) == Some(v as int),
{
    let n = s.unicode_len();
    let mut idx: usize = 0;
    let mut neg: bool = false;
    if n > 0 {
        let c0 = s.get_char(0);
        if c0 == '-' {
            neg = true;
            idx = 1;
        } else if c0 == '+' {
            idx = 1;
        }
    }
    if idx >= n {
        // No digits at all: either the empty string or a lone sign.
        return None;
    }
    let ghost body = unsigned_body(s@);
    proof {
        assert(body =~= s@.skip(idx as int));
    }
    let bound: i64 = if neg {
        2147483648
    } else {
        2147483647
    };
    let mut acc: i64 = 0;
    let mut i: usize = idx;
    while i < n
        invariant
            idx <= i <= n,
            n == s@.len(),
            idx == if neg || (s@.len() > 0 && s@[0] == '+') {
                1int
            } else {
                0int
            },
            neg == is_negative(s@),
            body == unsigned_body(s@),
            body == s@.skip(idx as int),
            all_digits(body.take(i - idx)),
            acc == digits_val(body.take(i - idx)),
            bound == if neg {
                0x8000_0000i64
            } else {
                0x7fff_ffffi64
            },
            0 <= acc <= bound,
        decreases n - i,
    {
        let c = s.get_char(i);
        let d = c as u32;
        if d < '0' as u32 || d > '9' as u32 {
            // A non-digit in the body refuses the whole string.
            proof {
                assert(!is_digit(s@[i as int]));
                assert(body[i - idx] == s@[i as int]);
                assert(!all_digits(body));
            }
            return None;
        }
        proof {
            assert(body.take(i - idx + 1).drop_last() =~= body.take(i - idx));
            assert(body.take(i - idx + 1).last() == s@[i as int]);
        }
        acc = acc * 10 + ((d - 48) as i64);
        if acc > bound {
            // The digits read so far already overflow, and further digits
            // can only grow the value.
            proof {
                if all_digits(body) {
                    lemma_digits_val_prefix(body, i - idx + 1);
                }
            }
            return None;
        }
        i = i + 1;
    }
    proof {
        assert(body.take(n - idx) =~= body);
    }
    let r: i32 = if neg {
        proof {
            assert(-acc >= i32::MIN as i64);
        }
        (-acc) as i32
    } else {
        acc as i32
    };
    Some(r)
}

/// Read `s` as an `i32`, but only while `s` is shorter than three bytes;
/// a longer string is refused outright with a `LengthError` carrying the
/// string and its byte length, and a short string that is not a decimal
/// integer in range is refused with a `ParseError`.
pub fn f1(s: &str) -> (r: Result<i32, MyError>)
    ensures
        byte_len(s) >= 3 ==> (r matches Err(e) && e matches MyError::LengthError(
            t,
            n,
        ) && t@ == s@ && n == byte_len(s)),
        byte_len(s) < 3 ==> r == match parses_as_i32(s@) {
            Some(v) => Ok::<i32, MyError>(v as i32),
            None => Err::<i32, MyError>(MyError::ParseError),
        },
{
    if s.len() >= 3 {
        return Err(MyError::LengthError(s.to_owned(), s.len()));
    }
    match parse_i32(s) {
        Some(v) => Ok(v),
        None => Err(MyError::ParseError),
    }
}

} // verus!
