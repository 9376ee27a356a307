//! Verified integer parsing: decimal by default, hexadecimal behind a `0x`
//! prefix, with an optional leading sign and exact overflow reporting.

use crate::error::IntParseError;
use vstd::prelude::*;

verus! {

use vstd::arithmetic::div_mod::lemma_fundamental_div_mod;
use vstd::string::StrSliceExecFns;

/// The numeric value a character contributes as a digit; characters that
/// are digits in no supported radix get the out-of-range value 16.
pub open spec fn spec_digit_val(c: char) -> int {
    if '0' as int <= c as int && c as int <= '9' as int {
        c as int - '0' as int
    } else if 'a' as int <= c as int && c as int <= 'f' as int {
        10 + c as int - 'a' as int
    } else if 'A' as int <= c as int && c as int <= 'F' as int {
        10 + c as int - 'A' as int
    } else {
        16
    }
}

/// Is `c` a digit of base `radix`? Hexadecimal digits may be upper or
/// lower case.
pub open spec fn spec_is_digit(c: char, radix: int) -> bool {
    spec_digit_val(c) < radix
}

/// Does `s` consist of digits of base `radix` only?
pub open spec fn spec_all_digits(s: Seq<char>, radix: int) -> bool {
    forall|i: int| 0 <= i < s.len() ==> spec_is_digit(s[i], radix)
}

/// The numeric value of a digit string read in base `radix`.
pub open spec fn spec_digits_val(s: Seq<char>, radix: int) -> int
    decreases s.len(),
{
    if s.len() == 0 {
        0
    } else {
        spec_digits_val(s.drop_last(), radix) * radix + spec_digit_val(s.last())
    }
}

/// What parsing a whole number in base `radix` yields: an optional single
/// leading sign (`-` only where the target type is signed), then at least
/// one digit, then a range check against `min..=max`. Digit validity is
/// judged before the range, so text that is not a number at all reports
/// `InvalidDigit` even where it is also enormous.
pub open spec fn spec_parse_int(
    s: Seq<char>,
    radix: int,
    signed: bool,
    min: int,
    max: int,
) -> Result<int, IntParseError> {
    if s.len() == 0 {
        Err(IntParseError::Empty)
    } else {
        let neg = s[0] == '-';
        let has_sign = s[0] == '-' || s[0] == '+';
        let digits = if has_sign {
            s.drop_first()
        } else {
            s
        };
        if neg && !signed {
            Err(IntParseError::InvalidDigit)
        } else if digits.len() == 0 || !spec_all_digits(digits, radix) {
            Err(IntParseError::InvalidDigit)
        } else {
            let v = if neg {
                -spec_digits_val(digits, radix)
            } else {
                spec_digits_val(digits, radix)
            };
            if v > max {
                Err(IntParseError::PosOverflow)
            } else if v < min {
                Err(IntParseError::NegOverflow)
            } else {
                Ok(v)
            }
        }
    }
}

/// What parsing an integer argument yields: hexadecimal when the text
/// starts with `0x`, decimal otherwise.
pub open spec fn spec_parse_integer(s: Seq<char>, signed: bool, min: int, max: int) -> Result<
    int,
    IntParseError,
> {
    if s.len() >= 2 && s[0] == '0' && s[1] == 'x' {
        spec_parse_int(s.skip(2), 16, signed, min, max)
    } else {
        spec_parse_int(s, 10, signed, min, max)
    }
}

/// A digit string never has a negative value.
proof fn lemma_digits_val_nonneg(s: Seq<char>, radix: int)
    requires
        radix >= 1,
    ensures
        spec_digits_val(s, radix) >= 0,
    decreases s.len(),
{
    if s.len() > 0 {
        lemma_digits_val_nonneg(s.drop_last(), radix);
        let p = spec_digits_val(s.drop_last(), radix);
        assert(p * radix >= 0) by (nonlinear_arith)
            requires
                p >= 0,
                radix >= 1,
        ;
        assert(spec_digit_val(s.last()) >= 0);
    }
}

/// Reading more digits never shrinks the value: a prefix of a digit string
/// is worth no more than the whole.
proof fn lemma_digits_val_prefix(s: Seq<char>, radix: int, k: int)
    requires
        radix >= 1,
        0 <= k <= s.len(),
    ensures
        spec_digits_val(s.take(k), radix) <= spec_digits_val(s, radix),
    decreases s.len() - k,
{
    if k == s.len() {
        assert(s.take(k) =~= s);
    } else {
        lemma_digits_val_prefix(s, radix, k + 1);
        let p = spec_digits_val(s.take(k), radix);
        assert(s.take(k + 1).drop_last() =~= s.take(k));
        assert(s.take(k + 1).last() == s[k]);
        lemma_digits_val_nonneg(s.take(k), radix);
        assert(p * radix >= p) by (nonlinear_arith)
            requires
                p >= 0,
                radix >= 1,
        ;
        assert(spec_digit_val(s[k]) >= 0);
    }
}

fn digit_val(c: char) -> (v: u32)
    ensures
        v as int == spec_digit_val(c),
{
    let u = c as u32;
    if 48 <= u && u <= 57 {
        u - 48
    } else if 97 <= u && u <= 102 {
        10 + (u - 97)
    } else if 65 <= u && u <= 70 {
        10 + (u - 65)
    } else {
        16
    }
}

/// Read the run of digits `s[start..]` in base `radix`, against the
/// inclusive bound `max`.
fn parse_digits(s: &str, start: usize, radix: u32, max: u128) -> (r: Result<u128, IntParseError>)
    requires
        start <= s@.len(),
        radix == 10 || radix == 16,
    ensures
        ({
            let ds = s@.skip(start as int);
            match r {
                Ok(v) => ds.len() > 0 && spec_all_digits(ds, radix as int) && v as int
                    == spec_digits_val(ds, radix as int) && v <= max,
                Err(IntParseError::InvalidDigit) => ds.len() == 0 || !spec_all_digits(
                    ds,
                    radix as int,
                ),
                Err(IntParseError::PosOverflow) => ds.len() > 0 && spec_all_digits(
                    ds,
                    radix as int,
                ) && spec_digits_val(ds, radix as int) > max,
                Err(_) => false,
            }
        }),
{
    let n = s.unicode_len();
    let ghost ds = s@.skip(start as int);
    if start == n {
        return Err(IntParseError::InvalidDigit);
    }
    let mut i = start;
    while i < n
        invariant
            start <= i <= n,
            n == s@.len(),
            ds == s@.skip(start as int),
            forall|j: int| 0 <= j < i - start ==> spec_is_digit(ds[j], radix as int),
        decreases n - i,
    {
        let c = s.get_char(i);
        if digit_val(c) >= radix {
            proof {
                assert(ds[i - start as int] == s@[i as int]);
            }
            return Err(IntParseError::InvalidDigit);
        }
        proof {
            assert(ds[i - start as int] == s@[i as int]);
        }
        i = i + 1;
    }
    assert(spec_all_digits(ds, radix as int));
    let mut acc: u128 = 0;
    let mut i = start;
    let radix_w = radix as u128;
    while i < n
        invariant
            start <= i <= n,
            n == s@.len(),
            ds == s@.skip(start as int),
            spec_all_digits(ds, radix as int),
            radix_w == radix,
            radix == 10 || radix == 16,
            acc <= max,
            acc as int == spec_digits_val(ds.take(i - start as int), radix as int),
        decreases n - i,
    {
        let c = s.get_char(i);
        let d = digit_val(c) as u128;
        let ghost k = i - start as int;
        proof {
            assert(ds[k] == s@[i as int]);
            assert(ds.take(k + 1).drop_last() =~= ds.take(k));
            assert(ds.take(k + 1).last() == ds[k]);
        }
        if acc > max / radix_w {
            proof {
                lemma_fundamental_div_mod(max as int, radix_w as int);
                let q = max as int / radix_w as int;
                assert(acc as int * radix_w as int > max as int) by (nonlinear_arith)
                    requires
                        acc as int >= q + 1,
                        radix_w as int >= 1,
                        max as int == q * radix_w as int + (max as int % radix_w as int),
                        (max as int % radix_w as int) < radix_w as int,
                        0 <= (max as int % radix_w as int),
                ;
                assert(spec_digits_val(ds.take(k + 1), radix as int) > max);
                lemma_digits_val_prefix(ds, radix as int, k + 1);
            }
            return Err(IntParseError::PosOverflow);
        }
        proof {
            lemma_fundamental_div_mod(max as int, radix_w as int);
            let q = max as int / radix_w as int;
            assert(acc as int * radix_w as int <= q * radix_w as int <= max as int)
                by (nonlinear_arith)
                requires
                    0 <= acc as int <= q,
                    radix_w as int >= 1,
                    max as int == q * radix_w as int + (max as int % radix_w as int),
                    0 <= (max as int % radix_w as int),
            ;
        }
        let acc2 = acc * radix_w;
        if d > max - acc2 {
            proof {
                assert(spec_digits_val(ds.take(k + 1), radix as int) > max);
                lemma_digits_val_prefix(ds, radix as int, k + 1);
            }
            return Err(IntParseError::PosOverflow);
        }
        acc = acc2 + d;
        i = i + 1;
    }
    proof {
        assert(ds.take(n - start as int) =~= ds);
    }
    Ok(acc)
}

/// The image of an unsigned parse result in the mathematical integers.
pub open spec fn spec_u_result(r: Result<u128, IntParseError>) -> Result<int, IntParseError> {
    match r {
        Ok(v) => Ok(v as int),
        Err(e) => Err(e),
    }
}

/// The image of a signed parse result in the mathematical integers.
pub open spec fn spec_i_result(r: Result<i128, IntParseError>) -> Result<int, IntParseError> {
    match r {
        Ok(v) => Ok(v as int),
        Err(e) => Err(e),
    }
}

/// Parse an unsigned number in base `radix`, bounded by `max`.
fn parse_int_u(s: &str, radix: u32, max: u128) -> (r: Result<u128, IntParseError>)
    requires
        radix == 10 || radix == 16,
    ensures
        spec_u_result(r) == spec_parse_int(s@, radix as int, false, 0, max as int),
{
    let n = s.unicode_len();
    if n == 0 {
        return Err(IntParseError::Empty);
    }
    let c0 = s.get_char(0);
    if c0 == '-' {
        return Err(IntParseError::InvalidDigit);
    }
    let start: usize = if c0 == '+' {
        1
    } else {
        0
    };
    proof {
        if c0 == '+' {
            assert(s@.skip(1) =~= s@.drop_first());
        } else {
            assert(s@.skip(0) =~= s@);
        }
        lemma_digits_val_nonneg(s@.skip(start as int), radix as int);
    }
    parse_digits(s, start, radix, max)
}

/// Parse a signed number in base `radix`, bounded by `min..=max`.
fn parse_int_i(s: &str, radix: u32, min: i128, max: i128) -> (r: Result<i128, IntParseError>)
    requires
        radix == 10 || radix == 16,
        min <= 0 <= max,
    ensures
        spec_i_result(r) == spec_parse_int(s@, radix as int, true, min as int, max as int),
{
    let n = s.unicode_len();
    if n == 0 {
        return Err(IntParseError::Empty);
    }
    let c0 = s.get_char(0);
    let neg = c0 == '-';
    let start: usize = if c0 == '-' || c0 == '+' {
        1
    } else {
        0
    };
    proof {
        if c0 == '-' || c0 == '+' {
            assert(s@.skip(1) =~= s@.drop_first());
        } else {
            assert(s@.skip(0) =~= s@);
        }
        lemma_digits_val_nonneg(s@.skip(start as int), radix as int);
    }
    if neg {
        let mag_max: u128 = if min == 0 {
            0
        } else {
            ((-(min + 1)) as u128) + 1
        };
        match parse_digits(s, start, radix, mag_max) {
            Ok(v) => {
                if v <= (i128::MAX as u128) {
                    Ok(-(v as i128))
                } else {
                    Ok(i128::MIN)
                }
            },
            Err(IntParseError::PosOverflow) => Err(IntParseError::NegOverflow),
            Err(e) => Err(e),
        }
    } else {
        match parse_digits(s, start, radix, max as u128) {
            Ok(v) => Ok(v as i128),
            Err(e) => Err(e),
        }
    }
}

/// Parse an unsigned integer argument: hexadecimal when prefixed with
/// `0x`, decimal otherwise, bounded by `max`.
pub fn parse_integer_u(s: &str, max: u128) -> (r: Result<u128, IntParseError>)
    ensures
        spec_u_result(r) == spec_parse_integer(s@, false, 0, max as int),
{
    let n = s.unicode_len();
    if n >= 2 && s.get_char(0) == '0' && s.get_char(1) == 'x' {
        let rest = s.substring_char(2, n);
        proof {
            assert(rest@ =~= s@.skip(2));
        }
        parse_int_u(rest, 16, max)
    } else {
        parse_int_u(s, 10, max)
    }
}

/// Parse a signed integer argument: hexadecimal when prefixed with `0x`,
/// decimal otherwise, bounded by `min..=max`.
pub fn parse_integer_i(s: &str, min: i128, max: i128) -> (r: Result<i128, IntParseError>)
    requires
        min <= 0 <= max,
    ensures
        spec_i_result(r) == spec_parse_integer(s@, true, min as int, max as int),
{
    let n = s.unicode_len();
    if n >= 2 && s.get_char(0) == '0' && s.get_char(1) == 'x' {
        let rest = s.substring_char(2, n);
        proof {
            assert(rest@ =~= s@.skip(2));
        }
        parse_int_i(rest, 16, min, max)
    } else {
        parse_int_i(s, 10, min, max)
    }
}

} // verus!
