//! Reading a 16-bit integer from a table field, decimal or `0x` hexadecimal,
//! with an optional sign, as std's integer parsing reads it.

use vstd::prelude::*;
use vstd::string::StrSliceExecFns;

verus! {

/// The value of `c` as a digit in `radix` (10 or 16), or -1 when it is not one.
pub open spec fn digit_value(c: char, radix: int) -> int {
    let u = c as u32 as int;
    if 48 <= u <= 57 {
        u - 48
    } else if radix == 16 && 97 <= u <= 102 {
        u - 87
    } else if radix == 16 && 65 <= u <= 70 {
        u - 55
    } else {
        -1
    }
}

/// A non-empty run of digits of `radix`.
pub open spec fn is_digits(s: Seq<char>, radix: int) -> bool {
    s.len() > 0 && forall|i: int| 0 <= i < s.len() ==> digit_value(#[trigger] s[i], radix) >= 0
}

/// The value of a run of digits of `radix`.
pub open spec fn digits_value(s: Seq<char>, radix: int) -> int
    decreases s.len(),
{
    if s.len() == 0 {
        0
    } else {
        digits_value(s.drop_last(), radix) * radix + digit_value(s.last(), radix)
    }
}

/// The integer that `s` spells in `radix`: digits with an optional `+` or `-`.
pub open spec fn signed_value(s: Seq<char>, radix: int) -> Option<int> {
    if s.len() > 0 && (s[0] == '-' || s[0] == '+') {
        let d = s.skip(1);
        if is_digits(d, radix) {
            Some(if s[0] == '-' { -digits_value(d, radix) } else { digits_value(d, radix) })
        } else {
            None
        }
    } else if is_digits(s, radix) {
        Some(digits_value(s, radix))
    } else {
        None
    }
}

/// The integer that a field spells: hexadecimal after a `0x` prefix, else decimal.
pub open spec fn field_value(s: Seq<char>) -> Option<int> {
    if s.len() >= 2 && s[0] == '0' && s[1] == 'x' {
        signed_value(s.skip(2), 16)
    } else {
        signed_value(s, 10)
    }
}

/// The 16-bit integer that a field spells, if it spells one in range.
pub open spec fn field_i16(s: Seq<char>) -> Option<i16> {
    match field_value(s) {
        Some(v) => if i16::MIN <= v <= i16::MAX {
            Some(v as i16)
        } else {
            None
        },
        None => None,
    }
}

/// The largest magnitude that is tracked exactly while reading digits.
pub const MAGNITUDE_CAP: u32 = 40000;

/// The digit value of `c` in `radix`, or `None`.
fn digit_of(c: char, radix: u32) -> (r: Option<u32>)
    requires
        radix == 10 || radix == 16,
    ensures
        digit_value(c, radix as int) >= 0 ==> r == Some(digit_value(c, radix as int) as u32),
        digit_value(c, radix as int) < 0 ==> r is None,
        r is Some ==> r->Some_0 < radix,
{
    let u = c as u32;
    if 48 <= u && u <= 57 {
        Some(u - 48)
    } else if radix == 16 && 97 <= u && u <= 102 {
        Some(u - 87)
    } else if radix == 16 && 65 <= u && u <= 70 {
        Some(u - 55)
    } else {
        None
    }
}

/// The value of the digits of `s` from index `start` on, capped at
/// `MAGNITUDE_CAP`; `None` when there are none or one is not a digit.
fn capped_digits(s: &str, start: usize, radix: u32) -> (r: Option<u32>)
    requires
        radix == 10 || radix == 16,
        start <= s@.len(),
    ensures
        is_digits(s@.skip(start as int), radix as int) <==> r is Some,
        r is Some ==> r->Some_0 as int == if digits_value(s@.skip(start as int), radix as int)
            < MAGNITUDE_CAP {
            digits_value(s@.skip(start as int), radix as int)
        } else {
            MAGNITUDE_CAP as int
        },
{
    let n = s.unicode_len();
    if start >= n {
        return None;
    }
    let ghost d = s@.skip(start as int);
    let mut mag: u32 = 0;
    let mut i: usize = start;
    while i < n
        invariant
            n == s@.len(),
            start < n,
            start <= i <= n,
            radix == 10 || radix == 16,
            d == s@.skip(start as int),
            forall|j: int| 0 <= j < i - start ==> digit_value(#[trigger] d[j], radix as int) >= 0,
            0 <= digits_value(d.take(i - start), radix as int),
            mag as int == if digits_value(d.take(i - start), radix as int) < MAGNITUDE_CAP {
                digits_value(d.take(i - start), radix as int)
            } else {
                MAGNITUDE_CAP as int
            },
        decreases n - i,
    {
        let c = s.get_char(i);
        match digit_of(c, radix) {
            None => {
                assert(d[i - start] == c);
                return None;
            },
            Some(v) => {
                let ghost k = i - start;
                let ghost before = digits_value(d.take(k), radix as int);
                proof {
                    assert(d.take(k + 1).drop_last() =~= d.take(k));
                    assert(d.take(k + 1).last() == c);
                    assert(digits_value(d.take(k + 1), radix as int) == before * radix + v);
                    assert(before * radix >= before) by (nonlinear_arith)
                        requires
                            before >= 0,
                            radix >= 1,
                    ;
                    if before >= MAGNITUDE_CAP {
                        assert(mag * radix + v >= MAGNITUDE_CAP) by (nonlinear_arith)
                            requires
                                mag == MAGNITUDE_CAP,
                                radix >= 1,
                                v >= 0,
                        ;
                    }
                    assert(mag * radix <= MAGNITUDE_CAP * 16) by (nonlinear_arith)
                        requires
                            mag <= MAGNITUDE_CAP,
                            radix <= 16,
                    ;
                }
                let next = mag * radix + v;
                mag = if next < MAGNITUDE_CAP { next } else { MAGNITUDE_CAP };
                i = i + 1;
            },
        }
    }
    proof {
        assert(d.take(n - start) =~= d);
    }
    Some(mag)
}

/// The 16-bit integer in `s` from index `start` on, read in `radix` with an
/// optional sign.
fn signed_i16(s: &str, start: usize, radix: u32) -> (r: Option<i16>)
    requires
        radix == 10 || radix == 16,
        start <= s@.len(),
    ensures
        r == (match signed_value(s@.skip(start as int), radix as int) {
            Some(v) => if i16::MIN <= v <= i16::MAX {
                Some(v as i16)
            } else {
                None
            },
            None => None,
        }),
{
    let n = s.unicode_len();
    let ghost t = s@.skip(start as int);
    let mut negative = false;
    let mut first = start;
    if start < n {
        let c = s.get_char(start);
        if c == '-' || c == '+' {
            negative = c == '-';
            first = start + 1;
        }
    }
    proof {
        if first == start + 1 {
            assert(t.skip(1) =~= s@.skip(first as int));
        } else {
            assert(t =~= s@.skip(first as int));
        }
    }
    match capped_digits(s, first, radix) {
        None => None,
        Some(mag) => {
            if negative {
                if mag <= 32768 {
                    Some((0 - mag as i32) as i16)
                } else {
                    None
                }
            } else if mag <= 32767 {
                Some(mag as i16)
            } else {
                None
            }
        },
    }
}

/// The 16-bit integer that a table field spells: hexadecimal after a `0x`
/// prefix, else decimal, with an optional sign; `None` when the field spells
/// no integer or one out of range.
pub fn parse_i16_field(s: &str) -> (r: Option<i16>)
    ensures
        r == field_i16(s@),
{
    let n = s.unicode_len();
    if n >= 2 && s.get_char(0) == '0' && s.get_char(1) == 'x' {
        signed_i16(s, 2, 16)
    } else {
        proof {
            assert(s@.skip(0) =~= s@);
        }
        signed_i16(s, 0, 10)
    }
}

} // verus!
