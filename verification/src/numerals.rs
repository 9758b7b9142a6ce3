//! Decimal numerals: the grammar of base-10 integer literals, their
//! values, and verified conversions between strings and machine integers.

use vstd::prelude::*;
use vstd::string::StrSliceExecFns;
use vstd::string::StringExecFns;
use crate::errors::VmError;

verus! {

pub open spec fn is_digit_char(c: char) -> bool {
    '0' as u32 <= c as u32 <= '9' as u32
}

/// Numeric value of a digit character.
pub open spec fn digit_val(c: char) -> int {
    c as u32 - '0' as u32
}

/// The character for a digit value below ten.
pub open spec fn digit_char(d: int) -> char {
    if d == 0 {
        '0'
    } else if d == 1 {
        '1'
    } else if d == 2 {
        '2'
    } else if d == 3 {
        '3'
    } else if d == 4 {
        '4'
    } else if d == 5 {
        '5'
    } else if d == 6 {
        '6'
    } else if d == 7 {
        '7'
    } else if d == 8 {
        '8'
    } else {
        '9'
    }
}

pub open spec fn all_digits(s: Seq<char>) -> bool {
    forall|i: int| 0 <= i < s.len() ==> is_digit_char(s[i])
}

/// Value of a digit string, most significant digit first.
pub open spec fn digits_val(s: Seq<char>) -> nat
    decreases s.len(),
{
    if s.len() == 0 {
        0
    } else {
        (digits_val(s.drop_last()) * 10 + digit_val(s.last())) as nat
    }
}

/// The canonical decimal numeral of a natural number: no sign, no leading
/// zeros (except for zero itself).
pub open spec fn dec_digits(n: nat) -> Seq<char>
    decreases n,
{
    if n < 10 {
        seq![digit_char(n as int)]
    } else {
        dec_digits(n / 10).push(digit_char((n % 10) as int))
    }
}

/// The canonical decimal numeral of an integer: a minus sign before the
/// numeral of the magnitude when negative.
pub open spec fn dec_int(n: int) -> Seq<char> {
    if n < 0 {
        seq!['-'] + dec_digits((-n) as nat)
    } else {
        dec_digits(n as nat)
    }
}

/// The digit portion of an integer literal, past an optional sign.
pub open spec fn literal_digits(s: Seq<char>) -> Seq<char> {
    if s.len() > 0 && (s[0] == '+' || s[0] == '-') {
        s.skip(1)
    } else {
        s
    }
}

/// A signed base-10 integer literal: an optional sign, then one or more
/// digits.
pub open spec fn is_int_literal(s: Seq<char>) -> bool {
    literal_digits(s).len() > 0 && all_digits(literal_digits(s))
}

/// The integer a literal denotes.
pub open spec fn int_literal_val(s: Seq<char>) -> int {
    if s.len() > 0 && s[0] == '-' {
        -(digits_val(s.skip(1)) as int)
    } else {
        digits_val(literal_digits(s)) as int
    }
}

/// A literal that a 32-bit signed cell can hold.
pub open spec fn is_i32_literal(s: Seq<char>) -> bool {
    is_int_literal(s) && i32::MIN <= int_literal_val(s) <= i32::MAX
}

/// An unsigned literal (an optional plus sign, then digits) that fits in
/// 32 bits.
pub open spec fn is_u32_literal(s: Seq<char>) -> bool {
    &&& literal_digits(s).len() > 0
    &&& (s.len() > 0 ==> s[0] != '-')
    &&& all_digits(literal_digits(s))
    &&& digits_val(literal_digits(s)) <= u32::MAX
}

/// The canonical numeral of a number consists of digits and denotes the
/// number itself.
pub proof fn lemma_dec_digits(n: nat)
    ensures
        dec_digits(n).len() >= 1,
        all_digits(dec_digits(n)),
        digits_val(dec_digits(n)) == n,
    decreases n,
{
    if n < 10 {
        assert(dec_digits(n) =~= seq![digit_char(n as int)]);
        assert(digits_val(seq![digit_char(n as int)].drop_last()) == 0);
    } else {
        lemma_dec_digits(n / 10);
        let w = dec_digits(n / 10).push(digit_char((n % 10) as int));
        assert(w.drop_last() =~= dec_digits(n / 10));
        assert(digits_val(w) == (n / 10) * 10 + n % 10);
        assert(n / 10 * 10 + n % 10 == n) by {
            vstd::arithmetic::div_mod::lemma_fundamental_div_mod(n as int, 10);
        }
    }
}

/// Scan the tail of `s` from `start` as a digit string, accumulating its
/// value and saturating at `cap + 1`.
fn scan_digits(s: &str, start: usize, cap: u64) -> (r: Option<u64>)
    requires
        start <= s@.len(),
        cap <= 0xffff_ffff_u64,
    ensures
        r is Some <==> (s@.skip(start as int).len() > 0 && all_digits(s@.skip(start as int))),
        r matches Some(v) ==> {
            let value = digits_val(s@.skip(start as int));
            if value <= cap {
                v == value
            } else {
                v == cap + 1
            }
        },
{
    let ghost d = s@.skip(start as int);
    let len = s.unicode_len();
    if start >= len {
        return None;
    }
    let mut acc: u64 = 0;
    let mut i: usize = start;
    while i < len
        invariant
            start <= i <= len,
            len == s@.len(),
            d == s@.skip(start as int),
            cap <= 0xffff_ffff_u64,
            all_digits(d.take(i - start)),
            digits_val(d.take(i - start)) <= cap ==> acc == digits_val(d.take(i - start)),
            digits_val(d.take(i - start)) > cap ==> acc == cap + 1,
            acc <= cap + 1,
        decreases len - i,
    {
        let c = s.get_char(i);
        let zero = '0' as u32;
        let cv = c as u32;
        if cv < zero || cv > zero + 9 {
            proof {
                assert(d[i - start] == s@[i as int]);
                assert(!is_digit_char(d[i - start]));
            }
            return None;
        }
        let dv = (cv - zero) as u64;
        proof {
            assert(d.take(i + 1 - start).drop_last() =~= d.take(i - start));
            assert(d.take(i + 1 - start).last() == d[i - start]);
            assert(d[i - start] == s@[i as int]);
        }
        let next = acc * 10 + dv;
        if next > cap {
            acc = cap + 1;
            assert(digits_val(d.take(i + 1 - start)) > cap);
        } else {
            acc = next;
        }
        i = i + 1;
    }
    proof {
        assert(d.take(len - start) =~= d);
    }
    Some(acc)
}

/// Parse a base-10 signed 32-bit integer, exactly accepting the literals
/// `is_i32_literal` describes.
pub fn parse_i32(s: &str) -> (r: Result<i32, VmError>)
    ensures
        is_i32_literal(s@) ==> r == Ok::<i32, VmError>(int_literal_val(s@) as i32),
        !is_i32_literal(s@) ==> r == Err::<i32, VmError>(VmError::ParseError),
{
    let len = s.unicode_len();
    if len == 0 {
        return Err(VmError::ParseError);
    }
    let c0 = s.get_char(0);
    let negative = c0 == '-';
    let start: usize = if c0 == '-' || c0 == '+' {
        1
    } else {
        0
    };
    proof {
        if start == 0 {
            assert(s@.skip(0) =~= s@);
        }
    }
    match scan_digits(s, start, 0x8000_0000u64) {
        None => Err(VmError::ParseError),
        Some(mag) => {
            if negative {
                if mag > 0x8000_0000u64 {
                    Err(VmError::ParseError)
                } else {
                    Ok((-(mag as i64)) as i32)
                }
            } else {
                if mag >= 0x8000_0000u64 {
                    Err(VmError::ParseError)
                } else {
                    Ok(mag as i32)
                }
            }
        },
    }
}

/// Parse a base-10 unsigned 32-bit integer, exactly accepting the
/// literals `is_u32_literal` describes.
pub fn parse_u32(s: &str) -> (r: Result<u32, VmError>)
    ensures
        is_u32_literal(s@) ==> r == Ok::<u32, VmError>(digits_val(literal_digits(s@)) as u32),
        !is_u32_literal(s@) ==> r == Err::<u32, VmError>(VmError::ParseError),
{
    let len = s.unicode_len();
    if len == 0 {
        return Err(VmError::ParseError);
    }
    let c0 = s.get_char(0);
    if c0 == '-' {
        return Err(VmError::ParseError);
    }
    let start: usize = if c0 == '+' {
        1
    } else {
        0
    };
    proof {
        if start == 0 {
            assert(s@.skip(0) =~= s@);
        }
    }
    match scan_digits(s, start, u32::MAX as u64) {
        None => Err(VmError::ParseError),
        Some(v) => {
            if v > u32::MAX as u64 {
                Err(VmError::ParseError)
            } else {
                Ok(v as u32)
            }
        },
    }
}

/// Append one digit character.
fn push_digit(out: &mut String, d: u32)
    requires
        d < 10,
    ensures
        final(out)@ == old(out)@ + seq![digit_char(d as int)],
{
    proof {
        reveal_strlit("0");
        reveal_strlit("1");
        reveal_strlit("2");
        reveal_strlit("3");
        reveal_strlit("4");
        reveal_strlit("5");
        reveal_strlit("6");
        reveal_strlit("7");
        reveal_strlit("8");
        reveal_strlit("9");
    }
    if d == 0 {
        out.append("0");
    } else if d == 1 {
        out.append("1");
    } else if d == 2 {
        out.append("2");
    } else if d == 3 {
        out.append("3");
    } else if d == 4 {
        out.append("4");
    } else if d == 5 {
        out.append("5");
    } else if d == 6 {
        out.append("6");
    } else if d == 7 {
        out.append("7");
    } else if d == 8 {
        out.append("8");
    } else {
        out.append("9");
    }
}

/// Append the decimal numeral of an unsigned number.
pub fn push_u32(out: &mut String, n: u32)
    ensures
        final(out)@ == old(out)@ + dec_digits(n as nat),
    decreases n,
{
    if n < 10 {
        push_digit(out, n);
    } else {
        push_u32(out, n / 10);
        push_digit(out, n % 10);
        proof {
            assert(old(out)@ + dec_digits((n / 10) as nat) + seq![
                digit_char((n % 10) as int),
            ] =~= old(out)@ + dec_digits(n as nat));
        }
    }
}

/// Append the decimal numeral of a signed number, minus sign included.
pub fn push_i32(out: &mut String, n: i32)
    ensures
        final(out)@ == old(out)@ + dec_int(n as int),
{
    proof {
        reveal_strlit("-");
    }
    if n < 0 {
        out.append("-");
        let mag = (-(n as i64)) as u32;
        assert(mag == -(n as int));
        push_u32(out, mag);
        proof {
            assert(old(out)@ + seq!['-'] + dec_digits((-(n as int)) as nat) =~= old(out)@
                + dec_int(n as int));
        }
    } else {
        push_u32(out, n as u32);
    }
}

/// The decimal numeral of an unsigned number as a fresh string.
pub fn u32_to_string(n: u32) -> (r: String)
    ensures
        r@ == dec_digits(n as nat),
{
    let mut out = String::new();
    push_u32(&mut out, n);
    proof {
        assert(Seq::<char>::empty() + dec_digits(n as nat) =~= dec_digits(n as nat));
    }
    out
}

} // verus!
