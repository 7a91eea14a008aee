//! Numbers as text: reading an integer in a radix, with the range of the
//! integer type it is read into, and writing one in decimal or as a hex byte.

use vstd::prelude::*;
use vstd::string::StringExecFns;

verus! {

/// The value of a character as a digit: `0`-`9` are 0 to 9, and the letters
/// `a`-`z` and `A`-`Z` are 10 to 35.
pub open spec fn digit_value(c: char) -> Option<nat> {
    let u = c as u32;
    if 0x30 <= u <= 0x39 {
        Some((u - 0x30) as nat)
    } else if 0x61 <= u <= 0x7a {
        Some((u - 0x61 + 10) as nat)
    } else if 0x41 <= u <= 0x5a {
        Some((u - 0x41 + 10) as nat)
    } else {
        None
    }
}

/// The number that a run of digits denotes in a radix, most significant digit
/// first; `None` if a character is no digit of that radix. The empty run
/// denotes zero.
pub open spec fn digits_value(s: Seq<char>, radix: nat) -> Option<nat>
    decreases s.len(),
{
    if s.len() == 0 {
        Some(0)
    } else {
        match (digits_value(s.drop_last(), radix), digit_value(s.last())) {
            (Some(high), Some(d)) => if d < radix {
                Some(high * radix + d)
            } else {
                None
            },
            _ => None,
        }
    }
}

/// What a text denotes as an unsigned integer no larger than `max`: an
/// optional `+`, then at least one digit and nothing else. `None` for any
/// other text and for a number above `max`.
pub open spec fn unsigned_value(s: Seq<char>, radix: nat, max: nat) -> Option<nat> {
    let digits = if s.len() > 0 && s[0] == '+' {
        s.drop_first()
    } else {
        s
    };
    if digits.len() == 0 {
        None
    } else {
        match digits_value(digits, radix) {
            Some(v) => if v <= max {
                Some(v)
            } else {
                None
            },
            None => None,
        }
    }
}

/// What a text denotes as a signed integer between `min` and `max`: an
/// optional `+` or `-`, then at least one digit and nothing else.
pub open spec fn signed_value(s: Seq<char>, radix: nat, min: int, max: int) -> Option<int>
    recommends
        min <= 0 <= max,
{
    if s.len() > 0 && s[0] == '-' {
        let digits = s.drop_first();
        if digits.len() == 0 {
            None
        } else {
            match digits_value(digits, radix) {
                Some(v) => if -(v as int) >= min {
                    Some(-(v as int))
                } else {
                    None
                },
                None => None,
            }
        }
    } else {
        match unsigned_value(s, radix, max as nat) {
            Some(v) => Some(v as int),
            None => None,
        }
    }
}

/// A run of digits that denotes a number denotes, cut short, a number that
/// is no larger.
pub proof fn lemma_digits_prefix(s: Seq<char>, k: int, radix: nat)
    requires
        0 <= k <= s.len(),
        radix >= 1,
        digits_value(s, radix) is Some,
    ensures
        digits_value(s.take(k), radix) is Some,
        digits_value(s.take(k), radix)->0 <= digits_value(s, radix)->0,
    decreases s.len(),
{
    if k == s.len() {
        assert(s.take(k) =~= s);
    } else {
        let high = digits_value(s.drop_last(), radix)->0;
        let d = digit_value(s.last())->0;
        assert(s.drop_last().take(k) =~= s.take(k));
        lemma_digits_prefix(s.drop_last(), k, radix);
        assert(high <= high * radix + d) by (nonlinear_arith)
            requires
                radix >= 1,
        ;
    }
}

/// The digit that a character stands for, if any.
pub fn digit_of(c: char) -> (r: Option<u32>)
    ensures
        r matches Some(d) ==> digit_value(c) == Some(d as nat) && d < 36,
        r is None ==> digit_value(c) is None,
{
    let u: u32 = c as u32;
    if 0x30 <= u && u <= 0x39 {
        Some(u - 0x30)
    } else if 0x61 <= u && u <= 0x7a {
        Some(u - 0x61 + 10)
    } else if 0x41 <= u && u <= 0x5a {
        Some(u - 0x41 + 10)
    } else {
        None
    }
}

/// Reads the digits of `s` from position `start` to its end as a number no
/// larger than `max`.
pub fn parse_digits(s: &Vec<char>, start: usize, radix: u32, max: u64) -> (r: Option<u64>)
    requires
        start <= s.len(),
        2 <= radix <= 36,
    ensures
        r matches Some(v) ==> digits_value(s@.skip(start as int), radix as nat) == Some(v as nat)
            && v <= max,
        r is None ==> !(digits_value(s@.skip(start as int), radix as nat) matches Some(v) && v
            <= max),
{
    let ghost digits = s@.skip(start as int);
    let n = s.len();
    let mut i: usize = start;
    let mut acc: u64 = 0;
    assert(digits.take(0) =~= Seq::<char>::empty());
    while i < n
        invariant
            start <= i <= n,
            n == s.len(),
            2 <= radix <= 36,
            digits == s@.skip(start as int),
            digits_value(digits.take(i - start), radix as nat) == Some(acc as nat),
            acc <= max,
        decreases n - i,
    {
        let ghost before = digits.take(i - start);
        let ghost upto = digits.take(i - start + 1);
        assert(upto.drop_last() =~= before);
        assert(upto.last() == s@[i as int]);
        let wide: u128 = match digit_of(s[i]) {
            Some(d) => {
                if d >= radix {
                    proof {
                        if digits_value(digits, radix as nat) is Some {
                            lemma_digits_prefix(digits, i - start + 1, radix as nat);
                        }
                    }
                    return None;
                }
                assert(acc * radix <= 0xffff_ffff_ffff_ffff * 36) by (nonlinear_arith)
                    requires
                        acc <= 0xffff_ffff_ffff_ffff,
                        radix <= 36,
                ;
                (acc as u128) * (radix as u128) + (d as u128)
            },
            None => {
                proof {
                    if digits_value(digits, radix as nat) is Some {
                        lemma_digits_prefix(digits, i - start + 1, radix as nat);
                    }
                }
                return None;
            },
        };
        assert(digits_value(upto, radix as nat) == Some(wide as nat));
        if wide > max as u128 {
            proof {
                if digits_value(digits, radix as nat) is Some {
                    lemma_digits_prefix(digits, i - start + 1, radix as nat);
                }
            }
            return None;
        }
        acc = wide as u64;
        i += 1;
    }
    assert(digits.take(i - start) =~= digits);
    Some(acc)
}

/// Reads a text as an unsigned integer no larger than `max`.
pub fn parse_unsigned(s: &Vec<char>, radix: u32, max: u64) -> (r: Option<u64>)
    requires
        2 <= radix <= 36,
    ensures
        r matches Some(v) ==> unsigned_value(s@, radix as nat, max as nat) == Some(v as nat),
        r is None ==> unsigned_value(s@, radix as nat, max as nat) is None,
{
    let start: usize = if s.len() > 0 && s[0] == '+' {
        1
    } else {
        0
    };
    assert(s@.skip(0) =~= s@);
    assert(s@.skip(1) =~= s@.drop_first());
    if start == s.len() {
        return None;
    }
    parse_digits(s, start, radix, max)
}

/// Reads a text as a signed 32-bit integer in decimal.
pub fn parse_i32(s: &Vec<char>) -> (r: Option<i32>)
    ensures
        r matches Some(v) ==> signed_value(s@, 10, i32::MIN as int, i32::MAX as int) == Some(
            v as int,
        ),
        r is None ==> signed_value(s@, 10, i32::MIN as int, i32::MAX as int) is None,
{
    if s.len() > 0 && s[0] == '-' {
        assert(s@.skip(1) =~= s@.drop_first());
        if s.len() == 1 {
            return None;
        }
        match parse_digits(s, 1, 10, 0x8000_0000) {
            Some(v) => {
                let wide: i64 = -(v as i64);
                Some(wide as i32)
            },
            None => None,
        }
    } else {
        match parse_unsigned(s, 10, 0x7fff_ffff) {
            Some(v) => Some(v as i32),
            None => None,
        }
    }
}

/// Reads a text as a 64-bit unsigned integer in decimal.
pub fn parse_u64(s: &Vec<char>) -> (r: Option<u64>)
    ensures
        r matches Some(v) ==> unsigned_value(s@, 10, u64::MAX as nat) == Some(v as nat),
        r is None ==> unsigned_value(s@, 10, u64::MAX as nat) is None,
{
    parse_unsigned(s, 10, u64::MAX)
}

/// Reads a text as a 32-bit unsigned integer in hexadecimal.
pub fn parse_hex_u32(s: &Vec<char>) -> (r: Option<u32>)
    ensures
        r matches Some(v) ==> unsigned_value(s@, 16, u32::MAX as nat) == Some(v as nat),
        r is None ==> unsigned_value(s@, 16, u32::MAX as nat) is None,
{
    match parse_unsigned(s, 16, 0xffff_ffff) {
        Some(v) => Some(v as u32),
        None => None,
    }
}

/// Reads a text as a 16-bit unsigned integer in hexadecimal.
pub fn parse_hex_u16(s: &Vec<char>) -> (r: Option<u16>)
    ensures
        r matches Some(v) ==> unsigned_value(s@, 16, u16::MAX as nat) == Some(v as nat),
        r is None ==> unsigned_value(s@, 16, u16::MAX as nat) is None,
{
    match parse_unsigned(s, 16, 0xffff) {
        Some(v) => Some(v as u16),
        None => None,
    }
}

/// Reads a text as one byte in hexadecimal.
pub fn parse_hex_u8(s: &Vec<char>) -> (r: Option<u8>)
    ensures
        r matches Some(v) ==> unsigned_value(s@, 16, u8::MAX as nat) == Some(v as nat),
        r is None ==> unsigned_value(s@, 16, u8::MAX as nat) is None,
{
    match parse_unsigned(s, 16, 0xff) {
        Some(v) => Some(v as u8),
        None => None,
    }
}

/// The character that writes a digit below sixteen, letters in upper case.
pub open spec fn digit_char(d: nat) -> char {
    if d == 0 {
        '0'
    } else if d == 1 {
        '1'
    } else if d == 2 {
        '2'
    } else if d == 3 {
        '3'
    } else if d == 4 {
        '4'
    } else if d == 5 {
        '5'
    } else if d == 6 {
        '6'
    } else if d == 7 {
        '7'
    } else if d == 8 {
        '8'
    } else if d == 9 {
        '9'
    } else if d == 10 {
        'A'
    } else if d == 11 {
        'B'
    } else if d == 12 {
        'C'
    } else if d == 13 {
        'D'
    } else if d == 14 {
        'E'
    } else {
        'F'
    }
}

/// A number written in decimal, without sign or leading zeros.
pub open spec fn decimal_text(n: nat) -> Seq<char>
    decreases n,
{
    if n < 10 {
        seq![digit_char(n)]
    } else {
        decimal_text(n / 10).push(digit_char(n % 10))
    }
}

/// A signed number written in decimal: `-` before the digits of a negative one.
pub open spec fn signed_decimal_text(n: int) -> Seq<char> {
    if n < 0 {
        seq!['-'] + decimal_text((-n) as nat)
    } else {
        decimal_text(n as nat)
    }
}

/// A byte written as `0x` and two hexadecimal digits in upper case.
pub open spec fn hex_byte_text(b: u8) -> Seq<char> {
    seq!['0', 'x', digit_char((b / 16) as nat), digit_char((b % 16) as nat)]
}

/// Appends the character of a digit below sixteen.
fn push_digit(out: &mut String, d: u8)
    requires
        d < 16,
    ensures
        final(out)@ == old(out)@.push(digit_char(d as nat)),
{
    let lit: &str = if d == 0 {
        "0"
    } else if d == 1 {
        "1"
    } else if d == 2 {
        "2"
    } else if d == 3 {
        "3"
    } else if d == 4 {
        "4"
    } else if d == 5 {
        "5"
    } else if d == 6 {
        "6"
    } else if d == 7 {
        "7"
    } else if d == 8 {
        "8"
    } else if d == 9 {
        "9"
    } else if d == 10 {
        "A"
    } else if d == 11 {
        "B"
    } else if d == 12 {
        "C"
    } else if d == 13 {
        "D"
    } else if d == 14 {
        "E"
    } else {
        "F"
    };
    proof {
        reveal_strlit("0");
        reveal_strlit("1");
        reveal_strlit("2");
        reveal_strlit("3");
        reveal_strlit("4");
        reveal_strlit("5");
        reveal_strlit("6");
        reveal_strlit("7");
        reveal_strlit("8");
        reveal_strlit("9");
        reveal_strlit("A");
        reveal_strlit("B");
        reveal_strlit("C");
        reveal_strlit("D");
        reveal_strlit("E");
        reveal_strlit("F");
        assert(lit@ =~= seq![digit_char(d as nat)]);
        assert(old(out)@ + seq![digit_char(d as nat)] =~= old(out)@.push(digit_char(d as nat)));
    }
    out.append(lit);
}

/// Appends a number in decimal.
pub fn push_decimal(out: &mut String, n: u64)
    ensures
        final(out)@ == old(out)@ + decimal_text(n as nat),
    decreases n,
{
    if n >= 10 {
        push_decimal(out, n / 10);
    }
    push_digit(out, (n % 10) as u8);
    proof {
        if n >= 10 {
            assert(old(out)@ + decimal_text(n as nat) =~= (old(out)@ + decimal_text(
                (n / 10) as nat,
            )).push(digit_char((n % 10) as nat)));
        } else {
            assert(old(out)@ + decimal_text(n as nat) =~= old(out)@.push(digit_char(n as nat)));
        }
    }
}

/// Appends a signed number in decimal.
pub fn push_signed_decimal(out: &mut String, n: i32)
    ensures
        final(out)@ == old(out)@ + signed_decimal_text(n as int),
{
    if n < 0 {
        proof {
            reveal_strlit("-");
            assert("-"@ =~= seq!['-']);
        }
        out.append("-");
        let magnitude: i64 = -(n as i64);
        push_decimal(out, magnitude as u64);
        assert(final(out)@ =~= old(out)@ + signed_decimal_text(n as int));
    } else {
        push_decimal(out, n as u64);
    }
}

/// Appends a byte as `0x` and two hexadecimal digits in upper case.
pub fn push_hex_byte(out: &mut String, b: u8)
    ensures
        final(out)@ == old(out)@ + hex_byte_text(b),
{
    proof {
        reveal_strlit("0x");
        assert("0x"@ =~= seq!['0', 'x']);
    }
    out.append("0x");
    push_digit(out, b / 16);
    push_digit(out, b % 16);
    assert(final(out)@ =~= old(out)@ + hex_byte_text(b));
}

} // verus!

