//! Parsing colors written as `#RRGGBB` hexadecimal strings.

use vstd::prelude::*;
use crate::colour::Rgb24;

verus! {

/// Why a color string was rejected.
#[derive(Clone, Copy, Debug, PartialEq, Eq, Structural)]
pub enum ColourError {
    /// The string is empty where digits were required.
    Empty,
    /// A character is not a hexadecimal digit.
    InvalidDigit,
    /// The digits denote a value above the channel maximum.
    Overflow,
    /// The string does not start with `#` followed by six hexadecimal digits.
    BadFormat,
}

/// The numeric value of one hexadecimal digit, `None` for any other
/// character.
pub open spec fn hex_digit_value(c: char) -> Option<u8> {
    if '0' <= c && c <= '9' {
        Some((c as u32 - '0' as u32) as u8)
    } else if 'a' <= c && c <= 'f' {
        Some((c as u32 - 'a' as u32 + 10) as u8)
    } else if 'A' <= c && c <= 'F' {
        Some((c as u32 - 'A' as u32 + 10) as u8)
    } else {
        None
    }
}

/// Every character is a hexadecimal digit.
pub open spec fn hex_digits_ok(s: Seq<char>) -> bool {
    forall|i: int| 0 <= i < s.len() ==> hex_digit_value(#[trigger] s[i]) is Some
}

/// The value of a big-endian string of hexadecimal digits (non-digits count
/// as zero; `hex_digits_ok` says when that cannot happen).
pub open spec fn hex_value(s: Seq<char>) -> nat
    decreases s.len(),
{
    if s.len() == 0 {
        0
    } else {
        hex_value(s.drop_last()) * 16 + match hex_digit_value(s.last()) {
            Some(d) => d as nat,
            None => 0nat,
        }
    }
}

/// The color denoted by `#RRGGBB` at the start of the string (trailing
/// characters are ignored), or `None` where the string has no such prefix.
pub open spec fn hex_rgb24_of(s: Seq<char>) -> Option<Rgb24> {
    if s.len() >= 7 && s[0] == '#' && hex_digits_ok(s.subrange(1, 7)) {
        Some(
            Rgb24 {
                r: hex_value(s.subrange(1, 3)) as u8,
                g: hex_value(s.subrange(3, 5)) as u8,
                b: hex_value(s.subrange(5, 7)) as u8,
            },
        )
    } else {
        None
    }
}

/// True exactly when `c` is a hexadecimal digit, of either case.
pub fn is_hex_digit(c: char) -> (r: bool)
    ensures
        r == (hex_digit_value(c) is Some),
{
    ('0' <= c && c <= '9') || ('a' <= c && c <= 'f') || ('A' <= c && c <= 'F')
}

/// The numeric value of one hexadecimal digit.
fn hex_digit_val(c: char) -> (r: Option<u8>)
    ensures
        r == hex_digit_value(c),
{
    if '0' <= c && c <= '9' {
        Some((c as u32 - '0' as u32) as u8)
    } else if 'a' <= c && c <= 'f' {
        Some((c as u32 - 'a' as u32 + 10) as u8)
    } else if 'A' <= c && c <= 'F' {
        Some((c as u32 - 'A' as u32 + 10) as u8)
    } else {
        None
    }
}

/// The value of two hexadecimal digits is below 256.
proof fn lemma_hex_value_pair(s: Seq<char>)
    requires
        s.len() == 2,
        hex_digits_ok(s),
    ensures
        hex_value(s) <= 255,
        hex_value(s) == (hex_digit_value(s[0]).unwrap() as nat) * 16 + hex_digit_value(s[1]).unwrap() as nat,
{
    assert(hex_digit_value(s[0]) is Some && hex_digit_value(s[1]) is Some);
    let t = s.drop_last();
    assert(t.len() == 1 && t[0] == s[0] && t.last() == s[0] && s.last() == s[1]);
    assert(t.drop_last().len() == 0);
    assert(hex_value(t.drop_last()) == 0);
    assert(hex_value(t) == hex_value(t.drop_last()) * 16 + hex_digit_value(s[0]).unwrap() as nat);
    assert(hex_value(s) == hex_value(t) * 16 + hex_digit_value(s[1]).unwrap() as nat);
    assert(hex_digit_value(s[0]).unwrap() < 16 && hex_digit_value(s[1]).unwrap() < 16);
}

/// A byte value read from a string of hexadecimal digits, as a number written
/// in base sixteen (digits only: no sign, no prefix). Rejects an empty
/// string, any non-digit character, and any value above the byte maximum,
/// each with its own error.
pub fn from_hex(input: &str) -> (r: Result<u8, ColourError>)
    ensures
        input@.len() == 0 <==> r == Err::<u8, ColourError>(ColourError::Empty),
        (input@.len() > 0 && !hex_digits_ok(input@)) <==> r == Err::<u8, ColourError>(
            ColourError::InvalidDigit,
        ),
        (input@.len() > 0 && hex_digits_ok(input@) && hex_value(input@) > 255) <==> r == Err::<
            u8,
            ColourError,
        >(ColourError::Overflow),
        r is Ok ==> r->Ok_0 == hex_value(input@) && hex_value(input@) <= 255,
{
    let n = input.unicode_len();
    if n == 0 {
        return Err(ColourError::Empty);
    }
    let mut i: usize = 0;
    while i < n
        invariant
            i <= n,
            n == input@.len(),
            forall|k: int| 0 <= k < i ==> hex_digit_value(#[trigger] input@[k]) is Some,
        decreases n - i,
    {
        let c = input.get_char(i);
        if !is_hex_digit(c) {
            return Err(ColourError::InvalidDigit);
        }
        i = i + 1;
    }
    let mut acc: u32 = 0;
    let mut i: usize = 0;
    while i < n
        invariant
            i <= n,
            n == input@.len(),
            hex_digits_ok(input@),
            acc == hex_value(input@.take(i as int)),
            acc <= 255,
        decreases n - i,
    {
        let c = input.get_char(i);
        let d = match hex_digit_val(c) {
            Some(d) => d,
            None => {
                proof {
                    assert(hex_digit_value(input@[i as int]) is Some);
                }
                return Err(ColourError::InvalidDigit);
            },
        };
        let next: u32 = acc * 16 + d as u32;
        proof {
            assert(input@.take(i + 1).drop_last() =~= input@.take(i as int));
            assert(input@.take(i + 1).last() == input@[i as int]);
            assert(d < 16);
        }
        if next > 255 {
            proof {
                lemma_hex_value_prefix_le(input@, i + 1);
            }
            return Err(ColourError::Overflow);
        }
        acc = next;
        i = i + 1;
    }
    proof {
        assert(input@.take(n as int) =~= input@);
    }
    Ok(acc as u8)
}

/// Appending digits can only grow the value.
proof fn lemma_hex_value_prefix_le(s: Seq<char>, i: int)
    requires
        0 <= i <= s.len(),
    ensures
        hex_value(s.take(i)) <= hex_value(s),
    decreases s.len() - i,
{
    if i < s.len() {
        assert(s.take(i + 1).drop_last() =~= s.take(i));
        assert(hex_value(s.take(i + 1)) == hex_value(s.take(i)) * 16 + match hex_digit_value(
            s.take(i + 1).last(),
        ) {
            Some(d) => d as nat,
            None => 0nat,
        });
        assert(hex_value(s.take(i)) <= hex_value(s.take(i)) * 16) by (nonlinear_arith);
        lemma_hex_value_prefix_le(s, i + 1);
        assert(s.take(s.len() as int) =~= s);
    } else {
        assert(s.take(i) =~= s);
    }
}

/// The color written `#RRGGBB` at the start of the string; characters after
/// the six digits are ignored. Rejects anything else.
pub fn parse_hex_rgb24(input: &str) -> (r: Result<Rgb24, ColourError>)
    ensures
        r is Ok <==> hex_rgb24_of(input@) is Some,
        r is Ok ==> Some(r->Ok_0) == hex_rgb24_of(input@),
        r is Err ==> r->Err_0 == ColourError::BadFormat,
{
    let n = input.unicode_len();
    if n < 7 {
        return Err(ColourError::BadFormat);
    }
    if input.get_char(0) != '#' {
        return Err(ColourError::BadFormat);
    }
    let c1 = input.get_char(1);
    let c2 = input.get_char(2);
    let c3 = input.get_char(3);
    let c4 = input.get_char(4);
    let c5 = input.get_char(5);
    let c6 = input.get_char(6);
    let (d1, d2, d3, d4, d5, d6) = match (
        hex_digit_val(c1),
        hex_digit_val(c2),
        hex_digit_val(c3),
        hex_digit_val(c4),
        hex_digit_val(c5),
        hex_digit_val(c6),
    ) {
        (Some(d1), Some(d2), Some(d3), Some(d4), Some(d5), Some(d6)) => (d1, d2, d3, d4, d5, d6),
        _ => {
            proof {
                if hex_digits_ok(input@.subrange(1, 7)) {
                    assert(hex_digit_value(input@.subrange(1, 7)[0]) is Some);
                    assert(hex_digit_value(input@.subrange(1, 7)[1]) is Some);
                    assert(hex_digit_value(input@.subrange(1, 7)[2]) is Some);
                    assert(hex_digit_value(input@.subrange(1, 7)[3]) is Some);
                    assert(hex_digit_value(input@.subrange(1, 7)[4]) is Some);
                    assert(hex_digit_value(input@.subrange(1, 7)[5]) is Some);
                }
            }
            return Err(ColourError::BadFormat);
        },
    };
    let red: u8 = d1 * 16 + d2;
    let green: u8 = d3 * 16 + d4;
    let blue: u8 = d5 * 16 + d6;
    proof {
        assert forall|k: int| 0 <= k < 6 implies hex_digit_value(
            #[trigger] input@.subrange(1, 7)[k],
        ) is Some by {
            assert(input@.subrange(1, 7)[k] == input@[k + 1]);
        }
        lemma_hex_value_pair(input@.subrange(1, 3));
        lemma_hex_value_pair(input@.subrange(3, 5));
        lemma_hex_value_pair(input@.subrange(5, 7));
        assert(input@.subrange(1, 3)[0] == c1 && input@.subrange(1, 3)[1] == c2);
        assert(input@.subrange(3, 5)[0] == c3 && input@.subrange(3, 5)[1] == c4);
        assert(input@.subrange(5, 7)[0] == c5 && input@.subrange(5, 7)[1] == c6);
    }
    Ok(Rgb24 { r: red, g: green, b: blue })
}

} // verus!
