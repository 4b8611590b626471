//! Small text helpers with exact specifications: decimal rendering of integers,
//! Unicode whitespace trimming and decimal parsing.

use vstd::prelude::*;
use vstd::utf8::{encode_utf8, is_ascii_chars, is_ascii_chars_encode_utf8};
use crate::wire::string_from_utf8;

verus! {

broadcast use vstd::utf8::group_utf8_lib;

/// The character of decimal digit `d`.
pub open spec fn digit_char(d: nat) -> char {
    ((d + 48) as u8) as char
}

/// The decimal digits of `n`, most significant first, without leading zeros.
pub open spec fn nat_digits(n: nat) -> Seq<char>
    decreases n,
{
    if n < 10 {
        seq![digit_char(n)]
    } else {
        nat_digits(n / 10).push(digit_char(n % 10))
    }
}

/// How an `i32` is written in decimal: a minus sign for negative values, then the
/// digits of the magnitude.
pub open spec fn i32_decimal(v: i32) -> Seq<char> {
    if v < 0 {
        seq!['-'] + nat_digits((-v) as nat)
    } else {
        nat_digits(v as nat)
    }
}

proof fn lemma_nat_digits_ascii(n: nat)
    ensures
        is_ascii_chars(nat_digits(n)),
    decreases n,
{
    if n >= 10 {
        lemma_nat_digits_ascii(n / 10);
        let d = nat_digits(n);
        assert forall|i| 0 <= i < d.len() implies '\0' <= #[trigger] d[i] <= '\u{7f}' by {
            if i < d.len() - 1 {
                assert(d[i] == nat_digits(n / 10)[i]);
            }
        }
    }
}

fn push_digits(n: u32, out: &mut Vec<u8>)
    ensures
        final(out)@ == old(out)@ + nat_digits(n as nat).map_values(|c: char| c as u8),
    decreases n,
{
    if n >= 10 {
        push_digits(n / 10, out);
    }
    let d: u8 = (n % 10) as u8;
    out.push(d + 48);
    proof {
        let ghost prev = nat_digits((n / 10) as nat);
        if n >= 10 {
            assert(nat_digits(n as nat) == prev.push(digit_char((n % 10) as nat)));
            assert(nat_digits(n as nat).map_values(|c: char| c as u8) =~= prev.map_values(
                |c: char| c as u8,
            ).push((d + 48) as u8));
        } else {
            assert(nat_digits(n as nat).map_values(|c: char| c as u8) =~= seq![(d + 48) as u8]);
        }
    }
}

/// Writes `v` in decimal, as `format!("{}", v)` does.
pub fn i32_to_decimal(v: i32) -> (s: String)
    ensures
        s@ == i32_decimal(v),
{
    let mut bytes: Vec<u8> = Vec::new();
    let magnitude: u32 = if v < 0 {
        if v == i32::MIN {
            2147483648u32
        } else {
            (-v) as u32
        }
    } else {
        v as u32
    };
    if v < 0 {
        bytes.push(45u8);
    }
    push_digits(magnitude, &mut bytes);
    let ghost chars = i32_decimal(v);
    proof {
        lemma_nat_digits_ascii(magnitude as nat);
        assert(is_ascii_chars(chars)) by {
            if v < 0 {
                assert forall|i| 0 <= i < chars.len() implies '\0' <= #[trigger] chars[i] <= '\u{7f}' by {
                    if i > 0 {
                        assert(chars[i] == nat_digits(magnitude as nat)[i - 1]);
                    }
                }
            }
        }
        is_ascii_chars_encode_utf8(chars);
        assert(bytes@ =~= encode_utf8(chars));
    }
    match string_from_utf8(bytes) {
        Some(s) => s,
        None => {
            proof {
                vstd::utf8::encode_utf8_valid_utf8(chars);
            }
            assert(false);
            String::new()
        },
    }
}

/// The characters with the Unicode White_Space property.
pub open spec fn is_whitespace(c: char) -> bool {
    let u = c as u32;
    ||| 9 <= u <= 13
    ||| u == 32
    ||| u == 0x85
    ||| u == 0xa0
    ||| u == 0x1680
    ||| 0x2000 <= u <= 0x200a
    ||| u == 0x2028
    ||| u == 0x2029
    ||| u == 0x202f
    ||| u == 0x205f
    ||| u == 0x3000
}

pub open spec fn trim_start_chars(s: Seq<char>) -> Seq<char>
    decreases s.len(),
{
    if s.len() > 0 && is_whitespace(s[0]) {
        trim_start_chars(s.drop_first())
    } else {
        s
    }
}

pub open spec fn trim_end_chars(s: Seq<char>) -> Seq<char>
    decreases s.len(),
{
    if s.len() > 0 && is_whitespace(s.last()) {
        trim_end_chars(s.drop_last())
    } else {
        s
    }
}

/// `s` without its leading and trailing whitespace.
pub open spec fn trim_chars(s: Seq<char>) -> Seq<char> {
    trim_end_chars(trim_start_chars(s))
}

/// Calls `str::trim`, which the standard library documents as removing leading
/// and trailing characters with the Unicode White_Space property.
#[verifier::external_body]
pub(crate) fn trim(s: &str) -> (res: &str)
    ensures
        res@ == trim_chars(s@),
{
    s.trim()
}

/// The value of a decimal numeral: ASCII digits, most significant first.
pub open spec fn digits_value(s: Seq<char>) -> nat
    decreases s.len(),
{
    if s.len() == 0 {
        0
    } else {
        10 * digits_value(s.drop_last()) + ((s.last() as u32) - 48) as nat
    }
}

pub open spec fn is_ascii_digit(c: char) -> bool {
    '0' <= c <= '9'
}

/// What `u32::from_str` accepts: an optional `+`, then one or more ASCII digits,
/// with a value that fits in 32 bits.
pub open spec fn parse_u32_chars(s: Seq<char>) -> Option<u32> {
    let digits = if s.len() > 0 && s[0] == '+' {
        s.drop_first()
    } else {
        s
    };
    if digits.len() > 0 && (forall|i: int| 0 <= i < digits.len() ==> is_ascii_digit(
        #[trigger] digits[i],
    )) && digits_value(digits) <= u32::MAX {
        Some(digits_value(digits) as u32)
    } else {
        None
    }
}

/// Calls `str::parse::<u32>`, which the standard library documents as accepting
/// an optional `+` sign followed by decimal digits, and failing on anything else
/// and on values that do not fit.
#[verifier::external_body]
pub(crate) fn parse_u32(s: &str) -> (res: Option<u32>)
    ensures
        res == parse_u32_chars(s@),
{
    s.parse::<u32>().ok()
}

} // verus!
