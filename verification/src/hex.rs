//! Hexadecimal text: what it denotes, and how it is read and written.

use crate::text::digit_str;
use vstd::prelude::*;
use vstd::string::StringExecFns;

verus! {

/// The value of a hexadecimal digit of either case, if the character is one.
pub open spec fn hex_digit_value(c: char) -> Option<u8> {
    let n = c as u32;
    if 48 <= n <= 57 {
        Some((n - 48) as u8)
    } else if 97 <= n <= 102 {
        Some((n - 87) as u8)
    } else if 65 <= n <= 70 {
        Some((n - 55) as u8)
    } else {
        None
    }
}

/// The lower-case hexadecimal digit of a value below 16.
pub open spec fn hex_digit_char(n: int) -> char {
    if n < 10 {
        (48 + n) as char
    } else {
        (87 + n) as char
    }
}

/// The text without a leading `0x` or `0X`.
pub open spec fn strip_hex_prefix(s: Seq<char>) -> Seq<char> {
    if s.len() >= 2 && s[0] == '0' && (s[1] == 'x' || s[1] == 'X') {
        s.skip(2)
    } else {
        s
    }
}

/// Every character is a hexadecimal digit.
pub open spec fn is_hex_digits(s: Seq<char>) -> bool {
    forall|i: int| 0 <= i < s.len() ==> (#[trigger] hex_digit_value(s[i])) is Some
}

/// The bytes that pairs of digits denote, high digit first.
pub open spec fn hex_pairs(s: Seq<char>) -> Seq<u8> {
    Seq::new(
        s.len() / 2,
        |i: int| (hex_digit_value(s[2 * i])->0 * 16 + hex_digit_value(s[2 * i + 1])->0) as u8,
    )
}

/// The bytes that a hexadecimal text denotes: after an optional `0x` or `0X`,
/// an even number of digits of either case. Any other text denotes nothing.
pub open spec fn hex_decoded(s: Seq<char>) -> Option<Seq<u8>> {
    let digits = strip_hex_prefix(s);
    if digits.len() % 2 == 0 && is_hex_digits(digits) {
        Some(hex_pairs(digits))
    } else {
        None
    }
}

/// The lower-case hexadecimal text of a byte sequence, two digits per byte,
/// without a prefix.
pub open spec fn hex_encoded(data: Seq<u8>) -> Seq<char> {
    Seq::new(
        2 * data.len(),
        |i: int|
            hex_digit_char(
                if i % 2 == 0 {
                    data[i / 2] as int / 16
                } else {
                    data[i / 2] as int % 16
                },
            ),
    )
}

/// A digit that was written is read back as the value it stands for, and is
/// neither a space nor a letter of the prefix.
pub proof fn lemma_digit_round_trip(n: int)
    requires
        0 <= n < 16,
    ensures
        hex_digit_value(hex_digit_char(n)) == Some(n as u8),
        hex_digit_char(n) != ' ',
        hex_digit_char(n) != 'x',
        hex_digit_char(n) != 'X',
{
}

/// Text that was encoded decodes to the bytes it was made from, and holds
/// no space.
pub proof fn lemma_hex_round_trip(data: Seq<u8>)
    ensures
        hex_decoded(hex_encoded(data)) == Some(data),
        forall|j: int| 0 <= j < hex_encoded(data).len() ==> hex_encoded(data)[j] != ' ',
{
    let text = hex_encoded(data);
    assert forall|j: int| 0 <= j < text.len() implies (#[trigger] hex_digit_value(text[j])) is Some
        && text[j] != ' ' && text[j] != 'x' && text[j] != 'X' by {
        let byte = data[j / 2] as int;
        if j % 2 == 0 {
            lemma_digit_round_trip(byte / 16);
        } else {
            lemma_digit_round_trip(byte % 16);
        }
    }
    if text.len() >= 2 {
        assert(hex_digit_value(text[1]) is Some);
    }
    assert(strip_hex_prefix(text) == text);
    assert forall|i: int| 0 <= i < data.len() implies hex_pairs(text)[i] == data[i] by {
        let byte = data[i] as int;
        lemma_digit_round_trip(byte / 16);
        lemma_digit_round_trip(byte % 16);
        assert((2 * i) / 2 == i && (2 * i) % 2 == 0);
        assert((2 * i + 1) / 2 == i && (2 * i + 1) % 2 == 1);
    }
    assert(hex_pairs(text) =~= data);
}

/// The value of a hexadecimal digit of either case, if the character is one.
fn digit_value(c: char) -> (r: Option<u8>)
    ensures
        r == hex_digit_value(c),
{
    let n = c as u32;
    if 48 <= n && n <= 57 {
        Some((n - 48) as u8)
    } else if 97 <= n && n <= 102 {
        Some((n - 87) as u8)
    } else if 65 <= n && n <= 70 {
        Some((n - 55) as u8)
    } else {
        None
    }
}

/// Decodes hexadecimal text: the bytes that `hex_decoded` gives it, and
/// nothing for a text that denotes nothing.
pub fn hex_decode(text: &str) -> (r: Option<Vec<u8>>)
    ensures
        r matches Some(bytes) ==> hex_decoded(text@) == Some(bytes@),
        r is None ==> hex_decoded(text@) is None,
{
    let mut chars: Vec<char> = Vec::new();
    for c in it: text.chars()
        invariant
            it.seq() == text@,
            chars@ == text@.take(it.index() as int),
    {
        chars.push(c);
        assert(text@.take(it.index() + 1) =~= text@.take(it.index() as int).push(c));
    }
    assert(chars@ =~= text@);
    let n = chars.len();
    let start: usize = if n >= 2 && chars[0] == '0' && (chars[1] == 'x' || chars[1] == 'X') {
        2
    } else {
        0
    };
    let ghost digits = strip_hex_prefix(text@);
    assert(digits =~= text@.skip(start as int));
    if (n - start) % 2 != 0 {
        return None;
    }
    let mut out: Vec<u8> = Vec::new();
    let mut i: usize = start;
    while i < n
        invariant
            start <= i <= n,
            n == chars@.len(),
            chars@ == text@,
            digits == text@.skip(start as int),
            digits == strip_hex_prefix(text@),
            (n - start) % 2 == 0,
            (i - start) % 2 == 0,
            out@.len() == (i - start) / 2,
            forall|j: int| 0 <= j < i - start ==> (#[trigger] hex_digit_value(digits[j])) is Some,
            forall|p: int| 0 <= p < out@.len() ==> out@[p] == hex_pairs(digits)[p],
        decreases n - i,
    {
        let ghost p = (i - start) / 2;
        assert(digits[2 * p] == chars@[i as int]);
        assert(digits[2 * p + 1] == chars@[i + 1]);
        match (digit_value(chars[i]), digit_value(chars[i + 1])) {
            (Some(high), Some(low)) => {
                out.push(high * 16 + low);
            },
            _ => {
                assert(!is_hex_digits(digits)) by {
                    if is_hex_digits(digits) {
                        assert(hex_digit_value(digits[2 * p]) is Some);
                        assert(hex_digit_value(digits[2 * p + 1]) is Some);
                    }
                }
                return None;
            },
        }
        i = i + 2;
    }
    assert(is_hex_digits(digits));
    assert(out@ =~= hex_pairs(digits));
    Some(out)
}

/// Encodes bytes as hexadecimal text: two lower-case digits per byte, high
/// digit first, without a prefix.
pub fn hex_encode(data: &[u8]) -> (r: String)
    ensures
        r@ == hex_encoded(data@),
{
    let mut out = String::new();
    let n = data.len();
    let mut i: usize = 0;
    while i < n
        invariant
            i <= n,
            n == data@.len(),
            out@.len() == 2 * i,
            forall|j: int| 0 <= j < 2 * i ==> out@[j] == hex_encoded(data@)[j],
        decreases n - i,
    {
        let byte = data[i];
        out.append(digit_str((byte / 16) as u64));
        out.append(digit_str((byte % 16) as u64));
        assert((2 * i) / 2 == i && (2 * i) % 2 == 0);
        assert((2 * i + 1) / 2 == i && (2 * i + 1) % 2 == 1);
        i = i + 1;
    }
    assert(out@ =~= hex_encoded(data@));
    out
}

} // verus!
