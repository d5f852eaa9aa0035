//! Lenient reading of palette strings such as `#rrggbb` into 8-bit channels.
//!
//! A palette string never fails to read. Any number of leading `#` is skipped,
//! then each channel takes the next two bytes as hexadecimal digits, most
//! significant first. A channel whose two bytes are missing, or are not both
//! hexadecimal digits, degrades to full intensity, so that a bad palette
//! discolours the picture instead of stopping it. Bytes after the sixth digit
//! are ignored.

use vstd::prelude::*;
use vstd::utf8::encode_utf8;

verus! {

/// The byte `#`, which may lead a palette string.
pub const HASH: u8 = 0x23;

/// The value of a channel that could not be read: full intensity.
pub const FULL: u8 = 0xff;

/// A colour with 8 bits per channel. A channel `c` stands for the intensity `c / 255`.
#[derive(Copy, Clone, Debug, PartialEq, Eq)]
pub struct Rgb8 {
    pub r: u8,
    pub g: u8,
    pub b: u8,
}

/// The value of the hexadecimal digit `b`, in either case, or `None` for any other byte.
pub open spec fn hex_digit_value(b: u8) -> Option<u8> {
    if 0x30 <= b <= 0x39 {
        Some((b - 0x30) as u8)
    } else if 0x61 <= b <= 0x66 {
        Some((b - 0x61 + 10) as u8)
    } else if 0x41 <= b <= 0x46 {
        Some((b - 0x41 + 10) as u8)
    } else {
        None
    }
}

/// `n` is the length of the run of `#` that `s` starts with.
pub open spec fn is_hash_run(s: Seq<u8>, n: int) -> bool {
    &&& 0 <= n <= s.len()
    &&& forall|i: int| 0 <= i < n ==> s[i] == HASH
    &&& n < s.len() ==> s[n] != HASH
}

/// The number of `#` that `s` starts with.
pub open spec fn leading_hashes(s: Seq<u8>) -> nat
    decreases s.len(),
{
    if s.len() > 0 && s[0] == HASH {
        1 + leading_hashes(s.drop_first())
    } else {
        0
    }
}

/// What is left of `s` once its leading `#` are skipped.
pub open spec fn digits_of(s: Seq<u8>) -> Seq<u8> {
    s.skip(leading_hashes(s) as int)
}

/// Channel `k` of the digit string `digits`: the two bytes at `2k` and `2k + 1`
/// read as one hexadecimal number, or `FULL` where they are not both there or
/// not both hexadecimal digits.
pub open spec fn channel_value(digits: Seq<u8>, k: int) -> u8
    recommends
        0 <= k,
{
    if 2 * k + 1 < digits.len() {
        match (hex_digit_value(digits[2 * k]), hex_digit_value(digits[2 * k + 1])) {
            (Some(hi), Some(lo)) => (16 * hi + lo) as u8,
            _ => FULL,
        }
    } else {
        FULL
    }
}

/// The colour that the bytes `text` of a palette string spell.
pub open spec fn parse_rgb(text: Seq<u8>) -> Rgb8 {
    let digits = digits_of(text);
    Rgb8 { r: channel_value(digits, 0), g: channel_value(digits, 1), b: channel_value(digits, 2) }
}

/// The run of `#` at the start of a string is unique, and `leading_hashes` is its length.
pub proof fn lemma_hash_run(s: Seq<u8>, n: int)
    ensures
        is_hash_run(s, leading_hashes(s) as int),
        is_hash_run(s, n) ==> n == leading_hashes(s),
    decreases s.len(),
{
    if s.len() > 0 && s[0] == HASH {
        let t = s.drop_first();
        lemma_hash_run(t, n - 1);
        let m = leading_hashes(t) as int;
        assert forall|i: int| 0 <= i < m + 1 implies s[i] == HASH by {
            if i > 0 {
                assert(s[i] == t[i - 1]);
            }
        }
        if is_hash_run(s, n) {
            assert forall|i: int| 0 <= i < n - 1 implies t[i] == HASH by {
                assert(t[i] == s[i + 1]);
            }
            assert(is_hash_run(t, n - 1));
        }
    } else if is_hash_run(s, n) && n > 0 {
        assert(s[0] == HASH);
    }
}

/// A string of the form `#rrggbb` reads as the values of its three pairs of
/// digits: where all six are hexadecimal digits, no channel degrades.
pub proof fn lemma_well_formed(text: Seq<u8>)
    requires
        text.len() == 7,
        text[0] == HASH,
        forall|i: int| 1 <= i < 7 ==> hex_digit_value(text[i]) is Some,
    ensures
        parse_rgb(text).r == 16 * hex_digit_value(text[1])->0 + hex_digit_value(text[2])->0,
        parse_rgb(text).g == 16 * hex_digit_value(text[3])->0 + hex_digit_value(text[4])->0,
        parse_rgb(text).b == 16 * hex_digit_value(text[5])->0 + hex_digit_value(text[6])->0,
{
    // The first digit is no `#`, so the run of `#` has length one.
    assert(hex_digit_value(text[1]) is Some);
    lemma_hash_run(text, 1);
}

/// Reads one hexadecimal digit.
fn hex_digit(b: u8) -> (v: Option<u8>)
    ensures
        v == hex_digit_value(b),
{
    if 0x30 <= b && b <= 0x39 {
        Some(b - 0x30)
    } else if 0x61 <= b && b <= 0x66 {
        Some(b - 0x61 + 10)
    } else if 0x41 <= b && b <= 0x46 {
        Some(b - 0x41 + 10)
    } else {
        None
    }
}

/// Counts the `#` that `bytes` starts with.
fn skip_hashes(bytes: &[u8]) -> (n: usize)
    ensures
        n == leading_hashes(bytes@),
        n <= bytes@.len(),
{
    let mut n: usize = 0;
    while n < bytes.len() && bytes[n] == HASH
        invariant
            n <= bytes@.len(),
            forall|i: int| 0 <= i < n ==> bytes@[i] == HASH,
        decreases bytes@.len() - n,
    {
        n += 1;
    }
    proof {
        lemma_hash_run(bytes@, n as int);
    }
    n
}

/// Reads channel `k` of a digit string.
fn hex_channel(digits: &[u8], k: usize) -> (v: u8)
    ensures
        v == channel_value(digits@, k as int),
{
    if k < digits.len() / 2 {
        match (hex_digit(digits[2 * k]), hex_digit(digits[2 * k + 1])) {
            (Some(hi), Some(lo)) => 16 * hi + lo,
            _ => FULL,
        }
    } else {
        FULL
    }
}

/// Reads a palette string. The result is `parse_rgb` of the string's UTF-8 bytes:
/// every channel that cannot be read comes out as `FULL`, and no input is refused.
pub fn hex_rgb_u8(hex: &str) -> (c: Rgb8)
    ensures
        c == parse_rgb(encode_utf8(hex@)),
{
    let bytes = hex.as_bytes();
    let start = skip_hashes(bytes);
    let digits = vstd::slice::slice_subrange(bytes, start, bytes.len());
    Rgb8 { r: hex_channel(digits, 0), g: hex_channel(digits, 1), b: hex_channel(digits, 2) }
}

} // verus!
