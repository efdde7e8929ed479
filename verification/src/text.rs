//! Numbers and bytes as text.
use vstd::prelude::*;
use vstd::utf8::*;
use vstd::string::*;
use vstd::slice::slice_subrange;
use vstd::array::array_as_slice;

use crate::outside::str_from_utf8;

verus! {

broadcast use vstd::utf8::group_utf8_lib, vstd::utf8::is_ascii_chars_encode_utf8;

/// Room for any `i32` in decimal, sign included.
pub const DIGITS: usize = 11;

/// The character of a digit up to fifteen: `0` to `9`, then `a` to `f`.
pub open spec fn digit_char(d: nat) -> char {
    if d < 10 {
        ((d + 48) as u8) as char
    } else {
        ((d + 87) as u8) as char
    }
}

/// `n` in decimal, most significant digit first, without leading zeros.
pub open spec fn digits_of(n: nat) -> Seq<char>
    decreases n,
{
    if n < 10 {
        seq![digit_char(n)]
    } else {
        digits_of(n / 10).push(digit_char(n % 10))
    }
}

/// `v` in decimal, with a leading `-` when it is negative.
pub open spec fn decimal_text(v: int) -> Seq<char> {
    if v < 0 {
        seq!['-'] + digits_of((-v) as nat)
    } else {
        digits_of(v as nat)
    }
}

/// The characters that ASCII bytes stand for.
pub open spec fn ascii_chars(bytes: Seq<u8>) -> Seq<char> {
    bytes.map_values(|b: u8| b as char)
}

pub open spec fn pow10(k: nat) -> nat
    decreases k,
{
    if k == 0 { 1 } else { 10 * pow10((k - 1) as nat) }
}

/// ASCII bytes are valid UTF-8, and the only text they encode is their characters.
proof fn lemma_ascii_text(bytes: Seq<u8>)
    requires
        forall|i: int| 0 <= i < bytes.len() ==> bytes[i] < 128,
    ensures
        valid_utf8(bytes),
        forall|text: Seq<char>| encode_utf8(text) == bytes ==> text == ascii_chars(bytes),
{
    let chars = ascii_chars(bytes);
    assert(is_ascii_chars(chars));
    assert(encode_utf8(chars) =~= bytes);
    assert forall|text: Seq<char>| encode_utf8(text) == bytes implies text == chars by {
        encode_utf8_decode_utf8(text);
        encode_utf8_decode_utf8(chars);
    }
}

/// `value` in decimal, written into the end of `digits`: no allocator, no formatting machinery.
/// The text returned is the written end of `digits`.
pub fn decimal(value: i32, digits: &mut [u8; DIGITS]) -> (text: &str)
    ensures
        text@ == decimal_text(value as int),
        text@.len() <= DIGITS,
        final(digits)@.skip(DIGITS - text@.len()) == text@.map_values(|c: char| c as u8),
        forall|i: int| 0 <= i < DIGITS - text@.len() ==> final(digits)@[i] == old(digits)@[i],
{
    let mut at: usize = DIGITS;
    let mut rest: u32 = if value < 0 { (0 - (value as i64)) as u32 } else { value as u32 };
    let ghost abs: nat = rest as nat;
    assert(pow10(10) == 10000000000) by { reveal_with_fuel(pow10, 11); }
    loop
        invariant_except_break
            1 <= at <= DIGITS,
            digits@.len() == DIGITS,
            rest > 0 || at == DIGITS,
            rest < pow10((at - 1) as nat),
            digits_of(abs) == digits_of(rest as nat) + ascii_chars(digits@.skip(at as int)),
            forall|i: int| at <= i < DIGITS ==> 48 <= #[trigger] digits@[i] < 58,
            forall|i: int| 0 <= i < at ==> digits@[i] == old(digits)@[i],
        ensures
            1 <= at <= DIGITS,
            digits@.len() == DIGITS,
            digits_of(abs) == ascii_chars(digits@.skip(at as int)),
            forall|i: int| at <= i < DIGITS ==> 48 <= #[trigger] digits@[i] < 58,
            forall|i: int| 0 <= i < at ==> digits@[i] == old(digits)@[i],
        decreases at,
    {
        let ghost before = digits@.skip(at as int);
        at -= 1;
        digits[at] = 48u8 + (rest % 10) as u8;
        assert(ascii_chars(digits@.skip(at as int)) =~= seq![digit_char((rest % 10) as nat)] + ascii_chars(before));
        let next = rest / 10;
        assert(rest >= 10 ==> digits_of(rest as nat) == digits_of(next as nat).push(digit_char((rest % 10) as nat)));
        assert(digits_of(rest as nat) + ascii_chars(before) =~= digits_of(next as nat) + ascii_chars(digits@.skip(at as int)) || rest < 10);
        rest = next;
        if rest == 0 {
            break;
        }
    }
    if value < 0 {
        at -= 1;
        digits[at] = 45u8;
    }
    let shown: &[u8] = slice_subrange(array_as_slice(digits), at, DIGITS);
    proof { lemma_ascii_text(shown@); }
    match str_from_utf8(shown) {
        Some(text) => text,
        None => "?",
    }
}

/// The one-character text of a digit up to fifteen.
fn digit_str(d: u64) -> (text: &'static str)
    requires
        d < 16,
    ensures
        text@ == seq![digit_char(d as nat)],
{
    let all = "0123456789abcdef";
    proof {
        reveal_strlit("0123456789abcdef");
    }
    let d = d as usize;
    all.substring_ascii(d, d + 1)
}

/// `n` in decimal.
pub fn number_text(n: u64) -> (text: String)
    ensures
        text@ == digits_of(n as nat),
    decreases n,
{
    if n < 10 {
        String::from_str(digit_str(n))
    } else {
        let mut text = number_text(n / 10);
        text.append(digit_str(n % 10));
        text
    }
}

/// Bytes in lowercase hexadecimal, two digits each, high half first.
pub open spec fn hex_text(bytes: Seq<u8>) -> Seq<char>
    decreases bytes.len(),
{
    if bytes.len() == 0 {
        seq![]
    } else {
        let b = bytes.last();
        hex_text(bytes.drop_last()) + seq![digit_char((b / 16) as nat), digit_char((b % 16) as nat)]
    }
}

/// `bytes` in lowercase hexadecimal, two digits to a byte.
pub fn hex(bytes: &[u8]) -> (text: String)
    ensures
        text@ == hex_text(bytes@),
        text@.len() == 2 * bytes@.len(),
{
    let mut text = String::new();
    let mut i: usize = 0;
    while i < bytes.len()
        invariant
            0 <= i <= bytes@.len(),
            text@ == hex_text(bytes@.take(i as int)),
            text@.len() == 2 * i,
        decreases bytes@.len() - i,
    {
        let b = bytes[i];
        text.append(digit_str((b / 16) as u64));
        text.append(digit_str((b % 16) as u64));
        assert(bytes@.take(i + 1).drop_last() =~= bytes@.take(i as int));
        i += 1;
    }
    assert(bytes@.take(i as int) =~= bytes@);
    text
}

/// The characters of `text`, one by one.
pub fn chars_of(text: &str) -> (chars: Vec<char>)
    ensures
        chars@ == text@,
{
    let n = text.unicode_len();
    let mut chars: Vec<char> = Vec::new();
    let mut i: usize = 0;
    while i < n
        invariant
            n == text@.len(),
            0 <= i <= n,
            chars@ == text@.take(i as int),
        decreases n - i,
    {
        chars.push(text.get_char(i));
        i += 1;
        assert(chars@ =~= text@.take(i as int));
    }
    assert(text@.take(n as int) =~= text@);
    chars
}

/// Whether `text` holds the same characters as `other`.
pub fn same_text(text: &str, other: &str) -> (same: bool)
    ensures
        same == (text@ == other@),
{
    text.to_owned() == other.to_owned()
}

/// Whether `text` begins with `prefix`.
pub open spec fn starts_with(text: Seq<char>, prefix: Seq<char>) -> bool {
    prefix.len() <= text.len() && text.take(prefix.len() as int) == prefix
}

/// Whether `part` stands somewhere in `text`.
pub open spec fn has_infix(text: Seq<char>, part: Seq<char>) -> bool {
    exists|i: int| 0 <= i <= text.len() - part.len() && #[trigger] text.subrange(i, i + part.len()) == part
}

/// Whether `part` stands in `text` at `at`, character by character.
fn matches_at(text: &Vec<char>, at: usize, part: &Vec<char>) -> (found: bool)
    requires
        at + part@.len() <= text@.len(),
    ensures
        found == (text@.subrange(at as int, at + part@.len()) == part@),
{
    let n = text.len();
    let mut j: usize = 0;
    while j < part.len()
        invariant
            n == text@.len(),
            at + part@.len() <= text@.len(),
            0 <= j <= part@.len(),
            forall|k: int| 0 <= k < j ==> text@[at + k] == part@[k],
        decreases part@.len() - j,
    {
        if text[at + j] != part[j] {
            assert(text@.subrange(at as int, at + part@.len())[j as int] != part@[j as int]);
            return false;
        }
        j += 1;
    }
    assert(text@.subrange(at as int, at + part@.len()) =~= part@);
    true
}

/// Whether `text` begins with `prefix`.
pub fn text_starts_with(text: &Vec<char>, prefix: &Vec<char>) -> (found: bool)
    ensures
        found == starts_with(text@, prefix@),
{
    if prefix.len() > text.len() {
        return false;
    }
    matches_at(text, 0, prefix)
}

/// Whether `part` stands somewhere in `text`.
pub fn text_contains(text: &Vec<char>, part: &Vec<char>) -> (found: bool)
    ensures
        found == has_infix(text@, part@),
{
    if part.len() > text.len() {
        return false;
    }
    let last = text.len() - part.len();
    let mut at: usize = 0;
    loop
        invariant_except_break
            last + part@.len() == text@.len(),
            0 <= at <= last,
            forall|i: int| 0 <= i < at ==> #[trigger] text@.subrange(i, i + part@.len()) != part@,
        ensures
            forall|i: int| 0 <= i <= last ==> #[trigger] text@.subrange(i, i + part@.len()) != part@,
        decreases last - at,
    {
        if matches_at(text, at, part) {
            return true;
        }
        if at == last {
            break;
        }
        at += 1;
    }
    false
}

} // verus!
