//! Text made from bytes: UTF-8 decoding through the standard library, ASCII
//! text, and decimal numerals.

use std::string::FromUtf8Error;
use vstd::prelude::*;
use vstd::utf8::*;

verus! {

/// The error of `String::from_utf8`, carried through unread.
#[verifier::external_type_specification]
#[verifier::external_body]
pub struct ExFromUtf8Error(FromUtf8Error);

/// `String::from_utf8` of the standard library.
///
/// Trusted: the call succeeds exactly on valid UTF-8, and the string it then
/// returns consists of the very bytes that were handed in.
#[verifier::external_body]
pub(crate) fn string_from_utf8(bytes: Vec<u8>) -> (r: Result<String, FromUtf8Error>)
    ensures
        r is Ok <==> valid_utf8(bytes@),
        r matches Ok(s) ==> encode_utf8(s@) == bytes@,
{
    String::from_utf8(bytes)
}

/// Whether every byte of `bytes` is an ASCII code, below `0x80`.
pub open spec fn is_ascii_bytes(bytes: Seq<u8>) -> bool {
    forall|i: int| 0 <= i < bytes.len() ==> #[trigger] bytes[i] < 0x80
}

/// The text whose characters have the codes `bytes`, one character per byte.
pub open spec fn ascii_text(bytes: Seq<u8>) -> Seq<char> {
    Seq::new(bytes.len(), |i: int| bytes[i] as char)
}

/// ASCII bytes are the UTF-8 encoding of the text they spell, and of no other
/// text.
pub proof fn lemma_ascii_text(bytes: Seq<u8>)
    requires
        is_ascii_bytes(bytes),
    ensures
        encode_utf8(ascii_text(bytes)) == bytes,
        valid_utf8(bytes),
        decode_utf8(bytes) == ascii_text(bytes),
        forall|s: Seq<char>| #[trigger] encode_utf8(s) == bytes ==> s == ascii_text(bytes),
{
    let text = ascii_text(bytes);
    assert forall|i: int| 0 <= i < text.len() implies '\0' <= #[trigger] text[i] <= '\u{7f}' by {
        assert(bytes[i] < 0x80);
    }
    assert(is_ascii_chars(text));
    is_ascii_chars_encode_utf8(text);
    assert forall|i: int| 0 <= i < text.len() implies encode_utf8(text)[i] == bytes[i] by {
        assert(bytes[i] < 0x80);
        assert(text[i] as u8 == bytes[i]);
    }
    assert(encode_utf8(text) =~= bytes);
    encode_utf8_valid_utf8(text);
    encode_utf8_decode_utf8(text);
    assert forall|s: Seq<char>| #[trigger] encode_utf8(s) == bytes implies s == text by {
        encode_utf8_decode_utf8(s);
    }
}

/// Turns ASCII bytes into the string they spell.
pub(crate) fn ascii_string(bytes: Vec<u8>) -> (r: String)
    requires
        is_ascii_bytes(bytes@),
    ensures
        r@ == ascii_text(bytes@),
{
    proof {
        lemma_ascii_text(bytes@);
    }
    match string_from_utf8(bytes) {
        Ok(s) => s,
        // Never taken: ASCII bytes are valid UTF-8.
        Err(_) => String::new(),
    }
}

/// The decimal digits of `n` as ASCII codes, most significant first and
/// without leading zeros; `0` is the single digit `0`.
pub open spec fn decimal_digits(n: nat) -> Seq<u8>
    decreases n,
{
    if n < 10 {
        seq![(48 + n) as u8]
    } else {
        decimal_digits(n / 10).push((48 + n % 10) as u8)
    }
}

/// The decimal numeral of `n` as text.
pub open spec fn decimal_text(n: nat) -> Seq<char> {
    ascii_text(decimal_digits(n))
}

/// A decimal numeral consists of the digits `0` to `9`.
pub proof fn lemma_decimal_digits(n: nat)
    ensures
        decimal_digits(n).len() >= 1,
        forall|i: int|
            0 <= i < decimal_digits(n).len() ==> 48 <= #[trigger] decimal_digits(n)[i] <= 57,
        is_ascii_bytes(decimal_digits(n)),
    decreases n,
{
    if n >= 10 {
        lemma_decimal_digits(n / 10);
    }
}

/// Writes `n` as a decimal numeral.
pub fn decimal_string(n: u64) -> (r: String)
    ensures
        r@ == decimal_text(n as nat),
{
    let mut low_first: Vec<u8> = Vec::new();
    let mut m: u64 = n;
    while m >= 10
        invariant
            decimal_digits(n as nat) == decimal_digits(m as nat) + low_first@.reverse(),
        decreases m,
    {
        let d: u8 = 48 + (m % 10) as u8;
        proof {
            let next = low_first@.push(d);
            assert(next.reverse() =~= seq![d] + low_first@.reverse());
            assert(decimal_digits(m as nat) == decimal_digits((m / 10) as nat).push(d));
            assert(decimal_digits((m / 10) as nat).push(d) + low_first@.reverse()
                =~= decimal_digits((m / 10) as nat) + next.reverse());
        }
        low_first.push(d);
        m = m / 10;
    }
    let last: u8 = 48 + m as u8;
    let mut digits: Vec<u8> = Vec::new();
    digits.push(last);
    let mut i: usize = low_first.len();
    while i > 0
        invariant
            i <= low_first@.len(),
            digits@ == seq![last] + low_first@.reverse().subrange(0, low_first@.len() - i),
        decreases i,
    {
        i = i - 1;
        proof {
            let rev = low_first@.reverse();
            let k = low_first@.len() - i - 1;
            assert(rev[k] == low_first@[i as int]);
            assert(rev.subrange(0, k + 1) =~= rev.subrange(0, k).push(rev[k]));
            assert((seq![last] + rev.subrange(0, k)).push(rev[k]) =~= seq![last] + rev.subrange(
                0,
                k + 1,
            ));
        }
        digits.push(low_first[i]);
    }
    proof {
        let rev = low_first@.reverse();
        assert(rev.subrange(0, low_first@.len() as int) =~= rev);
        assert(decimal_digits(m as nat) =~= seq![last]);
        lemma_decimal_digits(n as nat);
    }
    ascii_string(digits)
}

} // verus!
