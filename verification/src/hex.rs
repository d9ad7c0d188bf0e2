//! Lowercase hexadecimal text of byte strings.
//!
//! Addresses and transaction hashes are raw bytes; the registry and the output
//! rows key them by their lowercase hexadecimal text, two digits per byte and no
//! prefix.

use vstd::prelude::*;

verus! {

/// The sixteen lowercase hexadecimal digits, in order of value.
pub open spec fn hex_digits() -> Seq<char> {
    seq!['0', '1', '2', '3', '4', '5', '6', '7', '8', '9', 'a', 'b', 'c', 'd', 'e', 'f']
}

/// The digit that stands for `nibble`, a value below sixteen.
pub open spec fn hex_digit(nibble: int) -> char
    recommends
        0 <= nibble < 16,
{
    hex_digits()[nibble]
}

/// The nibble of `bytes` that the digit at `position` renders: the high half of
/// byte `position / 2` at even positions, its low half at odd ones.
pub open spec fn nibble_at(bytes: Seq<u8>, position: int) -> int
    recommends
        0 <= position < 2 * bytes.len(),
{
    if position % 2 == 0 {
        bytes[position / 2] as int / 16
    } else {
        bytes[position / 2] as int % 16
    }
}

/// The lowercase hexadecimal text of `bytes`: two digits per byte, high nibble
/// first, no prefix.
pub open spec fn hex_encode(bytes: Seq<u8>) -> Seq<char> {
    Seq::new(2 * bytes.len(), |position: int| hex_digit(nibble_at(bytes, position)))
}

/// Distinct nibbles have distinct digits.
pub proof fn lemma_hex_digit_injective(a: int, b: int)
    requires
        0 <= a < 16,
        0 <= b < 16,
        hex_digit(a) == hex_digit(b),
    ensures
        a == b,
{
    let d = hex_digits();
    assert(d[0] == '0' && d[1] == '1' && d[2] == '2' && d[3] == '3');
    assert(d[4] == '4' && d[5] == '5' && d[6] == '6' && d[7] == '7');
    assert(d[8] == '8' && d[9] == '9' && d[10] == 'a' && d[11] == 'b');
    assert(d[12] == 'c' && d[13] == 'd' && d[14] == 'e' && d[15] == 'f');
}

/// Hexadecimal text holds no hyphen.
pub proof fn lemma_hex_encode_has_no_hyphen(bytes: Seq<u8>, position: int)
    requires
        0 <= position < hex_encode(bytes).len(),
    ensures
        hex_encode(bytes)[position] != '-',
{
    let nibble = nibble_at(bytes, position);
    assert(0 <= nibble < 16);
    assert(hex_encode(bytes)[position] == hex_digits()[nibble]);
    let d = hex_digits();
    assert(d[0] == '0' && d[1] == '1' && d[2] == '2' && d[3] == '3');
    assert(d[4] == '4' && d[5] == '5' && d[6] == '6' && d[7] == '7');
    assert(d[8] == '8' && d[9] == '9' && d[10] == 'a' && d[11] == 'b');
    assert(d[12] == 'c' && d[13] == 'd' && d[14] == 'e' && d[15] == 'f');
}

/// Hexadecimal text determines the bytes: two byte strings with the same text
/// are the same byte string.
pub proof fn lemma_hex_encode_injective(a: Seq<u8>, b: Seq<u8>)
    requires
        hex_encode(a) == hex_encode(b),
    ensures
        a == b,
{
    assert(hex_encode(a).len() == 2 * a.len());
    assert(hex_encode(b).len() == 2 * b.len());
    assert(a.len() == b.len());
    assert forall|k: int| 0 <= k < a.len() implies a[k] == b[k] by {
        let high = 2 * k;
        let low = 2 * k + 1;
        assert(high / 2 == k && high % 2 == 0);
        assert(low / 2 == k && low % 2 == 1);
        assert(hex_encode(a)[high] == hex_digit(nibble_at(a, high)));
        assert(hex_encode(b)[high] == hex_digit(nibble_at(b, high)));
        assert(hex_encode(a)[low] == hex_digit(nibble_at(a, low)));
        assert(hex_encode(b)[low] == hex_digit(nibble_at(b, low)));
        lemma_hex_digit_injective(a[k] as int / 16, b[k] as int / 16);
        lemma_hex_digit_injective(a[k] as int % 16, b[k] as int % 16);
    }
    assert(a =~= b);
}

/// Renders bytes with `substreams::Hex`, whose `to_string` writes each byte as
/// its two lowercase hexadecimal digits, high nibble first, and nothing else.
#[verifier::external_body]
pub(crate) fn hex_text(bytes: &Vec<u8>) -> (text: String)
    ensures
        text@ == hex_encode(bytes@),
{
    substreams::Hex(bytes).to_string()
}

/// The lowercase hexadecimal text of `bytes`, the form in which an address is a
/// registry key and in which hashes and addresses appear in records.
pub fn encode_hex(bytes: &Vec<u8>) -> (text: String)
    ensures
        text@ == hex_encode(bytes@),
{
    hex_text(bytes)
}

} // verus!
