//! Hex text as the peer protocol writes it: lower-case on the way out,
//! either case accepted on the way in.

use vstd::prelude::*;
use crate::text::hex_digit;

verus! {

#[verifier::external_type_specification]
#[verifier::external_body]
pub struct ExFromHexError(hex::FromHexError);


/// The lower-case hex text of a byte string: two digits per byte, high nibble first.
pub open spec fn hex_encoding(b: Seq<u8>) -> Seq<char> {
    Seq::new(
        2 * b.len(),
        |i: int|
            if i % 2 == 0 {
                hex_digit((b[i / 2] / 16) as int)
            } else {
                hex_digit((b[i / 2] % 16) as int)
            },
    )
}

/// Value of one hex digit byte (either case), or -1 when it is no hex digit.
pub open spec fn hex_val(c: u8) -> int {
    if 48 <= c <= 57 {
        c - 48
    } else if 97 <= c <= 102 {
        c - 87
    } else if 65 <= c <= 70 {
        c - 55
    } else {
        -1
    }
}

/// Whether a byte string is hex text: an even number of hex digits.
pub open spec fn hex_decodable(s: Seq<u8>) -> bool {
    &&& s.len() % 2 == 0
    &&& forall|i: int| 0 <= i < s.len() ==> hex_val(#[trigger] s[i]) >= 0
}

/// The bytes that hex text stands for.
pub open spec fn hex_decoding(s: Seq<u8>) -> Seq<u8> {
    Seq::new(s.len() / 2, |i: int| (16 * hex_val(s[2 * i]) + hex_val(s[2 * i + 1])) as u8)
}

proof fn lemma_digit_byte(v: int)
    requires
        0 <= v < 16,
    ensures
        (hex_digit(v) as u32) < 128,
        hex_val((hex_digit(v) as u32) as u8) == v,
{
}

/// UTF-8 leaves text of ASCII characters byte for byte.
pub proof fn lemma_ascii_utf8(cs: Seq<char>)
    requires
        forall|i: int| 0 <= i < cs.len() ==> (#[trigger] cs[i] as u32) < 128,
    ensures
        vstd::utf8::encode_utf8(cs) =~= Seq::new(cs.len(), |i: int| (cs[i] as u32) as u8),
    decreases cs.len(),
{
    if cs.len() > 0 {
        let rest = cs.drop_first();
        assert forall|i: int| 0 <= i < rest.len() implies (#[trigger] rest[i] as u32) < 128 by {
            assert(rest[i] == cs[i + 1]);
        }
        lemma_ascii_utf8(rest);
        let c: u32 = cs[0] as u32;
        assert(c < 128);
        assert((c & 0x7F) == c) by (bit_vector)
            requires
                c < 128,
        ;
        assert(vstd::utf8::encode_scalar(c) =~= seq![c as u8]);
    }
}

/// Decoding the hex text of a byte string gives the byte string back.
pub proof fn lemma_hex_roundtrip(b: Seq<u8>)
    ensures
        hex_decodable(vstd::utf8::encode_utf8(hex_encoding(b))),
        hex_decoding(vstd::utf8::encode_utf8(hex_encoding(b))) =~= b,
{
    let cs = hex_encoding(b);
    assert forall|i: int| 0 <= i < cs.len() implies (#[trigger] cs[i] as u32) < 128 by {
        if i % 2 == 0 {
            lemma_digit_byte((b[i / 2] / 16) as int);
        } else {
            lemma_digit_byte((b[i / 2] % 16) as int);
        }
    }
    lemma_ascii_utf8(cs);
    let bs = vstd::utf8::encode_utf8(cs);
    assert forall|i: int| 0 <= i < bs.len() implies hex_val(#[trigger] bs[i]) >= 0 by {
        if i % 2 == 0 {
            lemma_digit_byte((b[i / 2] / 16) as int);
        } else {
            lemma_digit_byte((b[i / 2] % 16) as int);
        }
    }
    let d = hex_decoding(bs);
    assert forall|k: int| 0 <= k < b.len() implies d[k] == b[k] by {
        assert((2 * k) / 2 == k);
        assert((2 * k + 1) / 2 == k);
        assert((2 * k) % 2 == 0);
        assert((2 * k + 1) % 2 == 1);
        lemma_digit_byte((b[k] / 16) as int);
        lemma_digit_byte((b[k] % 16) as int);
    }
}

/// `hex::encode`: two lower-case digits per byte.
#[verifier::external_body]
pub(crate) fn hex_encode(bytes: &[u8]) -> (s: String)
    ensures
        s@ == hex_encoding(bytes@),
{
    hex::encode(bytes)
}

/// `hex::decode`: refuses odd lengths and bytes that are no hex digit of either case.
#[verifier::external_body]
pub(crate) fn hex_decode(text: &[u8]) -> (r: Result<Vec<u8>, hex::FromHexError>)
    ensures
        r is Ok <==> hex_decodable(text@),
        r is Ok ==> r->Ok_0@ == hex_decoding(text@),
{
    hex::decode(text)
}

} // verus!
