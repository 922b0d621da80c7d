//! Laws that tie the two transposes and the adder together.
use vstd::prelude::*;
use vstd::std_specs::ops::AddSpec;
use crate::adder::wrapping_sum;
use crate::vector::u8x512;

verus! {

/// Decoding the encoding of 512 bytes gives the same 512 bytes back.
pub proof fn lemma_decode_encode(x: [u8; 512])
    ensures
        u8x512::encoding_of(x@)@ == x@,
        u8x512::encoding_of(x@).decoding() == x,
{
    let v = u8x512::encoding_of(x@);
    u8x512::lemma_encoding_encodes(x@);
    v.lemma_encodes_view(x@);
    v.lemma_decoding_view();
    assert(v.decoding() =~= x);
}

/// Encoding the decoding of a vector gives the same vector back: with the law
/// above, the two transposes are each other's inverse.
pub proof fn lemma_encode_decode(v: u8x512)
    ensures
        u8x512::encoding_of(v@) == v,
        u8x512::encoding_of(v.decoding()@) == v,
{
    v.lemma_decoding_view();
    u8x512::lemma_encoding_encodes(v@);
    u8x512::encoding_of(v@).lemma_encodes_view(v@);
    v.lemma_view_ext(u8x512::encoding_of(v@));
}

/// The sum of two vectors holds, at every place, the sum modulo 256 of the two
/// bytes at that place.
pub proof fn lemma_plus_view(a: u8x512, b: u8x512)
    ensures
        a.plus(b)@ == wrapping_sum(a@, b@),
        forall|i: int| 0 <= i < 512 ==> #[trigger] a.plus(b)@[i] == (a@[i] + b@[i]) % 256,
{
    let s = wrapping_sum(a@, b@);
    u8x512::lemma_encoding_encodes(s);
    a.plus(b).lemma_encodes_view(s);
}

/// Adding the encodings of two byte arrays and decoding the sum gives, at every
/// place, the sum modulo 256 of the two bytes at that place.
pub proof fn lemma_sum_of_encodings(a: [u8; 512], b: [u8; 512])
    ensures
        forall|i: int|
            0 <= i < 512 ==> #[trigger] u8x512::encoding_of(a@).plus(
                u8x512::encoding_of(b@),
            ).decoding()[i] == (a[i] + b[i]) % 256,
{
    let x = u8x512::encoding_of(a@);
    let y = u8x512::encoding_of(b@);
    lemma_decode_encode(a);
    lemma_decode_encode(b);
    lemma_plus_view(x, y);
    x.plus(y).lemma_decoding_view();
}

/// Adding in place leaves in the left operand the vector that `+` returns,
/// whether the operands of `+` are taken by value or by reference.
pub proof fn lemma_in_place_is_sum(a: u8x512, b: u8x512)
    ensures
        a.add_spec(b) == a.plus(b),
        (&a).add_spec(&b) == a.plus(b),
{
}

/// Addition commutes, bit for bit.
pub proof fn lemma_plus_commutes(a: u8x512, b: u8x512)
    ensures
        a.plus(b) == b.plus(a),
{
    assert(wrapping_sum(a@, b@) =~= wrapping_sum(b@, a@));
}

/// A vector of 512 zero bytes is neutral: adding it on either side changes
/// nothing.
pub proof fn lemma_plus_zero(a: u8x512, zero: u8x512)
    requires
        forall|i: int| 0 <= i < 512 ==> zero@[i] == 0,
    ensures
        a.plus(zero) == a,
        zero.plus(a) == a,
        a.plus(zero)@ == a@,
{
    assert(wrapping_sum(a@, zero@) =~= a@);
    lemma_plus_commutes(a, zero);
    lemma_encode_decode(a);
}

} // verus!
