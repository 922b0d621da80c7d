//! Bits of bytes: which bit of a byte is set, and the number that eight bits
//! spell.
use vstd::prelude::*;

verus! {

/// The number that a bit stands for: 1 if it is set, else 0.
pub open spec fn bit_value(b: bool) -> int {
    if b {
        1
    } else {
        0
    }
}

/// Whether bit `k` of the byte `x` is set; bit 0 is the least significant.
pub open spec fn byte_bit(x: u8, k: int) -> bool {
    (x >> (k as u8)) & 1 == 1
}

/// The number whose binary digits are `b0` (least significant) to `b7`.
pub open spec fn byte_of_bits(
    b0: bool,
    b1: bool,
    b2: bool,
    b3: bool,
    b4: bool,
    b5: bool,
    b6: bool,
    b7: bool,
) -> int {
    bit_value(b0) + 2 * bit_value(b1) + 4 * bit_value(b2) + 8 * bit_value(b3) + 16 * bit_value(b4)
        + 32 * bit_value(b5) + 64 * bit_value(b6) + 128 * bit_value(b7)
}

/// A byte is the number that its eight bits spell.
pub proof fn lemma_byte_is_its_bits(x: u8)
    ensures
        x == byte_of_bits(
            byte_bit(x, 0),
            byte_bit(x, 1),
            byte_bit(x, 2),
            byte_bit(x, 3),
            byte_bit(x, 4),
            byte_bit(x, 5),
            byte_bit(x, 6),
            byte_bit(x, 7),
        ),
{
    assert(x == ((x >> 0u8) & 1) + 2 * ((x >> 1u8) & 1) + 4 * ((x >> 2u8) & 1) + 8 * ((x >> 3u8)
        & 1) + 16 * ((x >> 4u8) & 1) + 32 * ((x >> 5u8) & 1) + 64 * ((x >> 6u8) & 1) + 128 * ((x
        >> 7u8) & 1)) by (bit_vector);
    assert(forall|k: u8| k < 8 ==> #[trigger] ((x >> k) & 1) == 0 || ((x >> k) & 1) == 1)
        by (bit_vector);
}

/// Eight bits spell a number below 256, and each of them is the bit of that
/// byte at its own place.
pub proof fn lemma_bits_of_byte(
    b0: bool,
    b1: bool,
    b2: bool,
    b3: bool,
    b4: bool,
    b5: bool,
    b6: bool,
    b7: bool,
)
    ensures
        0 <= byte_of_bits(b0, b1, b2, b3, b4, b5, b6, b7) < 256,
        ({
            let x = byte_of_bits(b0, b1, b2, b3, b4, b5, b6, b7) as u8;
            &&& byte_bit(x, 0) == b0
            &&& byte_bit(x, 1) == b1
            &&& byte_bit(x, 2) == b2
            &&& byte_bit(x, 3) == b3
            &&& byte_bit(x, 4) == b4
            &&& byte_bit(x, 5) == b5
            &&& byte_bit(x, 6) == b6
            &&& byte_bit(x, 7) == b7
        }),
{
    let x = byte_of_bits(b0, b1, b2, b3, b4, b5, b6, b7) as u8;
    lemma_byte_is_its_bits(x);
}

/// The byte 0 has no bit set.
pub(crate) proof fn lemma_byte_zero()
    ensures
        forall|k: int| 0 <= k < 8 ==> !#[trigger] byte_bit(0u8, k),
{
    assert forall|k: int| 0 <= k < 8 implies !#[trigger] byte_bit(0u8, k) by {
        let kk: u8 = k as u8;
        assert((0u8 >> kk) & 1 == 0) by (bit_vector);
    }
}

/// Flipping a set bit of a byte clears that bit, leaves the others and makes
/// the byte smaller.
pub(crate) proof fn lemma_byte_clear_bit(x: u8, v: u32)
    requires
        v < 8,
        byte_bit(x, v as int),
    ensures
        x ^ (1u8 << v) < x,
        forall|k: int|
            0 <= k < 8 ==> #[trigger] byte_bit(x ^ (1u8 << v), k) == (byte_bit(x, k) && k != v),
{
    let vv: u8 = v as u8;
    assert(x ^ (1u8 << vv) < x) by (bit_vector)
        requires
            vv < 8,
            (x >> vv) & 1 == 1,
    ;
    assert forall|k: int| 0 <= k < 8 implies #[trigger] byte_bit(x ^ (1u8 << v), k) == (byte_bit(
        x,
        k,
    ) && k != v) by {
        let kk: u8 = k as u8;
        assert((((x ^ (1u8 << vv)) >> kk) & 1 == 1) == (((x >> kk) & 1 == 1) && kk != vv))
            by (bit_vector)
            requires
                vv < 8,
                kk < 8,
                (x >> vv) & 1 == 1,
        ;
    }
}

/// Or-ing the mask of bit `j` into a byte sets that bit and leaves the others.
pub(crate) proof fn lemma_byte_set_bit(x: u8, j: int)
    requires
        0 <= j < 8,
    ensures
        forall|k: int|
            0 <= k < 8 ==> #[trigger] byte_bit(x | (1u8 << (j as u8)), k) == (byte_bit(x, k) || k
                == j),
{
    let jj: u8 = j as u8;
    assert forall|k: int| 0 <= k < 8 implies #[trigger] byte_bit(x | (1u8 << jj), k) == (byte_bit(
        x,
        k,
    ) || k == j) by {
        let kk: u8 = k as u8;
        assert((((x | (1u8 << jj)) >> kk) & 1 == 1) == (((x >> kk) & 1 == 1) || kk == jj))
            by (bit_vector)
            requires
                jj < 8,
                kk < 8,
        ;
    }
}

/// Shifting the mask of bit `j` left by one gives the mask of bit `j + 1`.
pub(crate) proof fn lemma_byte_mask_step(j: int)
    requires
        0 <= j < 7,
    ensures
        (1u8 << (j as u8)) << 1u32 == 1u8 << ((j + 1) as u8),
        1u8 << 0u8 == 1u8,
{
    let jj: u8 = j as u8;
    let nn: u8 = (j + 1) as u8;
    assert((1u8 << jj) << 1u8 == 1u8 << nn) by (bit_vector)
        requires
            jj < 7,
            nn == jj + 1,
    ;
    assert(1u8 << 0u8 == 1u8) by (bit_vector);
}

} // verus!
