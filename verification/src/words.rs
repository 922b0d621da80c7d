//! Bits of 64-bit words, the unit in which a bit-plane is stored.
use vstd::prelude::*;

verus! {

/// Whether bit `k` of the word `w` is set; bit 0 is the least significant.
pub(crate) open spec fn word_bit(w: u64, k: int) -> bool {
    (w >> (k as u64)) & 1 == 1
}

/// The word 0 has no bit set.
pub(crate) proof fn lemma_word_zero()
    ensures
        forall|k: int| 0 <= k < 64 ==> !#[trigger] word_bit(0u64, k),
{
    assert forall|k: int| 0 <= k < 64 implies !#[trigger] word_bit(0u64, k) by {
        let kk: u64 = k as u64;
        assert((0u64 >> kk) & 1 == 0) by (bit_vector);
    }
}

/// Flipping a set bit of a word clears that bit, leaves the others and makes
/// the word smaller.
pub(crate) proof fn lemma_word_clear_bit(x: u64, v: u32)
    requires
        v < 64,
        word_bit(x, v as int),
    ensures
        x ^ (1u64 << v) < x,
        forall|k: int|
            0 <= k < 64 ==> #[trigger] word_bit(x ^ (1u64 << v), k) == (word_bit(x, k) && k != v),
{
    let vv: u64 = v as u64;
    assert(x ^ (1u64 << vv) < x) by (bit_vector)
        requires
            vv < 64,
            (x >> vv) & 1 == 1,
    ;
    assert forall|k: int| 0 <= k < 64 implies #[trigger] word_bit(x ^ (1u64 << v), k) == (word_bit(
        x,
        k,
    ) && k != v) by {
        let kk: u64 = k as u64;
        assert((((x ^ (1u64 << vv)) >> kk) & 1 == 1) == (((x >> kk) & 1 == 1) && kk != vv))
            by (bit_vector)
            requires
                vv < 64,
                kk < 64,
                (x >> vv) & 1 == 1,
        ;
    }
}

/// Or-ing the mask of bit `j` into a word sets that bit and leaves the others.
pub(crate) proof fn lemma_word_set_bit(x: u64, j: int)
    requires
        0 <= j < 64,
    ensures
        forall|k: int|
            0 <= k < 64 ==> #[trigger] word_bit(x | (1u64 << (j as u64)), k) == (word_bit(x, k)
                || k == j),
{
    let jj: u64 = j as u64;
    assert forall|k: int| 0 <= k < 64 implies #[trigger] word_bit(x | (1u64 << jj), k) == (word_bit(
        x,
        k,
    ) || k == j) by {
        let kk: u64 = k as u64;
        assert((((x | (1u64 << jj)) >> kk) & 1 == 1) == (((x >> kk) & 1 == 1) || kk == jj))
            by (bit_vector)
            requires
                jj < 64,
                kk < 64,
        ;
    }
}

/// Shifting the mask of bit `j` left by one gives the mask of bit `j + 1`.
pub(crate) proof fn lemma_word_mask_step(j: int)
    requires
        0 <= j < 63,
    ensures
        (1u64 << (j as u64)) << 1u32 == 1u64 << ((j + 1) as u64),
        1u64 << 0u64 == 1u64,
{
    let jj: u64 = j as u64;
    let nn: u64 = (j + 1) as u64;
    assert((1u64 << jj) << 1u64 == 1u64 << nn) by (bit_vector)
        requires
            jj < 63,
            nn == jj + 1,
    ;
    assert(1u64 << 0u64 == 1u64) by (bit_vector);
}

/// The lowest `n` bits of `x`, the others cleared.
pub(crate) open spec fn low_bits(x: u64, n: nat) -> u64 {
    if n >= 64 {
        x
    } else {
        x & !(0xffff_ffff_ffff_ffffu64 << (n as u64))
    }
}

/// Two words that agree in each of their lowest `n` bits have the same lowest
/// `n` bits.
pub(crate) proof fn lemma_low_bits_ext(x: u64, y: u64, n: nat)
    requires
        n <= 64,
        forall|k: int| 0 <= k < n ==> word_bit(x, k) == word_bit(y, k),
    ensures
        low_bits(x, n) == low_bits(y, n),
    decreases n,
{
    if n == 0 {
        assert(x & !(0xffff_ffff_ffff_ffffu64 << 0u64) == 0) by (bit_vector);
        assert(y & !(0xffff_ffff_ffff_ffffu64 << 0u64) == 0) by (bit_vector);
    } else {
        let m: u64 = (n - 1) as u64;
        lemma_low_bits_ext(x, y, (n - 1) as nat);
        assert(word_bit(x, n - 1) == word_bit(y, n - 1));
        if n == 64 {
            assert(x == y) by (bit_vector)
                requires
                    x & !(0xffff_ffff_ffff_ffffu64 << 63u64) == y & !(0xffff_ffff_ffff_ffffu64
                        << 63u64),
                    ((x >> 63u64) & 1 == 1) == ((y >> 63u64) & 1 == 1),
            ;
        } else {
            let n64: u64 = n as u64;
            assert(x & !(0xffff_ffff_ffff_ffffu64 << n64) == y & !(0xffff_ffff_ffff_ffffu64
                << n64)) by (bit_vector)
                requires
                    n64 < 64,
                    n64 == m + 1,
                    x & !(0xffff_ffff_ffff_ffffu64 << m) == y & !(0xffff_ffff_ffff_ffffu64 << m),
                    ((x >> m) & 1 == 1) == ((y >> m) & 1 == 1),
            ;
        }
    }
}

/// Two words that agree in each of their 64 bits are the same word.
pub(crate) proof fn lemma_word_ext(x: u64, y: u64)
    requires
        forall|k: int| 0 <= k < 64 ==> word_bit(x, k) == word_bit(y, k),
    ensures
        x == y,
{
    lemma_low_bits_ext(x, y, 64);
}

} // verus!
