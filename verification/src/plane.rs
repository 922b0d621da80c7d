//! One bit-plane of 512 bits and the three whole-plane operations that the
//! adder is built from.
use vstd::prelude::*;
use crate::words::{lemma_word_ext, word_bit};

verus! {

/// A plane of 512 bits, held as eight words of 64 bits. Bit `i` of the plane is
/// bit `i % 64` of word `i / 64`.
#[derive(Clone, Copy)]
pub(crate) struct u64x8 {
    pub(crate) words: [u64; 8],
}

impl u64x8 {
    /// Whether bit `i` of the plane is set, for `0 <= i < 512`.
    pub(crate) open spec fn bit(self, i: int) -> bool {
        word_bit(self.words[i / 64], i % 64)
    }

    /// The plane with no bit set.
    pub(crate) fn zero() -> (r: u64x8)
        ensures
            forall|i: int| 0 <= i < 512 ==> !#[trigger] r.bit(i),
    {
        let r = u64x8 { words: [0u64; 8] };
        proof {
            assert forall|i: int| 0 <= i < 512 implies !#[trigger] r.bit(i) by {
                let k: u64 = (i % 64) as u64;
                assert((0u64 >> k) & 1 == 0) by (bit_vector);
            }
        }
        r
    }

    /// Bitwise exclusive or of two planes.
    pub(crate) fn xor(self, rhs: u64x8) -> (r: u64x8)
        ensures
            forall|i: int| 0 <= i < 512 ==> #[trigger] r.bit(i) == (self.bit(i) != rhs.bit(i)),
    {
        let r = u64x8 {
            words: [
                self.words[0] ^ rhs.words[0],
                self.words[1] ^ rhs.words[1],
                self.words[2] ^ rhs.words[2],
                self.words[3] ^ rhs.words[3],
                self.words[4] ^ rhs.words[4],
                self.words[5] ^ rhs.words[5],
                self.words[6] ^ rhs.words[6],
                self.words[7] ^ rhs.words[7],
            ],
        };
        proof {
            assert forall|i: int| 0 <= i < 512 implies #[trigger] r.bit(i) == (self.bit(i)
                != rhs.bit(i)) by {
                let x = self.words[i / 64];
                let y = rhs.words[i / 64];
                let k: u64 = (i % 64) as u64;
                assert((((x ^ y) >> k) & 1 == 1) == (((x >> k) & 1 == 1) != ((y >> k) & 1 == 1)))
                    by (bit_vector);
            }
        }
        r
    }

    /// Bitwise and of two planes.
    pub(crate) fn and(self, rhs: u64x8) -> (r: u64x8)
        ensures
            forall|i: int| 0 <= i < 512 ==> #[trigger] r.bit(i) == (self.bit(i) && rhs.bit(i)),
    {
        let r = u64x8 {
            words: [
                self.words[0] & rhs.words[0],
                self.words[1] & rhs.words[1],
                self.words[2] & rhs.words[2],
                self.words[3] & rhs.words[3],
                self.words[4] & rhs.words[4],
                self.words[5] & rhs.words[5],
                self.words[6] & rhs.words[6],
                self.words[7] & rhs.words[7],
            ],
        };
        proof {
            assert forall|i: int| 0 <= i < 512 implies #[trigger] r.bit(i) == (self.bit(i)
                && rhs.bit(i)) by {
                let x = self.words[i / 64];
                let y = rhs.words[i / 64];
                let k: u64 = (i % 64) as u64;
                assert((((x & y) >> k) & 1 == 1) == (((x >> k) & 1 == 1) && ((y >> k) & 1 == 1)))
                    by (bit_vector);
            }
        }
        r
    }

    /// Bitwise or of two planes.
    pub(crate) fn or(self, rhs: u64x8) -> (r: u64x8)
        ensures
            forall|i: int| 0 <= i < 512 ==> #[trigger] r.bit(i) == (self.bit(i) || rhs.bit(i)),
    {
        let r = u64x8 {
            words: [
                self.words[0] | rhs.words[0],
                self.words[1] | rhs.words[1],
                self.words[2] | rhs.words[2],
                self.words[3] | rhs.words[3],
                self.words[4] | rhs.words[4],
                self.words[5] | rhs.words[5],
                self.words[6] | rhs.words[6],
                self.words[7] | rhs.words[7],
            ],
        };
        proof {
            assert forall|i: int| 0 <= i < 512 implies #[trigger] r.bit(i) == (self.bit(i)
                || rhs.bit(i)) by {
                let x = self.words[i / 64];
                let y = rhs.words[i / 64];
                let k: u64 = (i % 64) as u64;
                assert((((x | y) >> k) & 1 == 1) == (((x >> k) & 1 == 1) || ((y >> k) & 1 == 1)))
                    by (bit_vector);
            }
        }
        r
    }
}

/// Two planes that agree in each of their 512 bits are the same plane.
pub(crate) proof fn lemma_plane_ext(p: u64x8, q: u64x8)
    requires
        forall|i: int| 0 <= i < 512 ==> p.bit(i) == q.bit(i),
    ensures
        p == q,
{
    assert forall|w: int| 0 <= w < 8 implies p.words[w] == q.words[w] by {
        assert forall|k: int| 0 <= k < 64 implies word_bit(p.words[w], k) == word_bit(
            q.words[w],
            k,
        ) by {
            assert(p.bit(64 * w + k) == q.bit(64 * w + k));
        }
        lemma_word_ext(p.words[w], q.words[w]);
    }
    assert(p.words =~= q.words);
}

} // verus!
