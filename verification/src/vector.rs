//! The bit-sliced vector of 512 bytes, and its two transposes: from an array
//! of bytes to bit-planes and back.
use vstd::prelude::*;
use vstd::std_specs::convert::{FromSpecImpl, IntoSpecImpl};
use crate::bits::{byte_bit, byte_of_bits, lemma_bits_of_byte, lemma_byte_is_its_bits};
use crate::bits::{lemma_byte_clear_bit, lemma_byte_mask_step, lemma_byte_set_bit, lemma_byte_zero};
use crate::plane::{lemma_plane_ext, u64x8};
use crate::words::{lemma_word_clear_bit, lemma_word_mask_step, lemma_word_set_bit};
use crate::words::{lemma_word_zero, word_bit};

verus! {

/// 512 bytes in bit-sliced form: eight planes of 512 bits, where bit `i` of
/// plane `b` is bit `b` of byte `i`.
///
/// Its view is the sequence of the 512 bytes it stands for.
#[derive(Clone, Copy)]
pub struct u8x512 {
    pub(crate) rows: [u64x8; 8],
}

impl View for u8x512 {
    type V = Seq<u8>;

    open spec fn view(&self) -> Seq<u8> {
        Seq::new(512, |i: int| self.element(i) as u8)
    }
}

impl u8x512 {
    /// Bit `b` of element `i`, for `0 <= i < 512` and `0 <= b < 8`; bit 0 is
    /// the least significant.
    pub open(crate) spec fn bit(self, i: int, b: int) -> bool {
        self.rows[b].bit(i)
    }

    /// Element `i` as a number: the sum of `2^b` over its set bits `b`.
    pub open spec fn element(self, i: int) -> int {
        byte_of_bits(
            self.bit(i, 0),
            self.bit(i, 1),
            self.bit(i, 2),
            self.bit(i, 3),
            self.bit(i, 4),
            self.bit(i, 5),
            self.bit(i, 6),
            self.bit(i, 7),
        )
    }

    /// Whether this vector holds the bytes `s`: each of its bits is the bit of
    /// the byte at that place.
    pub open spec fn encodes(self, s: Seq<u8>) -> bool {
        &&& s.len() == 512
        &&& forall|i: int, b: int|
            0 <= i < 512 && 0 <= b < 8 ==> #[trigger] self.bit(i, b) == byte_bit(s[i], b)
    }

    /// The array of the 512 bytes that this vector holds.
    pub open spec fn decoding(self) -> [u8; 512] {
        choose|a: [u8; 512]| a@ == self@
    }

    /// The decoding of a vector is an array of its bytes.
    pub proof fn lemma_decoding_view(self)
        ensures
            self.decoding()@ == self@,
    {
        let a = array_of(self@, 512);
        assert forall|i: int| 0 <= i < 512 implies a@[i] == self@[i] by {
            lemma_array_of(self@, 512, i);
        }
        assert(a@ =~= self@);
    }

    /// The vector that holds the bytes `s`, for `s` of length 512.
    pub open spec fn encoding_of(s: Seq<u8>) -> u8x512 {
        choose|v: u8x512| v.encodes(s)
    }

    /// Every sequence of 512 bytes has an encoding, which holds it.
    pub proof fn lemma_encoding_encodes(s: Seq<u8>)
        requires
            s.len() == 512,
        ensures
            u8x512::encoding_of(s).encodes(s),
    {
        let v = planes_of(s);
        assert forall|i: int, b: int| 0 <= i < 512 && 0 <= b < 8 implies #[trigger] v.bit(i, b)
            == byte_bit(s[i], b) by {
            lemma_packed_word(s, b, 64 * (i / 64), 64, i % 64);
        }
        assert(v.encodes(s));
    }

    /// Two vectors that agree in every bit are the same vector.
    pub proof fn lemma_bits_ext(self, other: u8x512)
        requires
            forall|i: int, b: int|
                0 <= i < 512 && 0 <= b < 8 ==> #[trigger] self.bit(i, b) == other.bit(i, b),
        ensures
            self == other,
    {
        assert forall|b: int| 0 <= b < 8 implies self.rows[b] == other.rows[b] by {
            assert forall|i: int| 0 <= i < 512 implies self.rows[b].bit(i) == other.rows[b].bit(
                i,
            ) by {
                assert(self.bit(i, b) == other.bit(i, b));
            }
            lemma_plane_ext(self.rows[b], other.rows[b]);
        }
        assert(self.rows =~= other.rows);
    }

    /// Each byte of the view has the bits of its element.
    pub proof fn lemma_view_bits(self)
        ensures
            self@.len() == 512,
            self.encodes(self@),
    {
        assert forall|i: int, b: int| 0 <= i < 512 && 0 <= b < 8 implies #[trigger] self.bit(i, b)
            == byte_bit(self@[i], b) by {
            lemma_bits_of_byte(
                self.bit(i, 0),
                self.bit(i, 1),
                self.bit(i, 2),
                self.bit(i, 3),
                self.bit(i, 4),
                self.bit(i, 5),
                self.bit(i, 6),
                self.bit(i, 7),
            );
        }
    }

    /// A vector that holds the bytes `s` has `s` as its view.
    pub proof fn lemma_encodes_view(self, s: Seq<u8>)
        requires
            self.encodes(s),
        ensures
            self@ == s,
    {
        assert forall|i: int| 0 <= i < 512 implies self@[i] == s[i] by {
            lemma_byte_is_its_bits(s[i]);
            assert(self.bit(i, 0) == byte_bit(s[i], 0));
            assert(self.bit(i, 1) == byte_bit(s[i], 1));
            assert(self.bit(i, 2) == byte_bit(s[i], 2));
            assert(self.bit(i, 3) == byte_bit(s[i], 3));
            assert(self.bit(i, 4) == byte_bit(s[i], 4));
            assert(self.bit(i, 5) == byte_bit(s[i], 5));
            assert(self.bit(i, 6) == byte_bit(s[i], 6));
            assert(self.bit(i, 7) == byte_bit(s[i], 7));
        }
        assert(self@ =~= s);
    }

    /// Two vectors with the same view are the same vector.
    pub proof fn lemma_view_ext(self, other: u8x512)
        requires
            self@ == other@,
        ensures
            self == other,
    {
        self.lemma_view_bits();
        other.lemma_view_bits();
        self.lemma_bits_ext(other);
    }
}

/// The first `n` bits of the word that holds bit `b` of the 64 bytes of `s`
/// from index `base` on.
spec fn packed_word(s: Seq<u8>, b: int, base: int, n: nat) -> u64
    decreases n,
{
    if n == 0 {
        0
    } else {
        let rest = packed_word(s, b, base, (n - 1) as nat);
        if byte_bit(s[base + n - 1], b) {
            rest | (1u64 << ((n - 1) as u64))
        } else {
            rest
        }
    }
}

/// The plane that holds bit `b` of each of the 512 bytes of `s`.
spec fn plane_of(s: Seq<u8>, b: int) -> u64x8 {
    u64x8 {
        words: [
            packed_word(s, b, 0, 64),
            packed_word(s, b, 64, 64),
            packed_word(s, b, 128, 64),
            packed_word(s, b, 192, 64),
            packed_word(s, b, 256, 64),
            packed_word(s, b, 320, 64),
            packed_word(s, b, 384, 64),
            packed_word(s, b, 448, 64),
        ],
    }
}

/// A vector built plane by plane from the bytes of `s`.
spec fn planes_of(s: Seq<u8>) -> u8x512 {
    u8x512 {
        rows: [
            plane_of(s, 0),
            plane_of(s, 1),
            plane_of(s, 2),
            plane_of(s, 3),
            plane_of(s, 4),
            plane_of(s, 5),
            plane_of(s, 6),
            plane_of(s, 7),
        ],
    }
}

/// An array whose first `n` bytes are those of `s`.
spec fn array_of(s: Seq<u8>, n: nat) -> [u8; 512]
    decreases n,
{
    if n == 0 {
        vstd::array::spec_array_fill_for_copy_type::<u8, 512>(0u8)
    } else {
        vstd::array::spec_array_update(array_of(s, (n - 1) as nat), n - 1, s[n - 1])
    }
}

proof fn lemma_array_of(s: Seq<u8>, n: nat, i: int)
    requires
        n <= 512,
        0 <= i < n,
    ensures
        array_of(s, n)@[i] == s[i],
    decreases n,
{
    if i < n - 1 {
        lemma_array_of(s, (n - 1) as nat, i);
    }
}

proof fn lemma_packed_word(s: Seq<u8>, b: int, base: int, n: nat, k: int)
    requires
        n <= 64,
        0 <= k < 64,
    ensures
        word_bit(packed_word(s, b, base, n), k) == (k < n && byte_bit(s[base + k], b)),
    decreases n,
{
    if n == 0 {
        lemma_word_zero();
    } else {
        let rest = packed_word(s, b, base, (n - 1) as nat);
        lemma_packed_word(s, b, base, (n - 1) as nat, k);
        lemma_word_set_bit(rest, n - 1);
    }
}

/// Whether the planes hold the bits of the first `n` bytes of `cols`, and no
/// other bit.
spec fn transposed(rows: [u64x8; 8], cols: Seq<u8>, n: int) -> bool {
    forall|i: int, b: int|
        0 <= i < 512 && 0 <= b < 8 ==> #[trigger] rows[b].bit(i) == (i < n && byte_bit(cols[i], b))
}

/// Whether the planes hold the bits of the first `n` bytes of `cols` and, of
/// byte `n`, those bits that are no longer set in `rest`.
spec fn transposing(rows: [u64x8; 8], cols: Seq<u8>, n: int, rest: u8) -> bool {
    &&& forall|b: int| 0 <= b < 8 && #[trigger] byte_bit(rest, b) ==> byte_bit(cols[n], b)
    &&& forall|i: int, b: int|
        0 <= i < 512 && 0 <= b < 8 ==> #[trigger] rows[b].bit(i) == (if i == n {
            byte_bit(cols[i], b) && !byte_bit(rest, b)
        } else {
            i < n && byte_bit(cols[i], b)
        })
}

impl From<&[u8; 512]> for u8x512 {
    /// Transposes 512 bytes into eight bit-planes.
    fn from(cols: &[u8; 512]) -> (r: u8x512)
        ensures
            r.encodes(cols@),
            r@ == cols@,
            r == u8x512::encoding_of(cols@),
    {
        let mut rows = [u64x8::zero(); 8];
        for w in 0..8usize
            invariant
                transposed(rows, cols@, 64 * w),
        {
            let mut h_mask: u64 = 1;
            proof {
                lemma_word_mask_step(0);
            }
            for j in 0..64usize
                invariant
                    w < 8,
                    j < 64 ==> h_mask == 1u64 << (j as u64),
                    transposed(rows, cols@, 64 * w + j),
            {
                let i: usize = 64 * w + j;
                let mut col: u8 = cols[i];
                proof {
                    lemma_byte_zero();
                }
                while col != 0
                    invariant
                        w < 8,
                        j < 64,
                        i == 64 * w + j,
                        h_mask == 1u64 << (j as u64),
                        transposing(rows, cols@, i as int, col),
                    decreases col,
                {
                    let ghost rows_before = rows;
                    let v: u32 = col.trailing_zeros();
                    proof {
                        vstd::std_specs::bits::axiom_u8_trailing_zeros(col);
                        assert(byte_bit(col, v as int));
                        lemma_byte_clear_bit(col, v);
                        lemma_word_set_bit(rows[v as int].words[w as int], j as int);
                    }
                    col ^= 1 << v;
                    rows[v as usize].words[w] |= h_mask;
                    proof {
                        assert forall|e: int, b: int|
                            0 <= e < 512 && 0 <= b < 8 implies #[trigger] rows[b].bit(e) == (
                            rows_before[b].bit(e) || (b == v && e == i)) by {
                            if !(b == v && e / 64 == w) {
                                assert(rows[b].words[e / 64] == rows_before[b].words[e / 64]);
                            }
                        }
                    }
                }
                proof {
                    if j < 63 {
                        lemma_word_mask_step(j as int);
                    }
                }
                h_mask = h_mask.wrapping_shl(1);
            }
        }
        let r = u8x512 { rows };
        proof {
            r.lemma_encodes_view(cols@);
            u8x512::lemma_encoding_encodes(cols@);
            r.lemma_bits_ext(u8x512::encoding_of(cols@));
        }
        r
    }
}

impl FromSpecImpl<&[u8; 512]> for u8x512 {
    open spec fn obeys_from_spec() -> bool {
        true
    }

    open spec fn from_spec(cols: &[u8; 512]) -> u8x512 {
        u8x512::encoding_of(cols@)
    }
}

/// The bytes of a boxed array, in order.
pub open spec fn boxed_bytes(cols: Box<[u8; 512]>) -> Seq<u8> {
    cols@
}

/// Whether the bytes hold bits 0 to `b - 1` of every element of `v` and bit
/// `b` of its first `n` elements, and no other bit.
spec fn gathered(cols: Seq<u8>, v: u8x512, b: int, n: int) -> bool {
    forall|i: int, k: int|
        0 <= i < 512 && 0 <= k < 8 ==> #[trigger] byte_bit(cols[i], k) == (v.bit(i, k) && (k < b
            || (k == b && i < n)))
}

/// Whether the bytes hold bits 0 to `b - 1` of every element of `v`, bit `b`
/// of its first `64 * w` elements and, of the 64 elements after those, the
/// bits `b` that are no longer set in `rest`.
spec fn gathering(cols: Seq<u8>, v: u8x512, b: int, w: int, rest: u64) -> bool {
    &&& forall|h: int| 0 <= h < 64 && #[trigger] word_bit(rest, h) ==> v.bit(64 * w + h, b)
    &&& forall|i: int, k: int|
        0 <= i < 512 && 0 <= k < 8 ==> #[trigger] byte_bit(cols[i], k) == (v.bit(i, k) && (k < b
            || (k == b && (i < 64 * w || (i / 64 == w && !word_bit(rest, i % 64))))))
}

impl Into<Box<[u8; 512]>> for &u8x512 {
    /// Transposes the eight bit-planes back into 512 bytes.
    fn into(self) -> (cols: Box<[u8; 512]>)
        ensures
            boxed_bytes(cols) == self@,
            cols == Box::new(self.decoding()),
    {
        let mut cols = [0u8; 512];
        let mut v_mask: u8 = 1;
        proof {
            lemma_byte_zero();
            lemma_byte_mask_step(0);
        }
        for b in 0..8usize
            invariant
                b < 8 ==> v_mask == 1u8 << (b as u8),
                gathered(cols@, *self, b as int, 0),
        {
            let row = self.rows[b];
            for w in 0..8usize
                invariant
                    b < 8,
                    v_mask == 1u8 << (b as u8),
                    row == self.rows[b as int],
                    gathered(cols@, *self, b as int, 64 * w),
            {
                let mut row_cpy: u64 = row.words[w];
                proof {
                    lemma_word_zero();
                }
                while row_cpy != 0
                    invariant
                        b < 8,
                        w < 8,
                        v_mask == 1u8 << (b as u8),
                        row == self.rows[b as int],
                        gathering(cols@, *self, b as int, w as int, row_cpy),
                    decreases row_cpy,
                {
                    let ghost cols_before = cols;
                    let h: u32 = row_cpy.trailing_zeros();
                    proof {
                        vstd::std_specs::bits::axiom_u64_trailing_zeros(row_cpy);
                        assert(word_bit(row_cpy, h as int));
                        lemma_word_clear_bit(row_cpy, h);
                        lemma_byte_set_bit(cols[h + 64 * w], b as int);
                    }
                    row_cpy ^= 1 << h;
                    cols[h as usize + 64 * w] |= v_mask;
                    proof {
                        assert forall|i: int, k: int|
                            0 <= i < 512 && 0 <= k < 8 implies #[trigger] byte_bit(cols[i], k) == (
                            byte_bit(cols_before[i], k) || (k == b && i == 64 * w + h)) by {
                            if i != 64 * w + h {
                                assert(cols[i] == cols_before[i]);
                            }
                        }
                    }
                }
            }
            proof {
                if b < 7 {
                    lemma_byte_mask_step(b as int);
                }
            }
            v_mask = v_mask.wrapping_shl(1);
        }
        proof {
            assert(self.encodes(cols@));
            self.lemma_encodes_view(cols@);
            assert(self.decoding() =~= cols);
        }
        Box::new(cols)
    }
}

impl IntoSpecImpl<Box<[u8; 512]>> for &u8x512 {
    open spec fn obeys_into_spec() -> bool {
        true
    }

    open spec fn into_spec(self) -> Box<[u8; 512]> {
        Box::new(self.decoding())
    }
}

} // verus!
