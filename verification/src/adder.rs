//! The parallel adder: a ripple-carry chain that runs across the bit-planes,
//! so that all 512 bytes are added at once, each modulo 256.
use vstd::prelude::*;
use vstd::std_specs::ops::AddSpecImpl;
use std::ops::{Add, AddAssign};
use crate::bits::lemma_bits_of_byte;
use crate::plane::u64x8;
use crate::vector::u8x512;

verus! {

/// The element-wise sum modulo 256 of two sequences of 512 bytes.
pub open spec fn wrapping_sum(a: Seq<u8>, b: Seq<u8>) -> Seq<u8> {
    Seq::new(512, |i: int| ((a[i] + b[i]) % 256) as u8)
}

impl u8x512 {
    /// The vector whose every element is the sum modulo 256 of the elements
    /// of `self` and `rhs` at its place.
    pub open spec fn plus(self, rhs: u8x512) -> u8x512 {
        u8x512::encoding_of(wrapping_sum(self@, rhs@))
    }
}

/// The place value of bit `k`: 2 to the power `k`.
spec fn weight(k: int) -> int
    decreases k,
{
    if k <= 0 {
        1
    } else {
        2 * weight(k - 1)
    }
}

/// What a bit at place `k` is worth: its place value if it is set, else 0.
spec fn bit_worth(c: bool, k: int) -> int {
    if c {
        weight(k)
    } else {
        0
    }
}

/// The number that the lowest `n` bits of element `e` spell.
spec fn low_sum(rows: [u64x8; 8], e: int, n: int) -> int
    decreases n,
{
    if n <= 0 {
        0
    } else {
        low_sum(rows, e, n - 1) + bit_worth(rows[n - 1].bit(e), n - 1)
    }
}

/// The sum bit of a full adder.
spec fn sum_bit(x: bool, y: bool, c: bool) -> bool {
    (x != y) != c
}

/// The carry bit of a full adder.
spec fn carry_bit(x: bool, y: bool, c: bool) -> bool {
    (x && y) || (x && c) || (y && c)
}

/// Whether the lowest `n` planes of `sum`, with `carry` as the carry into bit
/// `n`, hold the sums of the lowest `n` bits of the elements of `a` and `b`.
spec fn rippled(sum: [u64x8; 8], carry: u64x8, a: [u64x8; 8], b: [u64x8; 8], n: int) -> bool {
    forall|e: int| 0 <= e < 512 ==> #[trigger] rippled_at(sum, carry, a, b, n, e)
}

/// [`rippled`] for the one element `e`.
spec fn rippled_at(
    sum: [u64x8; 8],
    carry: u64x8,
    a: [u64x8; 8],
    b: [u64x8; 8],
    n: int,
    e: int,
) -> bool {
    low_sum(sum, e, n) + bit_worth(carry.bit(e), n) == low_sum(a, e, n) + low_sum(b, e, n)
}

/// The place values of bits 7 and 8.
proof fn lemma_weights()
    ensures
        weight(7) == 128,
        weight(8) == 256,
{
    reveal_with_fuel(weight, 9);
}

/// The lowest `n` bits of an element depend on the lowest `n` planes only.
proof fn lemma_low_sum_frame(p: [u64x8; 8], q: [u64x8; 8], e: int, n: int)
    requires
        n <= 8,
        forall|k: int| 0 <= k < n ==> p[k] == q[k],
    ensures
        low_sum(p, e, n) == low_sum(q, e, n),
    decreases n,
{
    if n > 0 {
        lemma_low_sum_frame(p, q, e, n - 1);
    }
}

/// All eight bits of an element spell the element, a number below 256.
proof fn lemma_low_sum_all(v: u8x512, e: int)
    ensures
        low_sum(v.rows, e, 8) == v.element(e),
        0 <= v.element(e) < 256,
{
    reveal_with_fuel(low_sum, 9);
    reveal_with_fuel(weight, 9);
    lemma_bits_of_byte(
        v.bit(e, 0),
        v.bit(e, 1),
        v.bit(e, 2),
        v.bit(e, 3),
        v.bit(e, 4),
        v.bit(e, 5),
        v.bit(e, 6),
        v.bit(e, 7),
    );
}

/// One full adder at a place worth `w`: the sum bit there and the carry bit
/// one place up are worth what the three bits that went in were worth.
proof fn lemma_full_adder(x: bool, y: bool, c: bool, w: int)
    ensures
        (if sum_bit(x, y, c) {
            w
        } else {
            0
        }) + (if carry_bit(x, y, c) {
            2 * w
        } else {
            0
        }) == (if x {
            w
        } else {
            0
        }) + (if y {
            w
        } else {
            0
        }) + (if c {
            w
        } else {
            0
        }),
{
}

/// The first step of the chain: a half adder on the lowest planes.
proof fn lemma_ripple_first(sum: [u64x8; 8], carry: u64x8, a: [u64x8; 8], b: [u64x8; 8])
    requires
        forall|e: int| 0 <= e < 512 ==> #[trigger] sum[0].bit(e) == (a[0].bit(e) != b[0].bit(e)),
        forall|e: int| 0 <= e < 512 ==> #[trigger] carry.bit(e) == (a[0].bit(e) && b[0].bit(e)),
    ensures
        rippled(sum, carry, a, b, 1),
{
    reveal_with_fuel(low_sum, 2);
    reveal_with_fuel(weight, 2);
    assert forall|e: int| 0 <= e < 512 implies #[trigger] rippled_at(sum, carry, a, b, 1, e) by {
        assert(sum[0].bit(e) == (a[0].bit(e) != b[0].bit(e)));
        assert(carry.bit(e) == (a[0].bit(e) && b[0].bit(e)));
    }
}

/// How one full-adder step extends the chain by one plane.
proof fn lemma_ripple_step(
    sum: [u64x8; 8],
    carry: u64x8,
    next_sum: [u64x8; 8],
    next_carry: u64x8,
    a: [u64x8; 8],
    b: [u64x8; 8],
    n: int,
)
    requires
        0 < n < 8,
        rippled(sum, carry, a, b, n),
        forall|k: int| 0 <= k < n ==> next_sum[k] == sum[k],
        forall|e: int|
            0 <= e < 512 ==> #[trigger] next_sum[n].bit(e) == sum_bit(
                a[n].bit(e),
                b[n].bit(e),
                carry.bit(e),
            ),
        forall|e: int|
            0 <= e < 512 ==> #[trigger] next_carry.bit(e) == carry_bit(
                a[n].bit(e),
                b[n].bit(e),
                carry.bit(e),
            ),
    ensures
        rippled(next_sum, next_carry, a, b, n + 1),
{
    assert forall|e: int| 0 <= e < 512 implies #[trigger] rippled_at(
        next_sum,
        next_carry,
        a,
        b,
        n + 1,
        e,
    ) by {
        assert(rippled_at(sum, carry, a, b, n, e));
        assert(next_sum[n].bit(e) == sum_bit(a[n].bit(e), b[n].bit(e), carry.bit(e)));
        assert(next_carry.bit(e) == carry_bit(a[n].bit(e), b[n].bit(e), carry.bit(e)));
        lemma_low_sum_frame(next_sum, sum, e, n);
        lemma_full_adder(a[n].bit(e), b[n].bit(e), carry.bit(e), weight(n));
        assert(weight(n + 1) == 2 * weight(n));
    }
}

/// The last step of the chain for the one element `e`: without the carry out
/// of bit 7, the element is the sum modulo 256.
proof fn lemma_ripple_last_at(
    sum: [u64x8; 8],
    carry: u64x8,
    r: u8x512,
    a: u8x512,
    b: u8x512,
    e: int,
)
    requires
        rippled_at(sum, carry, a.rows, b.rows, 7, e),
        forall|k: int| 0 <= k < 7 ==> r.rows[k] == sum[k],
        r.rows[7].bit(e) == sum_bit(a.rows[7].bit(e), b.rows[7].bit(e), carry.bit(e)),
    ensures
        0 <= r.element(e) < 256,
        r.element(e) == (a.element(e) + b.element(e)) % 256,
{
    lemma_low_sum_all(r, e);
    lemma_low_sum_all(a, e);
    lemma_low_sum_all(b, e);
    lemma_low_sum_frame(r.rows, sum, e, 7);
    lemma_weights();
    lemma_full_adder(a.rows[7].bit(e), b.rows[7].bit(e), carry.bit(e), 128);
    let total = a.element(e) + b.element(e);
    assert(low_sum(r.rows, e, 8) == low_sum(r.rows, e, 7) + bit_worth(r.rows[7].bit(e), 7));
    assert(low_sum(a.rows, e, 8) == low_sum(a.rows, e, 7) + bit_worth(a.rows[7].bit(e), 7));
    assert(low_sum(b.rows, e, 8) == low_sum(b.rows, e, 7) + bit_worth(b.rows[7].bit(e), 7));
    assert(r.element(e) == total || r.element(e) == total - 256);
}

/// The last step of the chain: the carry out of bit 7 is dropped, so the
/// eight planes hold the sums modulo 256.
proof fn lemma_ripple_last(sum: [u64x8; 8], carry: u64x8, r: u8x512, a: u8x512, b: u8x512)
    requires
        rippled(sum, carry, a.rows, b.rows, 7),
        forall|k: int| 0 <= k < 7 ==> r.rows[k] == sum[k],
        forall|e: int|
            0 <= e < 512 ==> #[trigger] r.rows[7].bit(e) == sum_bit(
                a.rows[7].bit(e),
                b.rows[7].bit(e),
                carry.bit(e),
            ),
    ensures
        r@ == wrapping_sum(a@, b@),
        r == a.plus(b),
{
    assert forall|e: int| 0 <= e < 512 implies r@[e] == wrapping_sum(a@, b@)[e] by {
        assert(rippled_at(sum, carry, a.rows, b.rows, 7, e));
        assert(r.rows[7].bit(e) == sum_bit(a.rows[7].bit(e), b.rows[7].bit(e), carry.bit(e)));
        lemma_ripple_last_at(sum, carry, r, a, b, e);
        lemma_low_sum_all(a, e);
        lemma_low_sum_all(b, e);
    }
    assert(r@ =~= wrapping_sum(a@, b@));
    lemma_plus_is(a, b, r);
}

/// A vector whose view is the element-wise sum is the sum.
proof fn lemma_plus_is(a: u8x512, b: u8x512, r: u8x512)
    requires
        r@ == wrapping_sum(a@, b@),
    ensures
        r == a.plus(b),
{
    u8x512::lemma_encoding_encodes(r@);
    u8x512::encoding_of(r@).lemma_encodes_view(r@);
    r.lemma_view_ext(u8x512::encoding_of(r@));
}

impl Add<&u8x512> for &u8x512 {
    type Output = u8x512;

    /// Adds the two vectors element by element, modulo 256.
    ///
    /// The carry out of the highest bit is dropped. Whatever the operands
    /// hold, the same sequence of whole-plane operations runs: no step looks
    /// at a value to decide what to do next.
    fn add(self, rhs: &u8x512) -> (r: u8x512)
        ensures
            r == self.plus(*rhs),
            r@ == wrapping_sum(self@, rhs@),
    {
        let mut res = [u64x8::zero(); 8];
        res[0] = self.rows[0].xor(rhs.rows[0]);
        let mut carry = self.rows[0].and(rhs.rows[0]);
        proof {
            lemma_ripple_first(res, carry, self.rows, rhs.rows);
        }
        for i in 1..7usize
            invariant
                rippled(res, carry, self.rows, rhs.rows, i as int),
        {
            let ghost sum_before = res;
            let ghost carry_before = carry;
            res[i] = self.rows[i].xor(rhs.rows[i]).xor(carry);
            carry = self.rows[i].and(rhs.rows[i]).or(self.rows[i].and(carry)).or(
                rhs.rows[i].and(carry),
            );
            proof {
                lemma_ripple_step(
                    sum_before,
                    carry_before,
                    res,
                    carry,
                    self.rows,
                    rhs.rows,
                    i as int,
                );
            }
        }
        let ghost sum_before = res;
        res[7] = self.rows[7].xor(rhs.rows[7]).xor(carry);
        let r = u8x512 { rows: res };
        proof {
            lemma_ripple_last(sum_before, carry, r, *self, *rhs);
        }
        r
    }
}

impl AddSpecImpl<&u8x512> for &u8x512 {
    open spec fn obeys_add_spec() -> bool {
        true
    }

    open spec fn add_req(self, rhs: &u8x512) -> bool {
        true
    }

    open spec fn add_spec(self, rhs: &u8x512) -> u8x512 {
        self.plus(*rhs)
    }
}

impl Add<u8x512> for u8x512 {
    type Output = u8x512;

    /// Adds the two vectors element by element, modulo 256.
    #[inline(always)]
    fn add(self, rhs: u8x512) -> (r: u8x512)
        ensures
            r == self.plus(rhs),
            r@ == wrapping_sum(self@, rhs@),
    {
        (&self).add(&rhs)
    }
}

impl AddSpecImpl<u8x512> for u8x512 {
    open spec fn obeys_add_spec() -> bool {
        true
    }

    open spec fn add_req(self, rhs: u8x512) -> bool {
        true
    }

    open spec fn add_spec(self, rhs: u8x512) -> u8x512 {
        self.plus(rhs)
    }
}

impl AddAssign<&u8x512> for u8x512 {
    /// Adds `rhs` to this vector in place, element by element, modulo 256.
    ///
    /// Works on the planes of `self` directly, with one plane of scratch
    /// space besides the carry, and leaves what `+` would return.
    fn add_assign(&mut self, rhs: &u8x512)
        ensures
            *final(self) == old(self).plus(*rhs),
            final(self)@ == wrapping_sum(old(self)@, rhs@),
    {
        let mut tmp;
        let mut carry = self.rows[0].and(rhs.rows[0]);
        self.rows[0] = self.rows[0].xor(rhs.rows[0]);
        proof {
            lemma_ripple_first(self.rows, carry, old(self).rows, rhs.rows);
        }
        for i in 1..7usize
            invariant
                rippled(self.rows, carry, old(self).rows, rhs.rows, i as int),
                forall|k: int| i <= k < 8 ==> self.rows[k] == old(self).rows[k],
        {
            let ghost sum_before = self.rows;
            let ghost carry_before = carry;
            tmp = self.rows[i].xor(rhs.rows[i]).xor(carry);
            carry = self.rows[i].and(rhs.rows[i]).or(self.rows[i].and(carry)).or(
                rhs.rows[i].and(carry),
            );
            self.rows[i] = tmp;
            proof {
                lemma_ripple_step(
                    sum_before,
                    carry_before,
                    self.rows,
                    carry,
                    old(self).rows,
                    rhs.rows,
                    i as int,
                );
            }
        }
        let ghost sum_before = self.rows;
        self.rows[7] = self.rows[7].xor(rhs.rows[7]).xor(carry);
        proof {
            lemma_ripple_last(sum_before, carry, *self, *old(self), *rhs);
        }
    }
}

impl AddAssign<u8x512> for u8x512 {
    /// Adds `rhs` to this vector in place, element by element, modulo 256.
    fn add_assign(&mut self, rhs: u8x512)
        ensures
            *final(self) == old(self).plus(rhs),
            final(self)@ == wrapping_sum(old(self)@, rhs@),
    {
        self.add_assign(&rhs);
    }
}

} // verus!
