//! `java.util.Random` with Java's method names (`nextInt`, `nextLong`, ...), as used
//! by the noise generators.
use crate::rand::java::initial_state;
use crate::rand::lcg::{
    modulus,
    MASK, MULTIPLIER, accepts, bounded_draw, first_acceptance, half_modulus, is_power_of_two,
    is_state, iterate, lcg_next, lemma_bounded_draw_range, lemma_first_acceptance_unique,
    lemma_i32_lowest_bit, lemma_iterate_succ, lemma_low_state_reached,
    lemma_top_bits_range, top_bits,
};
use vstd::bits::lemma_u64_shr_is_div;
use vstd::prelude::*;

verus! {

/// A `java.util.Random`: a 48-bit state stepped by the linear congruential generator
/// of `lcg`. Its view is the state.
#[derive(Debug)]
pub struct JavaRand {
    seed: i64,
}

impl View for JavaRand {
    type V = int;

    closed spec fn view(&self) -> int {
        self.seed as int % modulus()
    }
}

impl Clone for JavaRand {
    fn clone(&self) -> (r: Self)
        ensures
            r@ == self@,
    {
        proof {
            use_type_invariant(self);
        }
        JavaRand { seed: self.seed }
    }
}

/// The 64-bit value `nextLong` assembles from two 32-bit draws `hi` and `lo`: each taken
/// as a signed `int`, `hi` shifted into the upper half and `lo` added, wrapping.
pub open spec fn long_from_halves(hi: int, lo: int) -> i64 {
    vstd::wrapping::i64_specs::wrapping_add(((hi as i32) as int * 0x1_0000_0000) as i64, (lo as i32) as i64)
}

/// The 53-bit value `nextDouble` assembles from a 26-bit and a 27-bit draw.
pub open spec fn double_bits_from_halves(hi: int, lo: int) -> int {
    hi * 0x800_0000 + lo
}

impl JavaRand {
    #[verifier::type_invariant]
    spec fn state_in_range(&self) -> bool {
        0 <= self.seed < 0x1_0000_0000_0000
    }

    pub fn new(seed: i64) -> (r: Self)
        ensures
            r@ == initial_state(seed),
            is_state(r@),
    {
        let s = (seed ^ (MULTIPLIER as i64)) & (MASK as i64);
        assert(0 <= s < 0x1_0000_0000_0000) by (bit_vector)
            requires
                s == (seed ^ 0x5DEECE66Di64) & 0xFFFF_FFFF_FFFFi64,
        ;
        JavaRand { seed: s }
    }

    /// Steps the generator and returns the top `bits` bits of the new state.
    pub fn next(&mut self, bits: u32) -> (r: i64)
        requires
            bits <= 48,
        ensures
            final(self)@ == lcg_next(old(self)@),
            r == top_bits(final(self)@, bits as nat),
            is_state(final(self)@),
    {
        proof {
            use_type_invariant(&*self);
        }
        let next: u128 = ((self.seed as u128) * 0x5DEECE66Du128 + 0xBu128) % 0x1_0000_0000_0000u128;
        self.seed = next as i64;
        let shift: u64 = (48 - bits) as u64;
        proof {
            lemma_u64_shr_is_div(next as u64, shift);
            lemma_top_bits_range(next as int, bits as nat);
        }
        ((next as u64) >> shift) as i64
    }

    /// `nextInt()`: the top 32 bits of the next state, as an `i32`.
    pub fn next_i32(&mut self) -> (r: i32)
        ensures
            final(self)@ == lcg_next(old(self)@),
            r == top_bits(final(self)@, 32) as i32,
    {
        self.next(32) as i32
    }

    /// `nextInt(bound)`: a value in `[0, bound)`.
    pub fn next_i32_bounded(&mut self, bound: i32) -> (r: i32)
        requires
            bound > 0,
        ensures
            (final(self)@, r as int) == bounded_draw(old(self)@, bound as int),
            0 <= r < bound,
    {
        proof {
            use_type_invariant(&*self);
            lemma_i32_lowest_bit(bound);
            lemma_bounded_draw_range(self@, bound as int);
        }
        if (bound & -bound) == bound {
            let bits = self.next(31);
            proof {
                lemma_top_bits_range(self@, 31);
                vstd::arithmetic::power2::lemma2_to64();
                assert(0 <= (bound as int) * (bits as int) < 0x8000_0000 * 0x8000_0000) by (nonlinear_arith)
                    requires
                        0 < bound,
                        0 <= bits < 0x8000_0000,
                ;
            }
            let product: i64 = bound as i64 * bits;
            let r = product >> 31u32;
            assert(r == product / 0x8000_0000) by (bit_vector)
                requires
                    0 <= product,
                    r == product >> 31u32,
            ;
            proof {
                assert(0 <= r < bound) by (nonlinear_arith)
                    requires
                        0 < bound,
                        0 <= bits < 0x8000_0000,
                        product == bound * bits,
                        r == product / 0x8000_0000,
                ;
                reveal(bounded_draw);
            }
            return r as i32;
        }
        self.next_i32_rejecting(bound)
    }

    /// `nextInt(bound)` for a bound that is not a power of two: 31-bit draws are taken
    /// until one is accepted, and its remainder modulo `bound` is the value. The loop
    /// ends because the generator reaches a state with its top bit clear within
    /// `2^47 + 1` steps, and such a state is always accepted.
    fn next_i32_rejecting(&mut self, bound: i32) -> (r: i32)
        requires
            bound > 0,
            !is_power_of_two(bound as int),
        ensures
            (final(self)@, r as int) == bounded_draw(old(self)@, bound as int),
    {
        proof {
            use_type_invariant(&*self);
        }
        let ghost s0 = self@;
        let ghost mut steps: nat = 0;
        let ghost mut k: nat = lemma_low_state_reached(s0);
        loop
            invariant
                0 < bound,
                !is_power_of_two(bound as int),
                is_state(s0),
                s0 == old(self)@,
                self@ == iterate(s0, steps),
                forall|m: nat| m < steps ==> !accepts(#[trigger] iterate(s0, m + 1), bound as int),
                iterate(self@, k + 1) < half_modulus(),
            decreases k,
        {
            let ghost before = self@;
            let bits = self.next(31);
            proof {
                lemma_iterate_succ(s0, steps);
                lemma_top_bits_range(self@, 31);
                vstd::arithmetic::power2::lemma2_to64();
            }
            let val: i64 = ((bits as u64) % (bound as u64)) as i64;
            let accepted = bits - val + (bound as i64 - 1) <= 0x7fff_ffff;
            proof {
                crate::rand::primitives::lemma_acceptance_test(self@, bound as int, bits as int, val as int);
            }
            if accepted {
                proof {
                    assert(first_acceptance(s0, bound as int, steps));
                    lemma_first_acceptance_unique(s0, bound as int, steps);
                reveal(bounded_draw);
                    assert(self@ == iterate(s0, steps + 1));
                    assert(bounded_draw(s0, bound as int) == (self@, val as int));
                }
                return val as i32;
            }
            proof {
                crate::rand::primitives::lemma_rejection_step(before, self@, k, bound as int);
                k = (k - 1) as nat;
                steps = steps + 1;
            }
        }
    }

    /// `nextLong`: two 32-bit draws taken as signed `int`s, the first shifted into the
    /// upper half and the second added to it, wrapping.
    pub fn next_i64(&mut self) -> (r: i64)
        ensures
            final(self)@ == lcg_next(lcg_next(old(self)@)),
            r == long_from_halves(top_bits(lcg_next(old(self)@), 32), top_bits(final(self)@, 32)),
    {
        let hi = self.next_i32() as i64;
        let lo = self.next_i32() as i64;
        let shifted = hi << 32u32;
        assert(shifted == hi * 0x1_0000_0000) by (bit_vector)
            requires
                -0x8000_0000 <= hi < 0x8000_0000,
                shifted == hi << 32u32,
        ;
        shifted.wrapping_add(lo)
    }

    /// `nextBoolean`: whether the top bit of the next state is set.
    pub fn next_bool(&mut self) -> (r: bool)
        ensures
            final(self)@ == lcg_next(old(self)@),
            r == (top_bits(final(self)@, 1) != 0),
    {
        self.next(1) != 0
    }

    /// The 53 random bits of `nextDouble`, before they are scaled into `[0, 1)`.
    pub fn next_double_bits(&mut self) -> (r: i64)
        ensures
            final(self)@ == lcg_next(lcg_next(old(self)@)),
            r == double_bits_from_halves(top_bits(lcg_next(old(self)@), 26), top_bits(final(self)@, 27)),
            0 <= r < 0x20_0000_0000_0000,
    {
        let hi = self.next(26);
        let lo = self.next(27);
        proof {
            lemma_top_bits_range(lcg_next(old(self)@), 26);
            lemma_top_bits_range(self@, 27);
            vstd::arithmetic::power2::lemma2_to64();
        }
        let r = (hi << 27u32) | lo;
        assert(r == hi * 0x800_0000 + lo) by (bit_vector)
            requires
                0 <= hi < 0x400_0000,
                0 <= lo < 0x800_0000,
                r == (hi << 27u32) | lo,
        ;
        r
    }

    pub fn get_seed(&self) -> (r: i64)
        ensures
            r == self@,
    {
        proof {
            use_type_invariant(self);
        }
        self.seed
    }

    /// The state is always a 48-bit value.
    pub proof fn lemma_state(&self)
        ensures
            is_state(self@),
    {
        vstd::arithmetic::div_mod::lemma_mod_bound(self.seed as int, modulus());
    }

    pub fn set_seed(&mut self, seed: i64)
        ensures
            final(self)@ == initial_state(seed),
    {
        *self = JavaRand::new(seed);
    }
}

} // verus!
