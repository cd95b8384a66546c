//! `java.util.Random`, with draws chosen by the type they produce.
use crate::rand::lcg::{modulus, MASK, MULTIPLIER, is_state, lcg_next, lemma_top_bits_range, top_bits};
use vstd::arithmetic::power2::*;
use vstd::bits::lemma_u64_shr_is_div;
use vstd::prelude::*;

verus! {

/// The state after seeding with `seed`: the seed scrambled with the multiplier and
/// cut to 48 bits.
pub open spec fn initial_state(seed: i64) -> int {
    ((seed ^ 0x5DEECE66Di64) & 0xFFFF_FFFF_FFFFi64) as int
}

/// A `java.util.Random`: a 48-bit state stepped by the linear congruential generator
/// of `lcg`. Its view is the state.
#[derive(Debug)]
pub struct JavaRand(i64);

impl View for JavaRand {
    type V = int;

    closed spec fn view(&self) -> int {
        self.0 as int % modulus()
    }
}

impl Clone for JavaRand {
    fn clone(&self) -> (r: Self)
        ensures
            r@ == self@,
    {
        proof {
            use_type_invariant(self);
        }
        JavaRand(self.0)
    }
}

impl JavaRand {
    #[verifier::type_invariant]
    pub(crate) closed spec fn state_in_range(&self) -> bool {
        0 <= self.0 < 0x1_0000_0000_0000
    }

    /// The state is always a 48-bit value.
    pub proof fn lemma_state(&self)
        ensures
            is_state(self@),
    {
        vstd::arithmetic::div_mod::lemma_mod_bound(self.0 as int, modulus());
    }

    pub fn new(seed: i64) -> (r: Self)
        ensures
            r@ == initial_state(seed),
            is_state(r@),
    {
        let s = (seed ^ (MULTIPLIER as i64)) & (MASK as i64);
        assert(0 <= s < 0x1_0000_0000_0000) by (bit_vector)
            requires
                s == (seed ^ 0x5DEECE66Di64) & 0xFFFF_FFFF_FFFFi64,
        ;
        JavaRand(s)
    }

    pub fn get_seed(&self) -> (r: i64)
        ensures
            r == self@,
            is_state(r as int),
    {
        proof {
            use_type_invariant(self);
        }
        self.0
    }

    pub fn set_seed(&mut self, seed: i64)
        ensures
            final(self)@ == initial_state(seed),
    {
        *self = JavaRand::new(seed);
    }

    /// Steps the generator and returns the top `N` bits of the new state.
    pub fn bits<const N: usize>(&mut self) -> (r: i64)
        requires
            N <= 48,
        ensures
            final(self)@ == lcg_next(old(self)@),
            r == top_bits(final(self)@, N as nat),
            is_state(final(self)@),
    {
        proof {
            use_type_invariant(&*self);
        }
        let next: u128 = ((self.0 as u128) * 0x5DEECE66Du128 + 0xBu128) % 0x1_0000_0000_0000u128;
        self.0 = next as i64;
        let shift: u64 = (48 - N) as u64;
        proof {
            lemma_u64_shr_is_div(next as u64, shift);
            lemma_top_bits_range(next as int, N as nat);
        }
        ((next as u64) >> shift) as i64
    }

    pub fn random<T>(&mut self) -> (r: T) where T: JavaRandType, <T as JavaRandType>::Extra: Default
        ensures
            (final(self)@, r) == T::draw_default(old(self)@),
    {
        T::random(self)
    }

    pub fn random_with<T>(&mut self, extra: T::Extra) -> (r: T) where T: JavaRandType
        ensures
            (final(self)@, r) == T::draw(old(self)@, extra),
    {
        T::random_with(self, extra)
    }
}

/// A type that can be drawn from a `JavaRand`, in the way `java.util.Random` draws it.
pub trait JavaRandType: Sized {
    /// What a draw is parameterised by (a bound, or nothing).
    type Extra;

    /// The state after a draw from state `state` with parameter `extra`, and the value.
    spec fn draw(state: int, extra: Self::Extra) -> (int, Self);

    /// The state after a draw with the default parameter, and the value.
    spec fn draw_default(state: int) -> (int, Self);

    fn random_with(rand: &mut JavaRand, p: Self::Extra) -> (r: Self)
        ensures
            (final(rand)@, r) == Self::draw(old(rand)@, p),
    ;

    fn random(rand: &mut JavaRand) -> (r: Self) where Self::Extra: Default
        ensures
            (final(rand)@, r) == Self::draw_default(old(rand)@),
    ;
}

} // verus!
