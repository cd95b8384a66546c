//! Draws of `bool`, `i32` and `i64` from a `JavaRand`, as `java.util.Random`'s
//! `nextBoolean`, `nextInt`, `nextInt(bound)` and `nextLong`, and the integers behind
//! its `nextFloat` and `nextDouble`.
use crate::rand::java::{JavaRand, JavaRandType};
use crate::rand::lcg::{accepts, bounded_draw, first_acceptance, half_modulus, is_power_of_two, is_state, iterate, lcg_next, lemma_bounded_draw_range, lemma_first_acceptance_unique, lemma_iterate_succ, lemma_low_state_accepted, lemma_low_state_reached, lemma_top_bits_range, lemma_u32_single_bit, top_bits};
use vstd::prelude::*;

verus! {

impl JavaRandType for bool {
    type Extra = ();

    open spec fn draw(state: int, extra: ()) -> (int, bool) {
        let s1 = lcg_next(state);
        (s1, top_bits(s1, 1) != 0)
    }

    open spec fn draw_default(state: int) -> (int, bool) {
        Self::draw(state, ())
    }

    fn random_with(rand: &mut JavaRand, p: ()) -> (r: bool) {
        rand.bits::<1>() != 0
    }

    fn random(rand: &mut JavaRand) -> (r: bool) {
        Self::random_with(rand, ())
    }
}

/// The bound of an `i32` draw: a positive bound, or none for a draw over all of `i32`.
pub struct Bound(Option<u32>);

impl View for Bound {
    type V = Option<int>;

    closed spec fn view(&self) -> Option<int> {
        match self.0 {
            Some(b) => Some(b as int),
            None => None,
        }
    }
}

impl Bound {
    #[verifier::type_invariant]
    spec fn positive_i32(&self) -> bool {
        match self.0 {
            Some(b) => 0 < b <= 0x7fff_ffff,
            None => true,
        }
    }

    /// A positive `n` bounds the draw to `[0, n)`; any other `n` leaves it unbounded.
    pub fn new(n: i32) -> (r: Self)
        ensures
            r@ == (if n > 0 { Some(n as int) } else { None::<int> }),
    {
        if n > 0 {
            Bound(Some(n as u32))
        } else {
            Bound(None)
        }
    }
}

impl Default for Bound {
    fn default() -> (r: Self)
        ensures
            r@ == None::<int>,
    {
        Bound(None)
    }
}

/// State after, and value of, an `i32` draw from `state` with bound `bound`.
pub open spec fn i32_draw(state: int, bound: Option<int>) -> (int, i32) {
    match bound {
        None => {
            let s1 = lcg_next(state);
            (s1, top_bits(s1, 32) as i32)
        },
        Some(b) => {
            let d = bounded_draw(state, b);
            (d.0, d.1 as i32)
        },
    }
}

impl JavaRandType for i32 {
    type Extra = Bound;

    open spec fn draw(state: int, extra: Bound) -> (int, i32) {
        i32_draw(state, extra@)
    }

    open spec fn draw_default(state: int) -> (int, i32) {
        i32_draw(state, None)
    }

    fn random_with(rand: &mut JavaRand, extra: Bound) -> (r: i32) {
        proof {
            use_type_invariant(&extra);
        }
        match extra.0 {
            None => rand.bits::<32>() as i32,
            Some(b) => {
                proof {
                    lemma_u32_single_bit(b);
                }
                if b & (b - 1) == 0 {
                    draw_power_of_two(rand, b)
                } else {
                    draw_with_rejection(rand, b)
                }
            },
        }
    }

    fn random(rand: &mut JavaRand) -> (r: i32) {
        Self::random_with(rand, Bound::default())
    }
}

/// Drawing in `[0, bound)` from a generator gives a value in `[0, bound)`.
pub proof fn lemma_draw_range(rand: JavaRand, bound: int)
    requires
        0 < bound <= 0x7fff_ffff,
    ensures
        0 <= i32_draw(rand@, Some(bound)).1 < bound,
        is_state(i32_draw(rand@, Some(bound)).0),
{
    rand.lemma_state();
    lemma_bounded_draw_range(rand@, bound);
}

/// A draw in `[0, b)` for a power-of-two bound: the top 31 bits of one step, scaled.
fn draw_power_of_two(rand: &mut JavaRand, b: u32) -> (r: i32)
    requires
        0 < b <= 0x7fff_ffff,
        is_power_of_two(b as int),
    ensures
        (final(rand)@, r as int) == bounded_draw(old(rand)@, b as int),
{
    let bits = rand.bits::<31>();
    proof {
        rand.lemma_state();
        lemma_top_bits_range(rand@, 31);
        vstd::arithmetic::power2::lemma2_to64();
        assert(0 <= (b as int) * (bits as int) < 0x8000_0000 * 0x8000_0000) by (nonlinear_arith)
            requires
                0 < b < 0x8000_0000,
                0 <= bits < 0x8000_0000,
        ;
        assert(0 <= ((b as int) * (bits as int)) / 0x8000_0000 < b) by (nonlinear_arith)
            requires
                0 < b < 0x8000_0000,
                0 <= bits < 0x8000_0000,
        ;
        reveal(bounded_draw);
    }
    let product: u64 = (b as u64) * (bits as u64);
    proof {
        vstd::bits::lemma_u64_shr_is_div(product, 31);
    }
    (product >> 31u64) as i32
}

/// A draw in `[0, b)` for a bound that is not a power of two: 31-bit draws are taken
/// until one is accepted, and its remainder modulo `b` is the value. The loop ends
/// because the generator reaches a state with its top bit clear within `2^47 + 1`
/// steps, and such a state is always accepted.
fn draw_with_rejection(rand: &mut JavaRand, b: u32) -> (r: i32)
    requires
        0 < b <= 0x7fff_ffff,
        !is_power_of_two(b as int),
    ensures
        (final(rand)@, r as int) == bounded_draw(old(rand)@, b as int),
{
    proof {
        rand.lemma_state();
    }
    let ghost s0 = rand@;
    let bound: i32 = b as i32;
    let ghost mut steps: nat = 0;
    let ghost mut k: nat = lemma_low_state_reached(s0);
    loop
        invariant
            0 < bound,
            bound == b,
            !is_power_of_two(b as int),
            is_state(s0),
            s0 == old(rand)@,
            rand@ == iterate(s0, steps),
            forall|m: nat| m < steps ==> !accepts(#[trigger] iterate(s0, m + 1), bound as int),
            iterate(rand@, k + 1) < half_modulus(),
        decreases k,
    {
        let ghost before = rand@;
        let bits = rand.bits::<31>();
        proof {
            lemma_iterate_succ(s0, steps);
            lemma_top_bits_range(rand@, 31);
            vstd::arithmetic::power2::lemma2_to64();
        }
        let val: i64 = ((bits as u64) % (b as u64)) as i64;
        let accepted = bits - val + (bound as i64 - 1) <= 0x7fff_ffff;
        proof {
            lemma_acceptance_test(rand@, bound as int, bits as int, val as int);
        }
        if accepted {
            proof {
                assert(first_acceptance(s0, bound as int, steps));
                lemma_first_acceptance_unique(s0, bound as int, steps);
                reveal(bounded_draw);
                assert(rand@ == iterate(s0, steps + 1));
                assert(val == top_bits(rand@, 31) % (b as int));
                assert(bounded_draw(s0, b as int) == (rand@, val as int));
            }
            return val as i32;
        }
        proof {
            lemma_rejection_step(before, rand@, k, bound as int);
            k = (k - 1) as nat;
            steps = steps + 1;
        }
    }
}

/// The test on the drawn bits and their remainder is `accepts`.
pub(crate) proof fn lemma_acceptance_test(s: int, bound: int, bits: int, val: int)
    requires
        bits == top_bits(s, 31),
        0 < bound,
        val == bits % bound,
    ensures
        (bits - val + (bound - 1) <= 0x7fff_ffff) == accepts(s, bound),
{
}

/// A rejected draw did not start from the state a clear top bit was `k + 1` steps
/// away from, so that state is now `k` steps away.
pub(crate) proof fn lemma_rejection_step(before: int, after: int, k: nat, bound: int)
    requires
        after == lcg_next(before),
        is_state(after),
        0 < bound <= 0x7fff_ffff,
        !accepts(after, bound),
        iterate(before, k + 1) < half_modulus(),
    ensures
        k >= 1,
        iterate(after, (k - 1) as nat + 1) < half_modulus(),
{
    reveal_with_fuel(iterate, 2);
    if k == 0 {
        assert(iterate(before, 1) == after);
        lemma_low_state_accepted(after, bound);
    }
    assert(iterate(before, k + 1) == iterate(after, k));
}

/// The state after drawing, in turn, one value in `[0, b)` for each bound `b` of
/// `bounds`.
pub open spec fn draws_after(s: int, bounds: Seq<int>) -> int
    decreases bounds.len(),
{
    if bounds.len() == 0 {
        s
    } else {
        i32_draw(draws_after(s, bounds.drop_last()), Some(bounds.last())).0
    }
}

/// `pattern` repeated `n` times.
pub open spec fn repeated(pattern: Seq<int>, n: nat) -> Seq<int>
    decreases n,
{
    if n == 0 {
        Seq::empty()
    } else {
        repeated(pattern, (n - 1) as nat) + pattern
    }
}

/// `pattern` repeated `a` times, then `b` times, is `pattern` repeated `a + b` times.
pub proof fn lemma_repeated_add(pattern: Seq<int>, a: nat, b: nat)
    ensures
        repeated(pattern, a) + repeated(pattern, b) == repeated(pattern, a + b),
    decreases b,
{
    if b == 0 {
        assert(repeated(pattern, a) + repeated(pattern, 0) =~= repeated(pattern, a));
    } else {
        lemma_repeated_add(pattern, a, (b - 1) as nat);
        assert(repeated(pattern, a) + repeated(pattern, b) =~= repeated(pattern, a) + repeated(pattern, (b - 1) as nat) + pattern);
        assert((a + b - 1) as nat == a + (b - 1) as nat);
    }
}

/// Drawing `a` then `b` is drawing `a + b`.
pub proof fn lemma_draws_after_concat(s: int, a: Seq<int>, b: Seq<int>)
    ensures
        draws_after(s, a + b) == draws_after(draws_after(s, a), b),
    decreases b.len(),
{
    if b.len() == 0 {
        assert(a + b =~= a);
    } else {
        lemma_draws_after_concat(s, a, b.drop_last());
        assert((a + b).drop_last() =~= a + b.drop_last());
        assert((a + b).last() == b.last());
    }
}

/// Drawing one more bound at the end.
pub proof fn lemma_draws_after_push(s: int, a: Seq<int>, bound: int)
    ensures
        draws_after(s, a.push(bound)) == i32_draw(draws_after(s, a), Some(bound)).0,
{
    assert(a.push(bound).drop_last() =~= a);
}

impl JavaRandType for i64 {
    type Extra = ();

    open spec fn draw(state: int, extra: ()) -> (int, i64) {
        let hi = i32_draw(state, None);
        let lo = i32_draw(hi.0, None);
        (lo.0, vstd::wrapping::i64_specs::wrapping_add((hi.1 as int * 0x1_0000_0000) as i64, lo.1 as i64))
    }

    open spec fn draw_default(state: int) -> (int, i64) {
        Self::draw(state, ())
    }

    fn random_with(rand: &mut JavaRand, p: ()) -> (r: i64) {
        let hi = rand.random::<i32>() as i64;
        let lo = rand.random::<i32>() as i64;
        let shifted = hi << 32u32;
        assert(shifted == hi * 0x1_0000_0000) by (bit_vector)
            requires
                -0x8000_0000 <= hi < 0x8000_0000,
                shifted == hi << 32u32,
        ;
        shifted.wrapping_add(lo)
    }

    fn random(rand: &mut JavaRand) -> (r: i64) {
        Self::random_with(rand, ())
    }
}

/// The 53 bits a `double` draw is made of, from state `s`: 26 high bits, then 27 low
/// bits, and the state after.
#[verifier::opaque]
pub open spec fn double_bits_draw(s: int) -> (int, i64) {
    let s1 = lcg_next(s);
    let s2 = lcg_next(s1);
    (s2, (top_bits(s1, 26) * 0x800_0000 + top_bits(s2, 27)) as i64)
}

/// The 53-bit integer behind a `double` draw in `[0, 1)`: the draw is this over `2^53`.
pub fn double_bits(rand: &mut JavaRand) -> (r: i64)
    ensures
        (final(rand)@, r) == double_bits_draw(old(rand)@),
        0 <= r < 0x20_0000_0000_0000,
{
    reveal(double_bits_draw);
    let hi = rand.bits::<26>();
    proof {
        lemma_top_bits_range(rand@, 26);
        vstd::arithmetic::power2::lemma2_to64();
    }
    let lo = rand.bits::<27>();
    proof {
        lemma_top_bits_range(rand@, 27);
    }
    let shifted = hi << 27u32;
    assert(shifted == hi * 0x800_0000 && (shifted | lo) == shifted + lo) by (bit_vector)
        requires
            0 <= hi < 0x400_0000,
            0 <= lo < 0x800_0000,
            shifted == hi << 27u32,
    ;
    shifted | lo
}

/// The 24-bit integer behind a `float` draw in `[0, 1)`: the draw is this over `2^24`.
pub fn float_bits(rand: &mut JavaRand) -> (r: i32)
    ensures
        final(rand)@ == lcg_next(old(rand)@),
        r == top_bits(final(rand)@, 24),
        0 <= r < 0x100_0000,
{
    let bits = rand.bits::<24>();
    proof {
        lemma_top_bits_range(rand@, 24);
        vstd::arithmetic::power2::lemma2_to64();
    }
    bits as i32
}

} // verus!
