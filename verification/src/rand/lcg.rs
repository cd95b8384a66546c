//! The 48-bit linear congruential generator behind `java.util.Random`, as a
//! mathematical model, and the facts about it that the generators' contracts use.
use vstd::arithmetic::div_mod::*;
use vstd::arithmetic::power2::*;
use vstd::prelude::*;

verus! {

/// The multiplier of the generator.
pub const MULTIPLIER: u64 = 0x5DEECE66D;

/// The increment of the generator.
pub const ADDEND: u64 = 0xB;

/// The mask that keeps the low 48 bits of a state.
pub const MASK: u64 = 0xFFFF_FFFF_FFFF;

/// Number of distinct states, `2^48`.
pub open spec fn modulus() -> int {
    0x1_0000_0000_0000
}

/// Half of the state space, `2^47`: a state below it has its top bit clear.
pub open spec fn half_modulus() -> int {
    0x8000_0000_0000
}

/// One step of the generator: `(s * MULTIPLIER + ADDEND) mod 2^48`.
pub open spec fn lcg_next(s: int) -> int {
    (s * 0x5DEECE66D + 0xB) % modulus()
}

/// The state reached from `s` after `n` steps.
pub open spec fn iterate(s: int, n: nat) -> int
    decreases n,
{
    if n == 0 {
        s
    } else {
        iterate(lcg_next(s), (n - 1) as nat)
    }
}

/// A valid state: a 48-bit value.
pub open spec fn is_state(s: int) -> bool {
    0 <= s < modulus()
}

/// The top `bits` bits of the 48-bit state `s`.
pub open spec fn top_bits(s: int, bits: nat) -> int
    recommends
        bits <= 48,
{
    s / pow2((48 - bits) as nat) as int
}


/// The top `bits` bits of a state lie in `[0, 2^bits)`.
pub proof fn lemma_top_bits_range(s: int, bits: nat)
    requires
        is_state(s),
        bits <= 48,
    ensures
        0 <= top_bits(s, bits) < pow2(bits),
{
    let low = (48 - bits) as nat;
    lemma_pow2_pos(low);
    lemma_pow2_adds(low, bits);
    lemma2_to64_rest();
    assert(pow2(48) == modulus()) by {
        lemma2_to64();
        assert(pow2(48) == 0x1_0000_0000_0000);
    }
    assert(low + bits == 48);
    lemma_div_pos_is_pos(s, pow2(low) as int);
    vstd::arithmetic::mul::lemma_mul_is_commutative(pow2(low) as int, pow2(bits) as int);
    lemma_multiply_divide_lt(s, pow2(low) as int, pow2(bits) as int);
}

/// The affine map `s -> (a * s + c) mod 2^48` that `2^j` steps amount to.
spec fn coefficients(j: nat) -> (int, int)
    decreases j,
{
    if j == 0 {
        (0x5DEECE66D, 0xB)
    } else {
        let p = coefficients((j - 1) as nat);
        ((p.0 * p.0) % modulus(), ((p.0 + 1) * p.1) % modulus())
    }
}

pub proof fn lemma_lcg_next_is_state(s: int)
    ensures
        is_state(lcg_next(s)),
{
    lemma_mod_bound(s * 0x5DEECE66D + 0xB, modulus());
}

pub proof fn lemma_iterate_is_state(s: int, n: nat)
    requires
        is_state(s),
    ensures
        is_state(iterate(s, n)),
    decreases n,
{
    if n > 0 {
        lemma_lcg_next_is_state(s);
        lemma_iterate_is_state(lcg_next(s), (n - 1) as nat);
    }
}

/// Running `n + m` steps is running `n` steps and then `m` more.
pub proof fn lemma_iterate_add(s: int, n: nat, m: nat)
    ensures
        iterate(s, n + m) == iterate(iterate(s, n), m),
    decreases n,
{
    if n > 0 {
        lemma_iterate_add(lcg_next(s), (n - 1) as nat, m);
        assert(iterate(s, n + m) == iterate(lcg_next(s), (n - 1 + m) as nat));
    }
}

/// One more step at the end.
pub proof fn lemma_iterate_succ(s: int, n: nat)
    ensures
        iterate(s, n + 1) == lcg_next(iterate(s, n)),
{
    lemma_iterate_add(s, n, 1);
    reveal_with_fuel(iterate, 2);
}

proof fn lemma_affine_square(a: int, c: int, s: int)
    ensures
        (a * ((a * s + c) % modulus()) + c) % modulus() == (((a * a) % modulus()) * s + ((a + 1) * c)
            % modulus()) % modulus(),
{
    let p = modulus();
    let t = a * s + c;
    lemma_mul_mod_noop_right(a, t, p);
    lemma_add_mod_noop(a * (t % p), c, p);
    lemma_add_mod_noop(a * t, c, p);
    assert(a * t + c == (a * a) * s + (a + 1) * c) by (nonlinear_arith)
        requires
            t == a * s + c,
    ;
    lemma_mul_mod_noop_left(a * a, s, p);
    lemma_add_mod_noop(((a * a) % p) * s, (a + 1) * c, p);
    lemma_add_mod_noop((a * a) * s, (a + 1) * c, p);
    lemma_mod_twice((a + 1) * c, p);
    lemma_add_mod_noop(((a * a) % p) * s, ((a + 1) * c) % p, p);
    lemma_mod_twice(((a * a) % p) * s, p);
}

/// `2^j` steps are the affine map given by `coefficients(j)`.
proof fn lemma_iterate_pow2(s: int, j: nat)
    ensures
        iterate(s, pow2(j)) == (coefficients(j).0 * s + coefficients(j).1) % modulus(),
    decreases j,
{
    if j == 0 {
        lemma2_to64();
        reveal_with_fuel(iterate, 2);
    } else {
        let n = pow2((j - 1) as nat);
        lemma_pow2_unfold(j);
        lemma_iterate_add(s, n, n);
        lemma_iterate_pow2(s, (j - 1) as nat);
        let t = iterate(s, n);
        lemma_iterate_pow2(t, (j - 1) as nat);
        let p = coefficients((j - 1) as nat);
        lemma_affine_square(p.0, p.1, s);
        assert(n + n == pow2(j));
    }
}

proof fn lemma_coefficients_step(j: nat, a: int, c: int, a2: int, c2: int)
    requires
        j > 0,
        coefficients((j - 1) as nat) == (a, c),
        (a * a) % modulus() == a2,
        ((a + 1) * c) % modulus() == c2,
    ensures
        coefficients(j) == (a2, c2),
{
}

proof fn lemma_coefficients_values()
    ensures
        coefficients(47) == (1int, 0x8000_0000_0000int),
{
    assert(coefficients(0) == (0x5DEECE66Dint, 0xBint));
    lemma_coefficients_step(1, 0x5deece66d, 0xb, 0xbb20b4600a69, 0x40942de6ba);
    lemma_coefficients_step(2, 0xbb20b4600a69, 0x40942de6ba, 0x32eb772c5f11, 0x2d3873c4cd04);
    lemma_coefficients_step(3, 0x32eb772c5f11, 0x2d3873c4cd04, 0x75489f259f21, 0x7cba449ae648);
    lemma_coefficients_step(4, 0x75489f259f21, 0x7cba449ae648, 0x6dc260740241, 0xd0352014d90);
    lemma_coefficients_step(5, 0x6dc260740241, 0xd0352014d90, 0xfac6caed1481, 0x1e4c4c311f20);
    lemma_coefficients_step(6, 0xfac6caed1481, 0x1e4c4c311f20, 0xab768c7e6901, 0xf77b98004e40);
    lemma_coefficients_step(7, 0xab768c7e6901, 0xf77b98004e40, 0xa430a00dd201, 0x6cc0d398dc80);
    lemma_coefficients_step(8, 0xa430a00dd201, 0x6cc0d398dc80, 0x4fa0405fa401, 0xa7a83e92b900);
    lemma_coefficients_step(9, 0x4fa0405fa401, 0xa7a83e92b900, 0x94fba1cf4801, 0x9e1922a97200);
    lemma_coefficients_step(10, 0x94fba1cf4801, 0x9e1922a97200, 0xba5cc7de9001, 0xaba71b62e400);
    lemma_coefficients_step(11, 0xba5cc7de9001, 0xaba71b62e400, 0xba17a0bd2001, 0xe5b38f05c800);
    lemma_coefficients_step(12, 0xba17a0bd2001, 0xe5b38f05c800, 0x27e7857a4001, 0x698c7f0b9000);
    lemma_coefficients_step(13, 0x27e7857a4001, 0x698c7f0b9000, 0x10b01af48001, 0x702e82172000);
    lemma_coefficients_step(14, 0x10b01af48001, 0x702e82172000, 0xb4e475e90001, 0x78b3142e4000);
    lemma_coefficients_step(15, 0xb4e475e90001, 0x78b3142e4000, 0x37d9ebd20001, 0x72be685c8000);
    lemma_coefficients_step(16, 0x37d9ebd20001, 0x72be685c8000, 0xa7f7d7a40001, 0xeaddd0b90000);
    lemma_coefficients_step(17, 0xa7f7d7a40001, 0xeaddd0b90000, 0x30ffaf480001, 0xeb3fa1720000);
    lemma_coefficients_step(18, 0x30ffaf480001, 0xeb3fa1720000, 0xe63f5e900001, 0x2c8f42e40000);
    lemma_coefficients_step(19, 0xe63f5e900001, 0x2c8f42e40000, 0xdd7ebd200001, 0xb15e85c80000);
    lemma_coefficients_step(20, 0xdd7ebd200001, 0xb15e85c80000, 0xfefd7a400001, 0xc3bd0b900000);
    lemma_coefficients_step(21, 0xfefd7a400001, 0xc3bd0b900000, 0xdfaf4800001, 0xb7a17200000);
    lemma_coefficients_step(22, 0xdfaf4800001, 0xb7a17200000, 0x5bf5e9000001, 0x26f42e400000);
    lemma_coefficients_step(23, 0x5bf5e9000001, 0x26f42e400000, 0xb7ebd2000001, 0x8de85c800000);
    lemma_coefficients_step(24, 0xb7ebd2000001, 0x8de85c800000, 0x6fd7a4000001, 0x1bd0b9000000);
    lemma_coefficients_step(25, 0x6fd7a4000001, 0x1bd0b9000000, 0xdfaf48000001, 0x37a172000000);
    lemma_coefficients_step(26, 0xdfaf48000001, 0x37a172000000, 0xbf5e90000001, 0x6f42e4000000);
    lemma_coefficients_step(27, 0xbf5e90000001, 0x6f42e4000000, 0x7ebd20000001, 0xde85c8000000);
    lemma_coefficients_step(28, 0x7ebd20000001, 0xde85c8000000, 0xfd7a40000001, 0xbd0b90000000);
    lemma_coefficients_step(29, 0xfd7a40000001, 0xbd0b90000000, 0xfaf480000001, 0x7a1720000000);
    lemma_coefficients_step(30, 0xfaf480000001, 0x7a1720000000, 0xf5e900000001, 0xf42e40000000);
    lemma_coefficients_step(31, 0xf5e900000001, 0xf42e40000000, 0xebd200000001, 0xe85c80000000);
    lemma_coefficients_step(32, 0xebd200000001, 0xe85c80000000, 0xd7a400000001, 0xd0b900000000);
    lemma_coefficients_step(33, 0xd7a400000001, 0xd0b900000000, 0xaf4800000001, 0xa17200000000);
    lemma_coefficients_step(34, 0xaf4800000001, 0xa17200000000, 0x5e9000000001, 0x42e400000000);
    lemma_coefficients_step(35, 0x5e9000000001, 0x42e400000000, 0xbd2000000001, 0x85c800000000);
    lemma_coefficients_step(36, 0xbd2000000001, 0x85c800000000, 0x7a4000000001, 0xb9000000000);
    lemma_coefficients_step(37, 0x7a4000000001, 0xb9000000000, 0xf48000000001, 0x172000000000);
    lemma_coefficients_step(38, 0xf48000000001, 0x172000000000, 0xe90000000001, 0x2e4000000000);
    lemma_coefficients_step(39, 0xe90000000001, 0x2e4000000000, 0xd20000000001, 0x5c8000000000);
    lemma_coefficients_step(40, 0xd20000000001, 0x5c8000000000, 0xa40000000001, 0xb90000000000);
    lemma_coefficients_step(41, 0xa40000000001, 0xb90000000000, 0x480000000001, 0x720000000000);
    lemma_coefficients_step(42, 0x480000000001, 0x720000000000, 0x900000000001, 0xe40000000000);
    lemma_coefficients_step(43, 0x900000000001, 0xe40000000000, 0x200000000001, 0xc80000000000);
    lemma_coefficients_step(44, 0x200000000001, 0xc80000000000, 0x400000000001, 0x900000000000);
    lemma_coefficients_step(45, 0x400000000001, 0x900000000000, 0x800000000001, 0x200000000000);
    lemma_coefficients_step(46, 0x800000000001, 0x200000000000, 0x1, 0x400000000000);
    lemma_coefficients_step(47, 0x1, 0x400000000000, 0x1, 0x800000000000);
}

/// After `2^47` steps the state has moved by exactly `2^47` (mod `2^48`): the top bit
/// of the state is flipped and the other bits are back where they were.
pub proof fn lemma_half_period(s: int)
    requires
        is_state(s),
    ensures
        iterate(s, pow2(47)) == (s + half_modulus()) % modulus(),
{
    lemma_iterate_pow2(s, 47);
    lemma_coefficients_values();
}

/// From any state, the generator reaches a state with its top bit clear within
/// `2^47 + 1` steps: some `k <= 2^47` has `iterate(s, k + 1) < 2^47`.
pub proof fn lemma_low_state_reached(s: int) -> (k: nat)
    requires
        is_state(s),
    ensures
        k <= pow2(47),
        iterate(s, k + 1) < half_modulus(),
{
    let s1 = lcg_next(s);
    lemma_lcg_next_is_state(s);
    reveal_with_fuel(iterate, 2);
    assert(iterate(s, 1) == s1);
    if s1 < half_modulus() {
        0
    } else {
        lemma_half_period(s1);
        lemma_iterate_add(s, 1, pow2(47));
        lemma2_to64_rest();
        assert(iterate(s, pow2(47) + 1) == iterate(s, 1 + pow2(47)));
        pow2(47)
    }
}

/// `b` is a power of two.
pub open spec fn is_power_of_two(b: int) -> bool {
    exists|k: nat| b == #[trigger] pow2(k)
}

/// The positive powers of two below `2^31`, listed.
pub proof fn lemma_power_of_two_cases(b: int)
    requires
        0 < b < 0x8000_0000,
    ensures
        is_power_of_two(b) <==> (b == 0x1 || b == 0x2 || b == 0x4 || b == 0x8 || b == 0x10 || b == 0x20 || b == 0x40 || b == 0x80 || b == 0x100 || b == 0x200 || b == 0x400 || b == 0x800 || b == 0x1000 || b == 0x2000 || b == 0x4000 || b == 0x8000 || b == 0x10000 || b == 0x20000 || b == 0x40000 || b == 0x80000 || b == 0x100000 || b == 0x200000 || b == 0x400000 || b == 0x800000 || b == 0x1000000 || b == 0x2000000 || b == 0x4000000 || b == 0x8000000 || b == 0x10000000 || b == 0x20000000 || b == 0x40000000),
{
    lemma2_to64();
    if b == 0x1 || b == 0x2 || b == 0x4 || b == 0x8 || b == 0x10 || b == 0x20 || b == 0x40 || b == 0x80 || b == 0x100 || b == 0x200 || b == 0x400 || b == 0x800 || b == 0x1000 || b == 0x2000 || b == 0x4000 || b == 0x8000 || b == 0x10000 || b == 0x20000 || b == 0x40000 || b == 0x80000 || b == 0x100000 || b == 0x200000 || b == 0x400000 || b == 0x800000 || b == 0x1000000 || b == 0x2000000 || b == 0x4000000 || b == 0x8000000 || b == 0x10000000 || b == 0x20000000 || b == 0x40000000 {
        if b == 0x1 {
            assert(b == pow2(0));
        } else if b == 0x2 {
            assert(b == pow2(1));
        } else if b == 0x4 {
            assert(b == pow2(2));
        } else if b == 0x8 {
            assert(b == pow2(3));
        } else if b == 0x10 {
            assert(b == pow2(4));
        } else if b == 0x20 {
            assert(b == pow2(5));
        } else if b == 0x40 {
            assert(b == pow2(6));
        } else if b == 0x80 {
            assert(b == pow2(7));
        } else if b == 0x100 {
            assert(b == pow2(8));
        } else if b == 0x200 {
            assert(b == pow2(9));
        } else if b == 0x400 {
            assert(b == pow2(10));
        } else if b == 0x800 {
            assert(b == pow2(11));
        } else if b == 0x1000 {
            assert(b == pow2(12));
        } else if b == 0x2000 {
            assert(b == pow2(13));
        } else if b == 0x4000 {
            assert(b == pow2(14));
        } else if b == 0x8000 {
            assert(b == pow2(15));
        } else if b == 0x10000 {
            assert(b == pow2(16));
        } else if b == 0x20000 {
            assert(b == pow2(17));
        } else if b == 0x40000 {
            assert(b == pow2(18));
        } else if b == 0x80000 {
            assert(b == pow2(19));
        } else if b == 0x100000 {
            assert(b == pow2(20));
        } else if b == 0x200000 {
            assert(b == pow2(21));
        } else if b == 0x400000 {
            assert(b == pow2(22));
        } else if b == 0x800000 {
            assert(b == pow2(23));
        } else if b == 0x1000000 {
            assert(b == pow2(24));
        } else if b == 0x2000000 {
            assert(b == pow2(25));
        } else if b == 0x4000000 {
            assert(b == pow2(26));
        } else if b == 0x8000000 {
            assert(b == pow2(27));
        } else if b == 0x10000000 {
            assert(b == pow2(28));
        } else if b == 0x20000000 {
            assert(b == pow2(29));
        } else if b == 0x40000000 {
            assert(b == pow2(30));
        }
    }
    if is_power_of_two(b) {
        let k = choose|k: nat| b == #[trigger] pow2(k);
        if k >= 31 {
            if k > 31 {
                lemma_pow2_strictly_increases(31, k);
            }
        }
        if k == 0 {
            assert(b == 0x1);
        } else if k == 1 {
            assert(b == 0x2);
        } else if k == 2 {
            assert(b == 0x4);
        } else if k == 3 {
            assert(b == 0x8);
        } else if k == 4 {
            assert(b == 0x10);
        } else if k == 5 {
            assert(b == 0x20);
        } else if k == 6 {
            assert(b == 0x40);
        } else if k == 7 {
            assert(b == 0x80);
        } else if k == 8 {
            assert(b == 0x100);
        } else if k == 9 {
            assert(b == 0x200);
        } else if k == 10 {
            assert(b == 0x400);
        } else if k == 11 {
            assert(b == 0x800);
        } else if k == 12 {
            assert(b == 0x1000);
        } else if k == 13 {
            assert(b == 0x2000);
        } else if k == 14 {
            assert(b == 0x4000);
        } else if k == 15 {
            assert(b == 0x8000);
        } else if k == 16 {
            assert(b == 0x10000);
        } else if k == 17 {
            assert(b == 0x20000);
        } else if k == 18 {
            assert(b == 0x40000);
        } else if k == 19 {
            assert(b == 0x80000);
        } else if k == 20 {
            assert(b == 0x100000);
        } else if k == 21 {
            assert(b == 0x200000);
        } else if k == 22 {
            assert(b == 0x400000);
        } else if k == 23 {
            assert(b == 0x800000);
        } else if k == 24 {
            assert(b == 0x1000000);
        } else if k == 25 {
            assert(b == 0x2000000);
        } else if k == 26 {
            assert(b == 0x4000000);
        } else if k == 27 {
            assert(b == 0x8000000);
        } else if k == 28 {
            assert(b == 0x10000000);
        } else if k == 29 {
            assert(b == 0x20000000);
        } else if k == 30 {
            assert(b == 0x40000000);
        }
    }
}

/// The single-bit test on a positive `u32` below `2^31` is the power-of-two test.
pub proof fn lemma_u32_single_bit(b: u32)
    requires
        0 < b < 0x8000_0000,
    ensures
        (b & ((b - 1) as u32) == 0) <==> is_power_of_two(b as int),
{
    lemma_power_of_two_cases(b as int);
    assert((b & ((b - 1) as u32) == 0) <==> (b == 0x1 || b == 0x2 || b == 0x4 || b == 0x8 || b == 0x10 || b == 0x20 || b == 0x40 || b == 0x80 || b == 0x100 || b == 0x200 || b == 0x400 || b == 0x800 || b == 0x1000 || b == 0x2000 || b == 0x4000 || b == 0x8000 || b == 0x10000 || b == 0x20000 || b == 0x40000 || b == 0x80000 || b == 0x100000 || b == 0x200000 || b == 0x400000 || b == 0x800000 || b == 0x1000000 || b == 0x2000000 || b == 0x4000000 || b == 0x8000000 || b == 0x10000000 || b == 0x20000000 || b == 0x40000000)) by (bit_vector)
        requires
            0 < b < 0x8000_0000,
    ;
}

/// The lowest-set-bit test on a positive `i32` is the power-of-two test.
pub proof fn lemma_i32_lowest_bit(b: i32)
    requires
        0 < b,
    ensures
        (b & ((-b) as i32) == b) <==> is_power_of_two(b as int),
{
    lemma_power_of_two_cases(b as int);
    assert((b & ((-b) as i32) == b) <==> (b == 0x1 || b == 0x2 || b == 0x4 || b == 0x8 || b == 0x10 || b == 0x20 || b == 0x40 || b == 0x80 || b == 0x100 || b == 0x200 || b == 0x400 || b == 0x800 || b == 0x1000 || b == 0x2000 || b == 0x4000 || b == 0x8000 || b == 0x10000 || b == 0x20000 || b == 0x40000 || b == 0x80000 || b == 0x100000 || b == 0x200000 || b == 0x400000 || b == 0x800000 || b == 0x1000000 || b == 0x2000000 || b == 0x4000000 || b == 0x8000000 || b == 0x10000000 || b == 0x20000000 || b == 0x40000000)) by (bit_vector)
        requires
            0 < b,
    ;
}

/// A draw of 31 bits from state `s` is accepted by the rejection test of a bounded
/// draw with bound `bound`: the multiple of `bound` below the drawn value leaves room
/// for a full period of `bound` under `2^31`.
pub open spec fn accepts(s: int, bound: int) -> bool {
    let bits = top_bits(s, 31);
    bits - bits % bound + (bound - 1) <= 0x7fff_ffff
}

/// Number of rejected draws before the first accepted one, starting from state `s`.
pub open spec fn rejections(s: int, bound: int) -> nat {
    choose|n: nat| first_acceptance(s, bound, n)
}

/// `n` draws from `s` are rejected and the next one is accepted.
pub open spec fn first_acceptance(s: int, bound: int, n: nat) -> bool {
    &&& accepts(iterate(s, n + 1), bound)
    &&& forall|m: nat| m < n ==> !accepts(#[trigger] iterate(s, m + 1), bound)
}

/// State after, and value of, a draw in `[0, bound)` from state `s`: a power-of-two
/// bound scales the top 31 bits of one step; any other bound takes the first accepted
/// 31-bit draw modulo `bound`.
#[verifier::opaque]
pub open spec fn bounded_draw(s: int, bound: int) -> (int, int) {
    if is_power_of_two(bound) {
        let s1 = lcg_next(s);
        (s1, (bound * top_bits(s1, 31)) / 0x8000_0000)
    } else {
        let s1 = iterate(s, rejections(s, bound) + 1);
        (s1, top_bits(s1, 31) % bound)
    }
}

/// A state with its top bit clear is always accepted.
pub proof fn lemma_low_state_accepted(s: int, bound: int)
    requires
        0 <= s < half_modulus(),
        0 < bound <= 0x7fff_ffff,
    ensures
        accepts(s, bound),
{
    lemma2_to64();
    lemma2_to64_rest();
    let bits = top_bits(s, 31);
    assert(pow2(17) == 0x20000);
    assert(bits == s / 0x20000);
    assert(bits < 0x4000_0000);
    lemma_mod_bound(bits, bound);
    if bits < bound {
        lemma_small_mod(bits as nat, bound as nat);
    } else {
        assert(bits % bound <= bits) by {
            lemma_mod_bound(bits, bound);
        }
    }
}

/// Two runs that both stop at the first acceptance stop after the same number of draws.
pub proof fn lemma_first_acceptance_unique(s: int, bound: int, n: nat)
    requires
        first_acceptance(s, bound, n),
    ensures
        rejections(s, bound) == n,
{
    let r = rejections(s, bound);
    assert(first_acceptance(s, bound, r));
    if r < n {
        assert(!accepts(iterate(s, r + 1), bound));
    }
    if n < r {
        assert(!accepts(iterate(s, n + 1), bound));
    }
}

/// The value of a bounded draw lies in `[0, bound)`.
pub proof fn lemma_bounded_draw_range(s: int, bound: int)
    requires
        is_state(s),
        0 < bound <= 0x7fff_ffff,
    ensures
        is_state(bounded_draw(s, bound).0),
        0 <= bounded_draw(s, bound).1 < bound,
{
    reveal(bounded_draw);
    lemma2_to64();
    lemma2_to64_rest();
    if is_power_of_two(bound) {
        let s1 = lcg_next(s);
        lemma_lcg_next_is_state(s);
        let t = top_bits(s1, 31);
        lemma_top_bits_range(s1, 31);
        assert(0 <= t < 0x8000_0000);
        assert(0 <= bound * t < bound * 0x8000_0000) by (nonlinear_arith)
            requires
                0 <= t < 0x8000_0000,
                0 < bound,
        ;
        assert(0 <= (bound * t) / 0x8000_0000 < bound) by (nonlinear_arith)
            requires
                0 <= bound * t < bound * 0x8000_0000,
        ;
    } else {
        lemma_iterate_is_state(s, rejections(s, bound) + 1);
        lemma_mod_bound(top_bits(iterate(s, rejections(s, bound) + 1), 31), bound);
    }
}

} // verus!
