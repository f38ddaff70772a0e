//! The RSA-style generator: one modular exponentiation per output bit.

use crate::utils::{power_mod, safe_power_modulo, NonZeroU32};
use vstd::arithmetic::div_mod::{
    lemma_fundamental_div_mod, lemma_mod_bound, lemma_mod_multiples_basic,
};
use vstd::arithmetic::power::pow;
use vstd::arithmetic::power2::{lemma2_to64, lemma_pow2_unfold, pow2};
use vstd::bits::lemma_u32_shl_is_mul;
use vstd::prelude::*;

verus! {

/// The first prime factor of the modulus.
pub const P: u32 = 58217;

/// The second prime factor of the modulus.
pub const Q: u32 = 31957;

/// The modulus of the generator.
pub const N: u32 = P * Q;

/// Euler's totient of the modulus.
#[verifier::nonlinear]
pub const PHI: u32 = (P - 1) * (Q - 1);

/// The public exponent of the generator: the one that [`compute_e`] selects
/// for [`PHI`], as [`lemma_exponent_is_selected`] shows.
pub const E: u32 = 5;

/// Whether `e` may serve as a public exponent for the totient `phi`: an odd
/// number, at least three, that does not divide `phi`.
pub open spec fn is_candidate(phi: nat, e: nat) -> bool {
    e >= 3 && e % 2 == 1 && phi % e != 0
}

/// Whether `e` is the public exponent for `phi`: the smallest candidate.
pub open spec fn is_public_exponent(phi: nat, e: nat) -> bool {
    &&& is_candidate(phi, e)
    &&& forall|k: nat| k < e ==> !#[trigger] is_candidate(phi, k)
}

/// A totient has at most one public exponent.
pub proof fn lemma_public_exponent_unique(phi: nat, e1: nat, e2: nat)
    requires
        is_public_exponent(phi, e1),
        is_public_exponent(phi, e2),
    ensures
        e1 == e2,
{
}

/// A common multiple of two coprime numbers is a multiple of their product.
/// That `a` and `b` are coprime is shown by the coefficients `u` and `v`.
proof fn lemma_coprime_divisors(n: int, a: int, b: int, u: int, v: int)
    requires
        a > 0,
        b > 0,
        u * a + v * b == 1,
        n % a == 0,
        n % b == 0,
    ensures
        n % (a * b) == 0,
{
    let qa = n / a;
    let qb = n / b;
    lemma_fundamental_div_mod(n, a);
    lemma_fundamental_div_mod(n, b);
    assert(n == (u * qb + v * qa) * (a * b)) by (nonlinear_arith)
        requires
            u * a + v * b == 1,
            n == a * qa,
            n == b * qb,
    ;
    assert(a * b > 0) by (nonlinear_arith)
        requires
            a > 0,
            b > 0,
    ;
    lemma_mod_multiples_basic(u * qb + v * qa, a * b);
}

/// A positive number that every odd number from 3 to 27 divides does not fit
/// in 32 bits: it is a multiple of 27, 25, 23, 19, 17, 13, 11 and 7, which
/// are coprime in pairs, and so of their product.
proof fn lemma_common_multiple_is_large(n: int)
    requires
        n > 0,
        n % 7 == 0,
        n % 11 == 0,
        n % 13 == 0,
        n % 17 == 0,
        n % 19 == 0,
        n % 23 == 0,
        n % 25 == 0,
        n % 27 == 0,
    ensures
        n > u32::MAX,
{
    lemma_coprime_divisors(n, 27, 25, -12, 13);
    lemma_coprime_divisors(n, 675, 23, 3, -88);
    lemma_coprime_divisors(n, 15_525, 19, -9, 7_354);
    lemma_coprime_divisors(n, 294_975, 17, -2, 34_703);
    lemma_coprime_divisors(n, 5_014_575, 13, 2, -771_473);
    lemma_coprime_divisors(n, 65_189_475, 11, -1, 5_926_316);
    lemma_coprime_divisors(n, 717_084_225, 7, 2, -204_881_207);
    assert(n % 5_019_589_575 == 0);
}

/// Selects the public exponent for the totient `phi` by trying 3, 5, 7, ...
/// in turn. The search ends at 27 or before, because no positive 32-bit
/// number is a multiple of every odd number up to 27.
pub fn compute_e(phi: u32) -> (e: u32)
    requires
        phi != 0,
    ensures
        is_public_exponent(phi as nat, e as nat),
        e <= 27,
{
    let mut i: u32 = 3;
    loop
        invariant
            phi != 0,
            3 <= i <= 27,
            i % 2 == 1,
            forall|k: nat| k < i ==> !#[trigger] is_candidate(phi as nat, k),
        decreases 27 - i,
    {
        if phi % i != 0 {
            return i;
        }
        proof {
            if i == 27 {
                assert(!is_candidate(phi as nat, 7));
                assert(!is_candidate(phi as nat, 11));
                assert(!is_candidate(phi as nat, 13));
                assert(!is_candidate(phi as nat, 17));
                assert(!is_candidate(phi as nat, 19));
                assert(!is_candidate(phi as nat, 23));
                assert(!is_candidate(phi as nat, 25));
                lemma_common_multiple_is_large(phi as int);
            }
        }
        i += 2;
    }
}

/// The values of the derived constants.
pub proof fn lemma_constant_values()
    ensures
        N == 1_860_440_669,
        PHI == 1_860_350_496,
{
    assert(PHI == 1_860_350_496) by (nonlinear_arith);
}

/// [`E`] is the public exponent for [`PHI`].
pub proof fn lemma_exponent_is_selected()
    ensures
        is_public_exponent(PHI as nat, E as nat),
{
    lemma_constant_values();
    assert(PHI % 3 == 0 && PHI % 5 == 1);
}

/// The state that follows `state`: its [`E`]-th power modulo [`N`], with
/// the conventions of [`power_mod`], so that zero is followed by one.
pub open spec fn advance(state: nat) -> nat {
    power_mod(state, E as nat, N as nat)
}

/// The state reached from `state` by advancing `steps` times.
pub open spec fn state_after(state: nat, steps: nat) -> nat
    decreases steps,
{
    if steps == 0 {
        state
    } else {
        advance(state_after(state, (steps - 1) as nat))
    }
}

/// The output bit at `position`, counted from zero, of a generator that
/// starts in `state`: the low bit of the state after `position + 1` advances.
pub open spec fn output_bit(state: nat, position: nat) -> nat {
    state_after(state, position + 1) % 2
}

/// The number whose binary digits are the first `count` output bits of a
/// generator that starts in `state`, the first bit being the least
/// significant.
pub open spec fn assemble(state: nat, count: nat) -> nat
    decreases count,
{
    if count == 0 {
        0
    } else {
        assemble(state, (count - 1) as nat) + output_bit(state, (count - 1) as nat) * pow2(
            (count - 1) as nat,
        )
    }
}

/// The byte that a generator in `state` produces next.
pub open spec fn output_byte(state: nat) -> nat {
    assemble(state, 8)
}

/// The first `count` bytes that a generator in `state` produces.
pub open spec fn output_bytes(state: nat, count: nat) -> Seq<nat>
    decreases count,
{
    if count == 0 {
        Seq::empty()
    } else {
        seq![output_byte(state)] + output_bytes(state_after(state, 8), (count - 1) as nat)
    }
}

/// Advancing never leaves the range below the modulus.
pub proof fn lemma_advance_in_range(state: nat)
    ensures
        advance(state) < N,
{
    if state != 0 {
        lemma_mod_bound(pow(state as int, E as nat), N as int);
    }
}

/// Every state that a generator passes through lies below the modulus.
pub proof fn lemma_state_after_in_range(state: nat, steps: nat)
    requires
        state < N,
    ensures
        state_after(state, steps) < N,
    decreases steps,
{
    if steps != 0 {
        lemma_advance_in_range(state_after(state, (steps - 1) as nat));
    }
}

/// The first `count` output bits assemble to a number below `2^count`.
pub proof fn lemma_assemble_bound(state: nat, count: nat)
    ensures
        assemble(state, count) < pow2(count),
    decreases count,
{
    if count == 0 {
        lemma2_to64();
    } else {
        lemma_assemble_bound(state, (count - 1) as nat);
        let b = output_bit(state, (count - 1) as nat);
        let w = pow2((count - 1) as nat);
        assert(b * w <= w) by (nonlinear_arith)
            requires
                b <= 1,
                w >= 0,
        ;
        lemma_pow2_unfold(count);
    }
}

/// Every output byte fits in eight bits.
pub proof fn lemma_output_byte_bound(state: nat)
    ensures
        output_byte(state) <= u8::MAX,
{
    lemma_assemble_bound(state, 8);
    lemma2_to64();
}

/// Setting bit `i` of a number below `2^i` adds `2^i` to it.
proof fn lemma_low_bits_or(low: u32, bit: u32, i: u32)
    requires
        i < 8,
        low < pow2(i as nat),
        bit <= 1,
    ensures
        low | (bit << i) == low + bit * pow2(i as nat),
{
    lemma2_to64();
    lemma_u32_shl_is_mul(1, i);
    let w: u32 = 1u32 << i;
    assert(low | (bit << i) == low + bit * w) by (bit_vector)
        requires
            i < 8,
            w == 1u32 << i,
            low < w,
            bit <= 1,
    ;
}

/// A pseudorandom byte generator. Its state is a number below [`N`]; each
/// output bit costs one modular exponentiation of the state.
pub struct RsaPrg {
    state: u32,
}

impl View for RsaPrg {
    type V = nat;

    /// The current state.
    closed spec fn view(&self) -> nat {
        self.state as nat
    }
}

impl RsaPrg {
    #[verifier::type_invariant]
    spec fn state_in_range(self) -> bool {
        self.state < N
    }

    /// A generator whose state is `seed` reduced modulo [`N`].
    pub fn new(seed: u32) -> (prg: Self)
        ensures
            prg@ == seed % N,
            prg@ < N,
    {
        let seed = seed % N;

        Self { state: seed }
    }

    /// Produces the next byte. The state advances eight times, and the low
    /// bit of each new state becomes the next bit of the byte, from the least
    /// significant to the most significant.
    pub fn gen_u8(&mut self) -> (byte: u8)
        ensures
            byte == output_byte(old(self)@),
            final(self)@ == state_after(old(self)@, 8),
            final(self)@ < N,
    {
        proof {
            use_type_invariant(&*self);
        }
        let modulus = NonZeroU32::new(N).unwrap();
        let mut result: u32 = 0;

        for i in 0..u8::BITS
            invariant
                modulus@ == N,
                self.state < N,
                self.state == state_after(old(self)@, i as nat),
                result == assemble(old(self)@, i as nat),
        {
            proof {
                lemma_assemble_bound(old(self)@, i as nat);
                lemma2_to64();
            }
            let next = safe_power_modulo(self.state, E, modulus);
            self.state = next;
            let bit = next & 1;
            assert(bit == next % 2) by (bit_vector)
                requires
                    bit == next & 1,
            ;
            proof {
                lemma_low_bits_or(result, bit, i);
            }
            result |= bit << i;
        }

        proof {
            lemma_output_byte_bound(old(self)@);
        }
        result as u8
    }
}

/// Generators in the same state produce the same bytes, however many are
/// drawn, and are in the same state afterwards.
pub proof fn lemma_same_state_same_output(a: RsaPrg, b: RsaPrg, count: nat)
    requires
        a@ == b@,
    ensures
        output_bytes(a@, count) == output_bytes(b@, count),
        state_after(a@, 8 * count) == state_after(b@, 8 * count),
{
}

} // verus!
