//! Modular exponentiation on 32-bit words and the non-zero modulus it takes.

use vstd::arithmetic::div_mod::{lemma_mul_mod_noop_left, lemma_mul_mod_noop_right};
use vstd::arithmetic::power::{
    lemma_pow1, lemma_pow_adds, lemma_pow_mod_noop, lemma_pow_multiplies, lemma_square_is_pow2, pow,
};
use vstd::prelude::*;

verus! {

/// A 32-bit unsigned integer that is never zero.
///
/// The only way to obtain one is [`NonZeroU32::new`], which refuses zero, so a
/// function that takes a `NonZeroU32` may divide by it without a check.
#[derive(Clone, Copy, Debug)]
pub struct NonZeroU32 {
    value: u32,
}

impl View for NonZeroU32 {
    type V = u32;

    closed spec fn view(&self) -> u32 {
        self.value
    }
}

impl NonZeroU32 {
    #[verifier::type_invariant]
    spec fn is_nonzero(self) -> bool {
        self.value != 0
    }

    /// Wraps `n`, or returns `None` when `n` is zero.
    pub fn new(n: u32) -> (r: Option<Self>)
        ensures
            n == 0 <==> r is None,
            r matches Some(m) ==> m@ == n,
    {
        if n == 0 {
            None
        } else {
            Some(NonZeroU32 { value: n })
        }
    }

    /// The wrapped integer, which is at least one.
    pub fn get(self) -> (n: u32)
        ensures
            n == self@,
            n != 0,
    {
        proof {
            use_type_invariant(&self);
        }
        self.value
    }
}

/// What [`safe_power_modulo`] returns, over the natural numbers.
///
/// For a non-zero base and an exponent of at least one this is the remainder
/// of `base` to the power `exponent` on division by `modulus`. Two choices are
/// deliberate: a base of zero gives one whatever the exponent and the modulus
/// are, and an exponent of zero is treated like an exponent of one.
pub open spec fn power_mod(base: nat, exponent: nat, modulus: nat) -> nat {
    if base == 0 {
        1
    } else if exponent == 0 {
        base % modulus
    } else {
        (pow(base as int, exponent) % (modulus as int)) as nat
    }
}

/// Squaring the base halves an even exponent: `(x * x)^k == x^(2k)`.
proof fn lemma_pow_of_square(x: int, k: nat)
    ensures
        pow(x * x, k) == pow(x, 2 * k),
{
    lemma_square_is_pow2(x);
    lemma_pow_multiplies(x, 2, k);
}

/// Reducing the base of a power that is a factor of a product leaves the
/// product's remainder unchanged: `a * (b mod m)^k == a * b^k (mod m)`.
proof fn lemma_reduce_base_in_product(a: int, b: int, k: nat, m: int)
    requires
        m > 0,
    ensures
        (a * pow(b % m, k)) % m == (a * pow(b, k)) % m,
{
    lemma_mul_mod_noop_right(a, pow(b % m, k), m);
    lemma_pow_mod_noop(b, k, m);
    lemma_mul_mod_noop_right(a, pow(b, k), m);
}

/// One round of square-and-multiply on an even exponent keeps
/// `y * x^e (mod m)`: the base is squared and the exponent halved.
proof fn lemma_round_even(x: int, y: int, e: nat, m: int)
    requires
        m > 0,
        e % 2 == 0,
    ensures
        (y * pow((x * x) % m, e / 2)) % m == (y * pow(x, e)) % m,
{
    lemma_reduce_base_in_product(y, x * x, e / 2, m);
    lemma_pow_of_square(x, e / 2);
}

/// One round of square-and-multiply on an odd exponent keeps
/// `y * x^e (mod m)`: one factor `x` moves into the accumulator, then the
/// base is squared and the exponent halved.
proof fn lemma_round_odd(x: int, y: int, e: nat, m: int)
    requires
        m > 0,
        e % 2 == 1,
    ensures
        (((y * x) % m) * pow((x * x) % m, e / 2)) % m == (y * pow(x, e)) % m,
{
    let k = e / 2;
    let p = pow((x * x) % m, k);
    lemma_mul_mod_noop_left(y * x, p, m);
    lemma_reduce_base_in_product(y * x, x * x, k, m);
    lemma_pow_of_square(x, k);
    lemma_pow1(x);
    lemma_pow_adds(x, 1, 2 * k);
    assert(pow(x, e) == x * pow(x, 2 * k));
    assert((y * x) * pow(x, 2 * k) == y * (x * pow(x, 2 * k))) by (nonlinear_arith);
}

/// Raises `x` to the power `exp` modulo `modulus` by right-to-left binary
/// exponentiation. Every product is formed in 64 bits, where the product of
/// two 32-bit words cannot overflow, and reduced before it is used again.
pub fn safe_power_modulo(x: u32, exp: u32, modulus: NonZeroU32) -> (r: u32)
    ensures
        r == power_mod(x as nat, exp as nat, modulus@ as nat),
        x == 0 ==> r == 1,
        x != 0 ==> r < modulus@,
{
    if x == 0 {
        return 1;
    }
    let ghost base = x as int;
    let m: u64 = modulus.get() as u64;
    let mut exp: u32 = exp;
    let ghost exponent = exp as nat;
    let mut x: u64 = x as u64;
    let mut y: u64 = 1;
    while exp > 1
        invariant
            0 < m <= u32::MAX,
            x <= u32::MAX,
            y <= u32::MAX,
            exponent == 0 ==> exp == 0 && x == base && y == 1,
            exponent >= 1 ==> exp >= 1,
            exponent >= 1 ==> (y * pow(x as int, exp as nat)) % (m as int) == pow(base, exponent) % (
            m as int),
        decreases exp,
    {
        let ghost round = exp as nat;
        assert(exp & 1 == exp % 2) by (bit_vector);
        assert(y * x <= u64::MAX && x * x <= u64::MAX) by (nonlinear_arith)
            requires
                x <= u32::MAX,
                y <= u32::MAX,
        ;
        proof {
            if round % 2 == 1 {
                lemma_round_odd(x as int, y as int, round, m as int);
            } else {
                lemma_round_even(x as int, y as int, round, m as int);
            }
        }
        if exp & 1 == 1 {
            y = (y * x) % m;
            exp -= 1;
        }
        x = (x * x) % m;
        assert(exp >> 1 == exp / 2) by (bit_vector);
        exp >>= 1;
        assert(exp == round / 2);
    }
    assert(x * y <= u64::MAX) by (nonlinear_arith)
        requires
            x <= u32::MAX,
            y <= u32::MAX,
    ;
    proof {
        lemma_pow1(x as int);
        assert(x * y == y * x) by (nonlinear_arith);
    }
    ((x * y) % m) as u32
}

} // verus!
