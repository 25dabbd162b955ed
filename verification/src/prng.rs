//! A tiny deterministic pseudo random generator.
//!
//! Seedcore never touches the operating system entropy pool. The whole point of
//! the simulator is that a seed fully determines the run, so randomized
//! scenarios are reproducible. This is SplitMix64, a well known small generator
//! that is more than good enough for a simulation and is trivial to reason
//! about.

use vstd::arithmetic::div_mod::lemma_mul_mod_noop_left;
use vstd::arithmetic::div_mod::lemma_small_mod;
use vstd::prelude::*;

verus! {

/// The state that follows `state`.
pub open spec fn next_state(state: u64) -> u64 {
    state.wrapping_add(0x9E37_79B9_7F4A_7C15)
}

/// The output that a state gives.
pub open spec fn output(state: u64) -> u64 {
    let a = (state ^ (state >> 30u64)).wrapping_mul(0xBF58_476D_1CE4_E5B9);
    let b = (a ^ (a >> 27u64)).wrapping_mul(0x94D0_49BB_1331_11EB);
    b ^ (b >> 31u64)
}

/// The state after `steps` outputs, from a seed.
pub open spec fn state_after(seed: u64, steps: nat) -> u64
    decreases steps,
{
    if steps == 0 {
        seed
    } else {
        next_state(state_after(seed, (steps - 1) as nat))
    }
}

/// Output number `n` of the stream of a seed, counted from zero.
pub open spec fn stream(seed: u64, n: nat) -> u64 {
    output(state_after(seed, n + 1))
}

/// The value in `0..bound` that an output is reduced to.
pub open spec fn reduce(raw: u64, bound: u32) -> u32 {
    ((raw as nat * bound as nat) / 0x1_0000_0000_0000_0000) as u32
}

/// The byte that an output is reduced to.
pub open spec fn low_byte(raw: u64) -> u8 {
    (raw % 256) as u8
}

/// A seeded SplitMix64 generator.
#[derive(Debug, Clone)]
pub struct Prng {
    state: u64,
}

impl View for Prng {
    type V = u64;

    closed spec fn view(&self) -> u64 {
        self.state
    }
}

/// The reduction stays below its bound.
pub proof fn lemma_reduce_below(raw: u64, bound: u32)
    ensures
        bound > 0 ==> reduce(raw, bound) < bound,
        bound > 0 ==> (raw as nat * bound as nat) / 0x1_0000_0000_0000_0000 == reduce(raw, bound),
{
    if bound > 0 {
        let m: int = 0x1_0000_0000_0000_0000;
        let product = raw as int * bound as int;
        assert(0 <= product < m * bound as int) by (nonlinear_arith)
            requires
                product == raw as int * bound as int,
                0 <= raw < m,
                0 < bound,
        ;
        assert(product / m < bound as int) by (nonlinear_arith)
            requires
                0 <= product < m * bound as int,
                m == 0x1_0000_0000_0000_0000,
        ;
        assert(product / m >= 0) by (nonlinear_arith)
            requires
                0 <= product,
                m == 0x1_0000_0000_0000_0000,
        ;
    }
}

impl Prng {
    /// Create a generator from a seed. Every seed yields a distinct stream and
    /// the same seed always yields the same stream.
    pub fn new(seed: u64) -> (prng: Self)
        ensures
            prng@ == seed,
    {
        Prng { state: seed }
    }

    /// The raw 64 bit output.
    pub fn next_u64(&mut self) -> (raw: u64)
        ensures
            final(self)@ == next_state(old(self)@),
            raw == output(next_state(old(self)@)),
    {
        self.state = self.state.wrapping_add(0x9E37_79B9_7F4A_7C15);
        let mut z: u64 = self.state;
        z = (z ^ (z >> 30u64)).wrapping_mul(0xBF58_476D_1CE4_E5B9);
        z = (z ^ (z >> 27u64)).wrapping_mul(0x94D0_49BB_1331_11EB);
        z ^ (z >> 31u64)
    }

    /// A value in the half open range `0..bound`. A bound of zero returns zero
    /// and draws nothing.
    pub fn below(&mut self, bound: u32) -> (value: u32)
        ensures
            bound == 0 ==> value == 0 && final(self)@ == old(self)@,
            bound > 0 ==> {
                &&& value == reduce(output(next_state(old(self)@)), bound)
                &&& value < bound
                &&& final(self)@ == next_state(old(self)@)
            },
    {
        if bound == 0 {
            return 0;
        }
        let raw: u64 = self.next_u64();
        proof {
            lemma_reduce_below(raw, bound);
            assert(raw as int * bound as int <= 0xffff_ffff_ffff_ffff * 0xffff_ffff)
                by (nonlinear_arith)
                requires
                    0 <= raw <= 0xffff_ffff_ffff_ffff,
                    0 <= bound <= 0xffff_ffff,
            ;
        }
        let product: u128 = (raw as u128) * (bound as u128);
        proof {
            assert(product >> 64u128 == product / 0x1_0000_0000_0000_0000u128) by (bit_vector);
        }
        (product >> 64u128) as u32
    }

    /// A byte value.
    pub fn byte(&mut self) -> (value: u8)
        ensures
            value == low_byte(output(next_state(old(self)@))),
            final(self)@ == next_state(old(self)@),
    {
        let raw: u64 = self.next_u64();
        proof {
            assert(raw & 0xFF == raw % 256) by (bit_vector);
        }
        (raw & 0xFF) as u8
    }

    /// A coin flip that is true with probability `1 / n` (n of zero is never).
    pub fn one_in(&mut self, n: u32) -> (hit: bool)
        ensures
            n == 0 ==> !hit && final(self)@ == old(self)@,
            n > 0 ==> {
                &&& hit == (reduce(output(next_state(old(self)@)), n) == 0)
                &&& final(self)@ == next_state(old(self)@)
            },
    {
        n != 0 && self.below(n) == 0
    }
}

/// Multiplying by a factor that has an inverse loses nothing.
proof fn lemma_mul_injective(a: u64, b: u64, factor: u64, inverse: u64, quotient: nat)
    requires
        factor as nat * inverse as nat == 1 + quotient * 0x1_0000_0000_0000_0000,
        a.wrapping_mul(factor) == b.wrapping_mul(factor),
    ensures
        a == b,
{
    let m: int = 0x1_0000_0000_0000_0000;
    lemma_mul_undone(a, factor, inverse, quotient);
    lemma_mul_undone(b, factor, inverse, quotient);
}

/// Multiplying by a factor and then by its inverse gives the value back.
proof fn lemma_mul_undone(a: u64, factor: u64, inverse: u64, quotient: nat)
    requires
        factor as nat * inverse as nat == 1 + quotient * 0x1_0000_0000_0000_0000,
    ensures
        (a.wrapping_mul(factor) as int * inverse as int) % 0x1_0000_0000_0000_0000 == a,
{
    let m: int = 0x1_0000_0000_0000_0000;
    let (x, f, i, q) = (a as int, factor as int, inverse as int, quotient as int);
    lemma_mul_mod_noop_left(x * f, i, m);
    assert((x * f) * i == x + (x * q) * m) by (nonlinear_arith)
        requires
            f * i == 1 + q * m,
    ;
    vstd::arithmetic::div_mod::lemma_mod_multiples_vanish(x * q, x, m);
    assert((x + (x * q) * m) % m == x % m) by {
        assert(m * (x * q) + x == x + (x * q) * m) by (nonlinear_arith);
    }
    lemma_small_mod(a as nat, m as nat);
}

/// The output function loses nothing: different states give different outputs.
proof fn lemma_output_injective(s: u64, t: u64)
    requires
        output(s) == output(t),
    ensures
        s == t,
{
    let s1 = s ^ (s >> 30u64);
    let t1 = t ^ (t >> 30u64);
    let s2 = s1.wrapping_mul(0xBF58_476D_1CE4_E5B9);
    let t2 = t1.wrapping_mul(0xBF58_476D_1CE4_E5B9);
    let s3 = s2 ^ (s2 >> 27u64);
    let t3 = t2 ^ (t2 >> 27u64);
    let s4 = s3.wrapping_mul(0x94D0_49BB_1331_11EB);
    let t4 = t3.wrapping_mul(0x94D0_49BB_1331_11EB);
    assert((s4 ^ (s4 >> 31u64)) == (t4 ^ (t4 >> 31u64)) ==> s4 == t4) by (bit_vector);
    lemma_mul_injective(
        s3,
        t3,
        0x94D0_49BB_1331_11EB,
        3573116690164977347,
        2077064247507883091,
    );
    assert((s2 ^ (s2 >> 27u64)) == (t2 ^ (t2 >> 27u64)) ==> s2 == t2) by (bit_vector);
    lemma_mul_injective(
        s1,
        t1,
        0xBF58_476D_1CE4_E5B9,
        10871156337175269513,
        8125545580553827436,
    );
    assert((s ^ (s >> 30u64)) == (t ^ (t >> 30u64)) ==> s == t) by (bit_vector);
}

/// Every seed yields a distinct stream: two different seeds disagree on every
/// output, at every position.
pub proof fn law_distinct_seeds_distinct_streams(seed: u64, other: u64, n: nat)
    requires
        seed != other,
    ensures
        stream(seed, n) != stream(other, n),
{
    lemma_states_stay_apart(seed, other, n + 1);
    if stream(seed, n) == stream(other, n) {
        lemma_output_injective(state_after(seed, n + 1), state_after(other, n + 1));
    }
}

/// Different seeds never meet in the same state after the same number of steps.
proof fn lemma_states_stay_apart(seed: u64, other: u64, steps: nat)
    requires
        seed != other,
    ensures
        state_after(seed, steps) != state_after(other, steps),
    decreases steps,
{
    if steps > 0 {
        lemma_states_stay_apart(seed, other, (steps - 1) as nat);
    }
}

/// The states of a generator are evenly spaced: each is the one before it and a
/// fixed odd distance further, around the circle of all states.
pub proof fn law_states_are_evenly_spaced(seed: u64, steps: nat)
    ensures
        state_after(seed, steps) as int == (seed as int + steps * 0x9E37_79B9_7F4A_7C15int)
            % 0x1_0000_0000_0000_0000,
    decreases steps,
{
    let m: int = 0x1_0000_0000_0000_0000;
    let g: int = 0x9E37_79B9_7F4A_7C15;
    if steps == 0 {
        lemma_small_mod(seed as nat, m as nat);
    } else {
        let before = state_after(seed, (steps - 1) as nat) as int;
        let far = seed as int + (steps - 1) * g;
        law_states_are_evenly_spaced(seed, (steps - 1) as nat);
        assert(seed as int + steps * g == far + g) by (nonlinear_arith)
            requires
                far == seed as int + (steps - 1) * g,
        ;
        assert((before + g) % m == (far + g) % m) by {
            vstd::arithmetic::div_mod::lemma_add_mod_noop(far, g, m);
            vstd::arithmetic::div_mod::lemma_add_mod_noop(before, g, m);
            lemma_small_mod(before as nat, m as nat);
        }
    }
}

/// A stream can be taken up anywhere: from the state after some outputs it goes on
/// as it would have.
pub proof fn law_a_stream_goes_on(seed: u64, first: nat, n: nat)
    ensures
        state_after(state_after(seed, first), n) == state_after(seed, first + n),
        stream(state_after(seed, first), n) == stream(seed, first + n),
    decreases n,
{
    if n > 0 {
        law_a_stream_goes_on(seed, first, (n - 1) as nat);
    }
    lemma_states_add(seed, first, n + 1);
}

/// States add up.
proof fn lemma_states_add(seed: u64, first: nat, n: nat)
    ensures
        state_after(state_after(seed, first), n) == state_after(seed, first + n),
    decreases n,
{
    if n > 0 {
        lemma_states_add(seed, first, (n - 1) as nat);
    }
}

/// Different states give different outputs, so no output of a stream is lost.
pub proof fn law_outputs_tell_states_apart(a: u64, b: u64)
    ensures
        output(a) == output(b) <==> a == b,
{
    if output(a) == output(b) {
        lemma_output_injective(a, b);
    }
}

/// A reduction is fair: it cuts the range of all outputs into as many stretches as
/// the bound says, of equal length up to one, and gives the number of the stretch.
pub proof fn law_a_reduction_is_even(raw: u64, bound: u32)
    requires
        bound > 0,
    ensures
        reduce(raw, bound) < bound,
        reduce(raw, bound) * 0x1_0000_0000_0000_0000 <= raw * bound,
        raw * bound < (reduce(raw, bound) + 1) * 0x1_0000_0000_0000_0000,
{
    lemma_reduce_below(raw, bound);
    let m: int = 0x1_0000_0000_0000_0000;
    let product = raw as int * bound as int;
    vstd::arithmetic::div_mod::lemma_fundamental_div_mod(product, m);
    vstd::arithmetic::div_mod::lemma_mod_bound(product, m);
    let q = product / m;
    assert(m * q == q * m) by (nonlinear_arith);
    assert((q + 1) * m == q * m + m) by (nonlinear_arith);
}

/// The byte of an output is what is left of it over whole multiples of 256.
pub proof fn law_a_byte_is_the_low_end(raw: u64)
    ensures
        (raw - low_byte(raw)) % 256 == 0,
        raw < 256 ==> low_byte(raw) == raw,
{
}

} // verus!
