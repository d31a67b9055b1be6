//! Leaf oscillators: generators that synthesize raw phase chunks from a
//! frequency and the elapsed-time counter, with no inner node.
//!
//! A sawtooth phase is never accumulated: it is recomputed from `elapsed` on
//! every call, so generation is deterministic and seekable. Each output
//! element is the fractional part of `(elapsed + position) * freq / rate`,
//! mapped from [0, 1) onto the fixed-point band [-2^30, 2^30) and then
//! encoded by the codec, which reads that band as a phase in [-1, 1).

use crate::chunk::{Chunk, CHUNK_LEN};
use crate::codec::{int_to_float_bits, int_to_float_bits_spec, is_normalized, lemma_codec_normalized};
use crate::wave::Wave;
use vstd::arithmetic::div_mod::{
    lemma_add_mod_noop, lemma_div_is_ordered, lemma_div_multiples_vanish, lemma_div_pos_is_pos,
    lemma_fundamental_div_mod, lemma_fundamental_div_mod_converse, lemma_mod_add_multiples_vanish,
    lemma_mod_division_less_than_divisor, lemma_mul_mod_noop_left, lemma_multiply_divide_lt,
    lemma_small_mod,
};
use vstd::arithmetic::mul::{
    lemma_mul_inequality, lemma_mul_is_commutative, lemma_mul_is_distributive_add,
    lemma_mul_is_distributive_add_other_way, lemma_mul_nonnegative, lemma_mul_strict_inequality,
    lemma_mul_unary_negation, lemma_mul_upper_bound,
};
use vstd::arithmetic::power2::{lemma2_to64, pow2};
use vstd::prelude::*;

verus! {

/// A frequency, in whole cycles per second.
#[derive(Clone, Copy, PartialEq, Eq, Structural)]
pub struct Hz(pub u32);

/// The sawtooth phase at tick `t` for frequency `freq` and sample rate
/// `rate`, as a fixed-point integer sample: the fractional part of
/// `t * freq / rate` in [0, 1), rescaled onto [-2^30, 2^30) and rounded
/// down. The codec reads this band as [-1, 1), so the encoded phase floats
/// stay normalized.
pub open spec fn saw_phase_spec(freq: nat, rate: nat, t: nat) -> int {
    ((2 * ((t * freq) % rate) - rate) * pow2(30)) / (rate as int)
}

/// The phase depends on the tick only through its remainder mod the rate.
pub proof fn lemma_saw_phase_congruent(freq: nat, rate: nat, t1: nat, t2: nat)
    requires
        1 <= rate,
        t1 % rate == t2 % rate,
    ensures
        saw_phase_spec(freq, rate, t1) == saw_phase_spec(freq, rate, t2),
{
    lemma_mul_mod_noop_left(t1 as int, freq as int, rate as int);
    lemma_mul_mod_noop_left(t2 as int, freq as int, rate as int);
}

/// Law: a frequency-`freq` oscillator is periodic. One full period of
/// `rate / freq` ticks after any tick `t`, the phase is identical. Stated
/// for a frequency that divides the rate, where the period is a whole
/// number of ticks.
pub proof fn lemma_saw_periodicity(freq: nat, rate: nat, t: nat)
    requires
        1 <= freq,
        rate % freq == 0,
        1 <= rate,
    ensures
        saw_phase_spec(freq, rate, t + rate / freq) == saw_phase_spec(freq, rate, t),
{
    let period = rate / freq;
    lemma_fundamental_div_mod(rate as int, freq as int);
    assert((t + period) * freq == t * freq + period * freq) by {
        lemma_mul_is_distributive_add_other_way(freq as int, t as int, period as int);
    }
    assert(period * freq == rate);
    assert(((t * freq) as int + rate as int) % (rate as int) == (t * freq) as int % (
    rate as int)) by {
        lemma_mod_add_multiples_vanish((t * freq) as int, rate as int);
    }
}

/// Law: the sawtooth phase always lies in the fixed-point band
/// [-2^30, 2^30).
pub proof fn lemma_saw_phase_in_range(freq: nat, rate: nat, t: nat)
    requires
        1 <= rate,
    ensures
        -0x40000000 <= saw_phase_spec(freq, rate, t) < 0x40000000,
{
    lemma2_to64();
    lemma_mod_division_less_than_divisor((t * freq) as int, rate as int);
    let fracm = ((t * freq) % rate) as int;
    let num = 2 * fracm - rate;
    let x = num * (pow2(30) as int);
    if num >= 0 {
        lemma_mul_nonnegative(num, pow2(30) as int);
        lemma_div_pos_is_pos(x, rate as int);
        lemma_mul_strict_inequality(num, rate as int, pow2(30) as int);
        lemma_multiply_divide_lt(x, rate as int, pow2(30) as int);
    } else {
        // num >= -rate, so the quotient is at least (-rate * 2^30) / rate,
        // which is exactly -2^30.
        lemma_mul_inequality(-(rate as int), num, pow2(30) as int);
        lemma_mul_unary_negation(rate as int, pow2(30) as int);
        lemma_div_is_ordered(-(rate as int) * (pow2(30) as int), x, rate as int);
        lemma_div_multiples_vanish(-(pow2(30) as int), rate as int);
        // num <= -1, so the quotient is negative.
        lemma_mul_inequality(num, -1, pow2(30) as int);
        lemma_div_is_ordered(x, -0x40000000, rate as int);
        lemma_fundamental_div_mod_converse(-1, rate as int, -1, rate as int - 1);
        lemma_div_is_ordered(-0x40000000, -1, rate as int);
    }
}

/// Law: every sample a sawtooth emits is a normalized phase: its pattern
/// encodes a value strictly inside [-1, 1].
pub proof fn lemma_saw_sample_normalized(freq: nat, rate: nat, t: nat)
    requires
        1 <= rate,
    ensures
        is_normalized(int_to_float_bits_spec(saw_phase_spec(freq, rate, t)) as u32),
{
    lemma_saw_phase_in_range(freq, rate, t);
    lemma_codec_normalized(saw_phase_spec(freq, rate, t));
}

/// The sawtooth phase at tick `t`, computed in exact integer arithmetic.
fn saw_phase(freq: u32, rate: u32, t: u64) -> (p: i32)
    requires
        1 <= rate,
    ensures
        p as int == saw_phase_spec(freq as nat, rate as nat, t as nat),
{
    let r64: u64 = rate as u64;
    proof {
        lemma_mod_division_less_than_divisor(t as int, r64 as int);
        lemma_mul_upper_bound(t as int % r64 as int, 0xFFFFFFFE, freq as int, 0xFFFFFFFF);
    }
    let frac: u64 = ((t % r64) * (freq as u64)) % r64;
    proof {
        lemma_mul_mod_noop_left(t as int, freq as int, rate as int);
        lemma_mod_division_less_than_divisor((t % r64) as int * freq as int, r64 as int);
        lemma2_to64();
    }
    if 2 * frac >= r64 {
        let num: u64 = 2 * frac - r64;
        proof {
            lemma_mul_upper_bound(num as int, 0xFFFFFFFE, 0x40000000, 0x40000000);
            // num < rate bounds the quotient below 2^30.
            lemma_mul_strict_inequality(num as int, r64 as int, 0x40000000);
            lemma_multiply_divide_lt(num as int * 0x40000000, r64 as int, 0x40000000);
        }
        let q: u64 = (num * 0x4000_0000) / r64;
        q as i32
    } else {
        let neg: u64 = r64 - 2 * frac;
        proof {
            lemma_mul_upper_bound(neg as int, 0xFFFFFFFF, 0x40000000, 0x40000000);
            // neg <= rate bounds the rounded-up quotient by 2^30.
            lemma_mul_inequality_for_saw(neg as int, r64 as int);
            lemma_multiply_divide_lt(
                neg as int * 0x40000000 + (r64 as int - 1),
                r64 as int,
                0x40000001,
            );
        }
        let q: u64 = (neg * 0x4000_0000 + (r64 - 1)) / r64;
        proof {
            // Unsigned ceiling division agrees with the spec's floor of the
            // negated numerator.
            lemma_neg_div_is_neg_ceil(neg as int * 0x40000000, r64 as int);
            lemma_mul_unary_negation(neg as int, 0x40000000);
        }
        -(q as i32)
    }
}

/// Helper bound: `neg <= r` gives `neg * 2^30 + r - 1 < r * (2^30 + 1)`.
proof fn lemma_mul_inequality_for_saw(neg: int, r: int)
    requires
        0 <= neg <= r,
        1 <= r,
    ensures
        neg * 0x40000000 + (r - 1) < r * 0x40000001,
{
    vstd::arithmetic::mul::lemma_mul_inequality(neg, r, 0x40000000);
    lemma_mul_is_distributive_add(r, 0x40000000, 1);
}

/// Euclidean division of a negated non-negative value is the negated
/// ceiling: `(-a) / d == -((a + d - 1) / d)`.
proof fn lemma_neg_div_is_neg_ceil(a: int, d: int)
    requires
        0 <= a,
        1 <= d,
    ensures
        (-a) / d == -((a + d - 1) / d),
{
    let q = a / d;
    let r = a % d;
    lemma_fundamental_div_mod(a, d);
    lemma_mod_division_less_than_divisor(a, d);
    lemma_mul_unary_negation(q, d);
    lemma_mul_is_commutative(q, d);
    if r == 0 {
        lemma_fundamental_div_mod_converse(-a, d, -q, 0);
        lemma_fundamental_div_mod_converse(a + d - 1, d, q, d - 1);
    } else {
        lemma_mul_is_distributive_add_other_way(d, q, 1);
        lemma_mul_unary_negation(q + 1, d);
        lemma_fundamental_div_mod_converse(-a, d, -(q + 1), d - r);
        lemma_fundamental_div_mod_converse(a + d - 1, d, q + 1, r - 1);
    }
}

/// The phase pattern of frequency `freq` at tick `t`: one sawtooth sample,
/// encoded by the codec. This is what the frequency-reading operation of a
/// signal expression evaluates to.
pub fn freq_phase_bits(freq: Hz, rate: u32, t: u64) -> (bits: u32)
    requires
        1 <= rate,
    ensures
        bits == int_to_float_bits_spec(saw_phase_spec(freq.0 as nat, rate as nat, t as nat)),
        is_normalized(bits),
{
    proof {
        lemma_saw_sample_normalized(freq.0 as nat, rate as nat, t as nat);
    }
    int_to_float_bits(saw_phase(freq.0, rate, t))
}

/// A sawtooth oscillator: a leaf generator that ramps from -1 to 1 once per
/// cycle, `freq` cycles per `rate` ticks.
pub struct Saw {
    freq: u32,
    rate: u32,
}

impl Saw {
    /// A sample rate of zero would leave the phase undefined.
    #[verifier::type_invariant]
    spec fn type_inv(self) -> bool {
        self.rate >= 1
    }

    /// The oscillator's frequency, in cycles per second.
    pub closed spec fn freq(self) -> nat {
        self.freq as nat
    }

    /// The oscillator's sample rate, in ticks per second.
    pub closed spec fn rate(self) -> nat {
        self.rate as nat
    }

    /// Builds a sawtooth oscillator from a frequency and a sample rate.
    pub fn new(freq: Hz, rate: u32) -> (s: Saw)
        requires
            1 <= rate,
        ensures
            s.freq() == freq.0,
            s.rate() == rate,
    {
        Saw { freq: freq.0, rate }
    }
}

impl Wave for Saw {
    /// Each sample is the sawtooth phase at its own tick, encoded by the
    /// codec, and stays a normalized value inside [-1, 1]. `interval` and
    /// `vars` do not enter a leaf's phase.
    fn synthesize(&self, elapsed: u64, interval: u64, vars: &Vec<u32>) -> (c: Chunk)
        ensures
            c.wf(),
            forall|i: int|
                0 <= i < CHUNK_LEN ==> c@[i] == int_to_float_bits_spec(
                    saw_phase_spec(self.freq(), self.rate(), (elapsed + i) as nat),
                ),
            forall|i: int| 0 <= i < CHUNK_LEN ==> is_normalized(#[trigger] c@[i]),
    {
        proof {
            use_type_invariant(&*self);
        }
        let r64: u64 = self.rate as u64;
        let base: u64 = elapsed % r64;
        proof {
            lemma_mod_division_less_than_divisor(elapsed as int, r64 as int);
        }
        let mut samples: Vec<u32> = Vec::new();
        let mut k: usize = 0;
        while k < CHUNK_LEN
            invariant
                k <= CHUNK_LEN,
                samples@.len() == k,
                self.rate >= 1,
                base == elapsed as int % self.rate as int,
                base < self.rate,
                forall|i: int|
                    0 <= i < k ==> samples@[i] == int_to_float_bits_spec(
                        saw_phase_spec(self.freq(), self.rate(), (elapsed + i) as nat),
                    ),
            decreases CHUNK_LEN - k,
        {
            let p: i32 = saw_phase(self.freq, self.rate, base + k as u64);
            proof {
                // base + k and elapsed + k agree mod the rate, so their
                // phases agree.
                lemma_add_mod_noop(base as int, k as int, self.rate as int);
                lemma_add_mod_noop(elapsed as int, k as int, self.rate as int);
                lemma_small_mod(base as nat, self.rate as nat);
                lemma_saw_phase_congruent(
                    self.freq(),
                    self.rate(),
                    (base + k) as nat,
                    (elapsed + k) as nat,
                );
            }
            samples.push(int_to_float_bits(p));
            k = k + 1;
        }
        proof {
            assert forall|i: int| 0 <= i < CHUNK_LEN implies is_normalized(
                #[trigger] samples@[i],
            ) by {
                lemma_saw_sample_normalized(self.freq(), self.rate(), (elapsed + i) as nat);
            }
        }
        Chunk::from_samples(samples)
    }
}

} // verus!
