//! A fixed-size block of float samples, the unit one synthesis tick
//! produces, held as bit patterns.
//!
//! The only transforms a chunk needs from this crate are the sign-bit
//! operations, which are exact on the pattern: IEEE-754 negation flips the
//! sign bit and absolute value clears it, whatever the rest of the pattern
//! holds.

use crate::codec::is_normalized;
use vstd::arithmetic::div_mod::{lemma_hoist_over_denominator, lemma_mod_add_multiples_vanish};
use vstd::arithmetic::power2::lemma2_to64;
use vstd::prelude::*;

verus! {

/// Number of samples one generation call produces.
pub const CHUNK_LEN: usize = 32;

/// The pattern with the sign bit flipped: IEEE-754 negation.
pub open spec fn flip_sign(s: u32) -> u32 {
    if s >= 0x8000_0000 {
        (s - 0x8000_0000) as u32
    } else {
        (s + 0x8000_0000) as u32
    }
}

/// The pattern with the sign bit cleared: IEEE-754 absolute value.
pub open spec fn clear_sign(s: u32) -> u32 {
    if s >= 0x8000_0000 {
        (s - 0x8000_0000) as u32
    } else {
        s
    }
}

/// Negates one sample pattern.
pub fn negate_bits(s: u32) -> (r: u32)
    ensures
        r == flip_sign(s),
{
    if s >= 0x8000_0000 {
        s - 0x8000_0000
    } else {
        s + 0x8000_0000
    }
}

/// Absolute value of one sample pattern.
pub fn abs_bits(s: u32) -> (r: u32)
    ensures
        r == clear_sign(s),
{
    if s >= 0x8000_0000 {
        s - 0x8000_0000
    } else {
        s
    }
}

/// A fixed-length block of float sample patterns.
pub struct Chunk {
    samples: Vec<u32>,
}

impl View for Chunk {
    type V = Seq<u32>;

    closed spec fn view(&self) -> Seq<u32> {
        self.samples@
    }
}

impl Chunk {
    /// Every chunk holds exactly `CHUNK_LEN` samples.
    pub open spec fn wf(self) -> bool {
        self@.len() == CHUNK_LEN
    }

    /// A chunk of silence: every pattern is +0.0.
    pub fn silence() -> (c: Chunk)
        ensures
            c.wf(),
            forall|i: int| 0 <= i < CHUNK_LEN ==> c@[i] == 0u32,
    {
        let mut samples: Vec<u32> = Vec::new();
        let mut k: usize = 0;
        while k < CHUNK_LEN
            invariant
                k <= CHUNK_LEN,
                samples@.len() == k,
                forall|i: int| 0 <= i < k ==> samples@[i] == 0u32,
            decreases CHUNK_LEN - k,
        {
            samples.push(0);
            k = k + 1;
        }
        Chunk { samples }
    }

    /// Wraps `CHUNK_LEN` sample patterns as a chunk.
    pub fn from_samples(samples: Vec<u32>) -> (c: Chunk)
        requires
            samples@.len() == CHUNK_LEN,
        ensures
            c.wf(),
            c@ == samples@,
    {
        Chunk { samples }
    }

    /// The number of samples held.
    pub fn len(&self) -> (n: usize)
        ensures
            n == self@.len(),
    {
        self.samples.len()
    }

    /// The sample pattern at position `i`.
    pub fn get(&self, i: usize) -> (s: u32)
        requires
            i < self@.len(),
        ensures
            s == self@[i as int],
    {
        self.samples[i]
    }

    /// Negates every sample in place: an elementwise sign flip.
    pub fn invert(&mut self)
        ensures
            final(self)@.len() == old(self)@.len(),
            forall|i: int|
                0 <= i < old(self)@.len() ==> final(self)@[i] == flip_sign(old(self)@[i]),
    {
        let n: usize = self.samples.len();
        let mut k: usize = 0;
        while k < n
            invariant
                n == self.samples@.len(),
                k <= n,
                forall|i: int| 0 <= i < k ==> self.samples@[i] == flip_sign(old(self)@[i]),
                forall|i: int| k <= i < n ==> self.samples@[i] == old(self)@[i],
            decreases n - k,
        {
            let v: u32 = negate_bits(self.samples[k]);
            self.samples[k] = v;
            k = k + 1;
        }
    }
}

/// Law: flipping the sign bit never touches the exponent, so negation keeps
/// a normalized sample normalized.
pub proof fn lemma_flip_sign_keeps_normalized(s: u32)
    ensures
        is_normalized(flip_sign(s)) == is_normalized(s),
{
    lemma2_to64();
    if s >= 0x8000_0000 {
        lemma_hoist_over_denominator(flip_sign(s) as int, 256, 0x800000);
        lemma_mod_add_multiples_vanish((flip_sign(s) as int) / 0x800000, 256);
    } else {
        lemma_hoist_over_denominator(s as int, 256, 0x800000);
        lemma_mod_add_multiples_vanish((s as int) / 0x800000, 256);
    }
}

/// Law: negating a chunk twice restores it. The two premises are the
/// contract `invert` gives for each of two calls in a row; the conclusion is
/// that the final samples are the original ones.
pub proof fn lemma_invert_involution(a: Seq<u32>, b: Seq<u32>, c: Seq<u32>)
    requires
        b.len() == a.len(),
        c.len() == b.len(),
        forall|i: int| 0 <= i < a.len() ==> b[i] == flip_sign(a[i]),
        forall|i: int| 0 <= i < b.len() ==> c[i] == flip_sign(b[i]),
    ensures
        c == a,
{
    assert forall|i: int| 0 <= i < a.len() implies c[i] == a[i] by {
        assert(flip_sign(flip_sign(a[i])) == a[i]);
    }
    assert(c =~= a);
}

} // verus!
