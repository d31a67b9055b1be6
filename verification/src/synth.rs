//! The expression-graph synthesizer: a per-tick scalar signal expression,
//! built from chainable operations, evaluated once per output sample
//! against a monotonically advancing time counter.

use crate::osc::Hz;
use vstd::prelude::*;

verus! {

/// A chainable per-tick scalar signal expression.
///
/// `Freq` reads the phase of the named frequency at the current tick of the
/// evaluation frame; every other operation is a pure scalar transform of
/// its operands, evaluated against that shared time basis. Reading the
/// phase and taking the absolute value are exact pattern operations of this
/// crate (`freq_phase_bits`, `abs_bits`); the gain product and the sine
/// shape are floating-point arithmetic and run on the float view of a
/// sample where the expression is driven.
pub enum Signal {
    /// The phase of a frequency at the current tick, as a sample pattern.
    Freq(u32),
    /// The absolute value of the operand.
    Abs(Box<Signal>),
    /// The product of the two operands.
    Gain(Box<Signal>, Box<Signal>),
    /// The sine shape `x -> -cos(pi * x)` of the operand.
    Sine(Box<Signal>),
}

impl Signal {
    /// The expression that reads the phase of `hz` at the current tick.
    pub fn freq(hz: Hz) -> (s: Signal)
        ensures
            s == Signal::Freq(hz.0),
    {
        Signal::Freq(hz.0)
    }

    /// Chains an absolute-value operation onto this expression.
    pub fn abs(self) -> (s: Signal)
        ensures
            s matches Signal::Abs(inner) && *inner == self,
    {
        Signal::Abs(Box::new(self))
    }

    /// Chains a gain: this expression scaled by another.
    pub fn gain(self, factor: Signal) -> (s: Signal)
        ensures
            s matches Signal::Gain(inner, f) && *inner == self && *f == factor,
    {
        Signal::Gain(Box::new(self), Box::new(factor))
    }

    /// Chains a sine shape onto this expression.
    pub fn sine(self) -> (s: Signal)
        ensures
            s matches Signal::Sine(inner) && *inner == self,
    {
        Signal::Sine(Box::new(self))
    }
}

/// The evaluation frame: the consistent, monotonically advancing time basis
/// shared by every operation evaluated within one call.
pub struct Synth {
    counter: u64,
}

impl Synth {
    /// The current tick of the time basis.
    pub closed spec fn counter(self) -> u64 {
        self.counter
    }

    /// A synthesizer whose time basis starts at tick zero.
    pub fn new() -> (s: Synth)
        ensures
            s.counter() == 0,
    {
        Synth { counter: 0 }
    }

    /// The current tick.
    pub fn elapsed(&self) -> (t: u64)
        ensures
            t == self.counter(),
    {
        self.counter
    }

    /// Advances the time basis by one tick and returns the tick it leaves:
    /// each output sample is evaluated at its own tick, and the basis never
    /// moves backwards.
    pub fn tick(&mut self) -> (t: u64)
        requires
            old(self).counter() < u64::MAX,
        ensures
            t == old(self).counter(),
            final(self).counter() == old(self).counter() + 1,
    {
        let t: u64 = self.counter;
        self.counter = self.counter + 1;
        t
    }
}

} // verus!
