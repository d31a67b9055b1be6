//! A small digital-signal-generation core.
//!
//! The crate produces blocks of audio samples by composing waveform
//! generators, and converts between a fixed-point integer sample
//! representation and the IEEE-754 bit patterns of normalized float samples.
//! Samples are handled throughout as their 32-bit patterns, so every
//! conversion and transform here is exact integer arithmetic with a proved
//! contract; interpreting a pattern as a machine float is left to callers.

pub mod chunk;
pub mod codec;
pub mod osc;
pub mod sine;
pub mod synth;
pub mod wave;
