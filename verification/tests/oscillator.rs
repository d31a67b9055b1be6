use std::f32::consts::PI;
use twang::chunk::{Chunk, CHUNK_LEN};
use twang::osc::{freq_phase_bits, Hz, Saw};
use twang::sine::Sine;
use twang::wave::Wave;

#[test]
fn saw_output_is_a_normalized_phase() {
    let saw = Saw::new(Hz(220), 48_000);
    let vars: Vec<u32> = vec![];
    for block in 0..100u64 {
        let chunk = saw.synthesize(block * CHUNK_LEN as u64, CHUNK_LEN as u64, &vars);
        assert_eq!(chunk.len(), CHUNK_LEN);
        for i in 0..CHUNK_LEN {
            let phase = f32::from_bits(chunk.get(i));
            assert!((-1.0..=1.0).contains(&phase));
        }
    }
}

#[test]
fn saw_is_periodic_over_a_whole_period() {
    // 480 Hz divides a 48 kHz rate: one period is exactly 100 ticks, and
    // the phase output repeats exactly, not only within tolerance.
    let saw = Saw::new(Hz(480), 48_000);
    let vars: Vec<u32> = vec![];
    for t in [0u64, 1, 57, 12_345] {
        let now = saw.synthesize(t, CHUNK_LEN as u64, &vars);
        let later = saw.synthesize(t + 100, CHUNK_LEN as u64, &vars);
        for i in 0..CHUNK_LEN {
            assert_eq!(now.get(i), later.get(i));
        }
    }
}

#[test]
fn saw_is_seekable() {
    // Phase is recomputed from elapsed, never accumulated: synthesizing the
    // same tick twice, in any order, reproduces the same chunk.
    let saw = Saw::new(Hz(220), 48_000);
    let vars: Vec<u32> = vec![];
    let first = saw.synthesize(4_000, CHUNK_LEN as u64, &vars);
    let _skip_around = saw.synthesize(0, CHUNK_LEN as u64, &vars);
    let again = saw.synthesize(4_000, CHUNK_LEN as u64, &vars);
    for i in 0..CHUNK_LEN {
        assert_eq!(first.get(i), again.get(i));
    }
}

#[test]
fn freq_phase_matches_saw_samples() {
    let saw = Saw::new(Hz(220), 48_000);
    let vars: Vec<u32> = vec![];
    let chunk = saw.synthesize(7_000, CHUNK_LEN as u64, &vars);
    for i in 0..CHUNK_LEN {
        assert_eq!(chunk.get(i), freq_phase_bits(Hz(220), 48_000, 7_000 + i as u64));
    }
}

/// Applies the floating-point stages of the sine combinator (scale by pi,
/// cosine), then the exact negation, as the combinator prescribes.
fn sine_shape(graph: &Sine<Saw>, elapsed: u64, vars: &Vec<u32>) -> Chunk {
    let phase = graph.0.synthesize(elapsed, CHUNK_LEN as u64, vars);
    let mut shaped: Vec<u32> = Vec::new();
    for i in 0..CHUNK_LEN {
        let x = f32::from_bits(phase.get(i));
        shaped.push((x * PI).cos().to_bits());
    }
    let mut chunk = Chunk::from_samples(shaped);
    chunk.invert();
    chunk
}

#[test]
fn five_seconds_of_sine_shaped_sawtooth() {
    // Five seconds of a 220 Hz sawtooth at 48 kHz, wrapped in the sine
    // combinator: every sample stays in [-1, 1] and the zero-crossing count
    // is within one of 2 * 220 * 5 = 2200.
    let rate: u32 = 48_000;
    let graph = Sine(Saw::new(Hz(220), rate));
    let vars: Vec<u32> = vec![];
    let total: u64 = rate as u64 * 5;
    let mut crossings: u64 = 0;
    let mut prev_sign: i32 = 0;
    let mut elapsed: u64 = 0;
    while elapsed < total {
        let chunk = sine_shape(&graph, elapsed, &vars);
        for i in 0..CHUNK_LEN {
            let v = f32::from_bits(chunk.get(i));
            assert!((-1.0..=1.0).contains(&v));
            let sign: i32 = if v > 0.0 {
                1
            } else if v < 0.0 {
                -1
            } else {
                prev_sign
            };
            if prev_sign != 0 && sign != prev_sign {
                crossings += 1;
            }
            prev_sign = sign;
        }
        elapsed += CHUNK_LEN as u64;
    }
    assert!((2199..=2201).contains(&crossings), "crossings = {}", crossings);
}
