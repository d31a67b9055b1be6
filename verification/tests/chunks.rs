use twang::chunk::{Chunk, CHUNK_LEN};

fn sample_values() -> Vec<f32> {
    (0..CHUNK_LEN).map(|i| (i as f32 - 16.0) / 16.0).collect()
}

#[test]
fn invert_negates_every_sample() {
    let values = sample_values();
    let bits: Vec<u32> = values.iter().map(|v| v.to_bits()).collect();
    let mut chunk = Chunk::from_samples(bits);
    chunk.invert();
    assert_eq!(chunk.len(), CHUNK_LEN);
    for i in 0..CHUNK_LEN {
        assert_eq!(f32::from_bits(chunk.get(i)), -values[i]);
    }
}

#[test]
fn invert_twice_restores_chunk() {
    let bits: Vec<u32> = sample_values().iter().map(|v| v.to_bits()).collect();
    let mut chunk = Chunk::from_samples(bits.clone());
    chunk.invert();
    chunk.invert();
    for i in 0..CHUNK_LEN {
        assert_eq!(chunk.get(i), bits[i]);
    }
}

#[test]
fn amplify_by_one_is_identity() {
    // The gain stage runs on the float view of a chunk; a factor of 1.0
    // returns every sample bit-for-bit.
    let bits: Vec<u32> = sample_values().iter().map(|v| v.to_bits()).collect();
    let chunk = Chunk::from_samples(bits.clone());
    for i in 0..CHUNK_LEN {
        let amplified = f32::from_bits(chunk.get(i)) * 1.0;
        assert_eq!(amplified.to_bits(), bits[i]);
    }
}

#[test]
fn cosine_of_silence_is_all_one() {
    // The cosine stage runs on the float view of a chunk; on silence it
    // yields 1.0 at every position.
    let chunk = Chunk::silence();
    assert_eq!(chunk.len(), CHUNK_LEN);
    for i in 0..CHUNK_LEN {
        let shaped = f32::from_bits(chunk.get(i)).cos();
        assert_eq!(shaped, 1.0);
    }
}
