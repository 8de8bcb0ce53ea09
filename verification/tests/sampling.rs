use rokoko::common::config::{HALF_DEGREE, MOD_Q};
use rokoko::common::sampling::{sample_public_vector_from_seed, ELEMENT_BYTES};

/// Reads the stream as the library's layout says: per element, `HALF_DEGREE`
/// slots of two little-endian eight-byte words, each reduced modulo `q`.
fn expected(seed: &[u8], count: usize) -> Vec<Vec<[u64; 2]>> {
    let mut stream = vec![0u8; count * ELEMENT_BYTES];
    let mut hasher = blake3::Hasher::new();
    hasher.update(seed);
    hasher.finalize_xof().fill(&mut stream);
    let word = |off: usize| {
        let mut b = [0u8; 8];
        b.copy_from_slice(&stream[off..off + 8]);
        u64::from_le_bytes(b) % MOD_Q
    };
    (0..count)
        .map(|k| {
            (0..HALF_DEGREE)
                .map(|j| {
                    let off = k * ELEMENT_BYTES + 16 * j;
                    [word(off), word(off + 8)]
                })
                .collect()
        })
        .collect()
}

#[test]
fn public_vectors_read_the_blake3_stream() {
    let seed = b"rokoko-test-seed".to_vec();
    let got = sample_public_vector_from_seed(&seed, 3);
    let want = expected(&seed, 3);
    for (g, w) in got.iter().zip(want.iter()) {
        let slots: Vec<[u64; 2]> = g.slots.iter().map(|s| s.coeffs).collect();
        assert_eq!(&slots, w);
    }
    // a different seed gives a different vector
    let other = sample_public_vector_from_seed(&b"another".to_vec(), 1);
    assert_ne!(other[0], got[0]);
}
