use rokoko::common::config::{HALF_DEGREE, MOD_Q};
use rokoko::common::matrix::VerticallyAlignedMatrix;
use rokoko::common::ring_arithmetic::{QuadraticExtension, Representation, RingElement};
use rokoko::common::structured_row::PreprocessedRow;
use rokoko::protocol::commitment::commit_basic;
use rokoko::protocol::crs_standard::CRS;

/// A deterministic matrix of short entries (coefficients in `[-bound, bound]`).
fn short_matrix(width: usize, height: usize, bound: u64) -> VerticallyAlignedMatrix<RingElement> {
    let mut state: u64 = 0x9e37_79b9_7f4a_7c15;
    let mut data = Vec::with_capacity(width * height);
    for _ in 0..width * height {
        let mut slots = Vec::with_capacity(HALF_DEGREE);
        for _ in 0..HALF_DEGREE {
            state = state.wrapping_mul(6364136223846793005).wrapping_add(1442695040888963407);
            let r = (state >> 33) % (2 * bound + 1);
            let c = if r <= bound { r } else { MOD_Q - (r - bound) };
            slots.push(QuadraticExtension { coeffs: [c, 0] });
        }
        data.push(RingElement { slots });
    }
    VerticallyAlignedMatrix { data, width, height, used_cols: width }
}

#[test]
pub fn commit_verify() {
    let wit_len = 1 << 16;
    let module_size = 4;
    let crs = CRS::gen_crs(wit_len, module_size);

    let reps = 1;
    let witness = short_matrix(reps, wit_len, 2);
    let commitment = commit_basic(&crs, &witness, module_size);

    let statement = crs.ck_for_wit_dim(wit_len);
    let recomputed = rokoko::protocol::commitment::commit_basic_internal(statement, &witness, module_size);
    assert_eq!(recomputed.data, commitment.data);
    assert_eq!(commitment.height, module_size);
    assert_eq!(commitment.width, reps);
}

#[test]
fn test_commitment_computation() {
    let c = |v: u64| RingElement::constant(v, Representation::IncompleteNTT);
    let ck = vec![
        PreprocessedRow { preprocessed_row: [1, 2, 4, 8, 16, 32, 64, 128].iter().map(|&v| c(v)).collect() },
        PreprocessedRow {
            preprocessed_row: [1, 4, 16, 64, 256, 1024, 4096, 16384].iter().map(|&v| c(v)).collect(),
        },
    ];
    let witness = VerticallyAlignedMatrix {
        data: (1..=16).map(|v| c(v)).collect(),
        width: 2,
        height: 8,
        used_cols: 2,
    };
    let commitment = rokoko::protocol::commitment::commit_basic_internal(&ck, &witness, 2);
    // entry (row, col) of the row-major result
    let at = |row: usize, col: usize| &commitment.data[row * commitment.width + col];
    assert_eq!(at(0, 0), &c(1 * 1 + 2 * 2 + 4 * 3 + 8 * 4 + 16 * 5 + 32 * 6 + 64 * 7 + 128 * 8));
    assert_eq!(at(0, 1), &c(1 * 9 + 2 * 10 + 4 * 11 + 8 * 12 + 16 * 13 + 32 * 14 + 64 * 15 + 128 * 16));
    assert_eq!(
        at(1, 0),
        &c(1 * 1 + 4 * 2 + 16 * 3 + 64 * 4 + 256 * 5 + 1024 * 6 + 4096 * 7 + 16384 * 8)
    );
    assert_eq!(
        at(1, 1),
        &c(1 * 9 + 4 * 10 + 16 * 11 + 64 * 12 + 256 * 13 + 1024 * 14 + 4096 * 15 + 16384 * 16)
    );
}
