use rokoko::common::config::HALF_DEGREE;
use rokoko::common::matrix::{HorizontallyAlignedMatrix, VerticallyAlignedMatrix};
use rokoko::common::ring_arithmetic::{QuadraticExtension, Representation, RingElement};
use rokoko::common::structured_row::{PreprocessedRow, StructuredRow};
use rokoko::protocol::commitment::{commit_basic, commit_basic_internal};
use rokoko::protocol::crs;
use rokoko::protocol::crs_standard;
use rokoko::protocol::fold::fold;
use rokoko::protocol::intermediate_sumchecks::runner_verifier::batch_claims_linear;
use rokoko::protocol::parties::prover::outer_eval_claims;

fn c(v: u64) -> RingElement {
    RingElement::constant(v, Representation::IncompleteNTT)
}

#[test]
fn dense_keys_are_keyed_by_length_and_row() {
    let small = crs_standard::CRS::gen_crs(8, 2);
    let large = crs_standard::CRS::gen_crs(8, 3);
    assert_eq!(small.cks.len(), 3);
    assert!(small.cks[0].is_empty() && small.cks[1].is_empty());
    let a = small.ck_for_wit_dim(8);
    let b = large.ck_for_wit_dim(8);
    assert_eq!(a.len(), 2);
    assert_eq!(b.len(), 3);
    assert_eq!(a[0].preprocessed_row, b[0].preprocessed_row);
    assert_eq!(a[1].preprocessed_row, b[1].preprocessed_row);
    assert_ne!(a[0].preprocessed_row, a[1].preprocessed_row);
    assert_eq!(a[0].preprocessed_row.len(), 8);
    let v = crs_standard::VerifierCRS { cks: small.cks, simple_ck: Vec::new() };
    assert_eq!(v.ck_for_wit_dim(8).len(), 2);
}

#[test]
fn structured_keys_expand_their_layers() {
    let keys = crs::CRS::gen_crs(8, 2);
    assert_eq!(keys.structured_cks.len(), 3);
    assert_eq!(keys.cks.len(), 3);
    for i in 0..3 {
        for j in 0..2 {
            let layers = &keys.structured_cks[i][j];
            assert_eq!(layers.tensor_layers.len(), i + 1);
            let expanded = PreprocessedRow::from_structured_row(layers);
            assert_eq!(expanded.preprocessed_row, keys.cks[i][j].preprocessed_row);
        }
    }
    // the key of 2^i entries uses the last i layers of each row
    assert_eq!(keys.structured_cks[0][1].tensor_layers[0], keys.structured_cks[2][1].tensor_layers[2]);
    assert_eq!(keys.ck_for_wit_dim(4).len(), 2);
    assert_eq!(keys.structured_ck_for_wit_dim(4)[0].tensor_layers.len(), 2);
    let v = crs::VerifierCRS { structured_cks: keys.structured_cks };
    assert_eq!(v.structured_ck_for_wit_dim(2)[1].tensor_layers.len(), 1);
}

#[test]
fn tensor_rows_expand_most_significant_first() {
    let a = c(3);
    let b = c(5);
    let one = c(1);
    let row = PreprocessedRow::from_structured_row(&StructuredRow { tensor_layers: vec![a.clone(), b.clone()] });
    let na = one.sub(&a);
    let nb = one.sub(&b);
    assert_eq!(row.preprocessed_row, vec![na.mul(&nb), na.mul(&b), a.mul(&nb), a.mul(&b)]);
}

#[test]
fn committing_to_the_fold_folds_the_commitments() {
    let keys = crs_standard::CRS::gen_crs(4, 2);
    let witness = VerticallyAlignedMatrix {
        data: (1..=12).map(c).collect(),
        width: 3,
        height: 4,
        used_cols: 3,
    };
    let challenge = vec![c(2), c(7), c(11)];
    let commitment = commit_basic(&keys, &witness, 2);
    assert_eq!((commitment.height, commitment.width), (2, 3));
    let folded = fold(&witness, &challenge);
    let folded_commitment = commit_basic(&keys, &folded, 2);
    for i in 0..2 {
        let mut expected = RingElement::zero(Representation::IncompleteNTT);
        for col in 0..3 {
            expected = expected.add(&commitment.data[i * 3 + col].mul(&challenge[col]));
        }
        assert_eq!(folded_commitment.data[i], expected);
    }
}

#[test]
fn commitment_pads_rows_to_a_power_of_two() {
    let keys = crs_standard::CRS::gen_crs(2, 3);
    let witness = VerticallyAlignedMatrix { data: vec![c(1), c(2)], width: 1, height: 2, used_cols: 1 };
    let commitment = commit_basic_internal(keys.ck_for_wit_dim(2), &witness, 3);
    assert_eq!((commitment.height, commitment.width), (4, 1));
    assert_eq!(commitment.data[3], RingElement::zero(Representation::IncompleteNTT));
    let key = &keys.ck_for_wit_dim(2)[2].preprocessed_row;
    assert_eq!(commitment.data[2], key[0].mul(&c(1)).add(&key[1].mul(&c(2))));
    let empty = commit_basic_internal(keys.ck_for_wit_dim(2), &witness, 0);
    assert_eq!((empty.height, empty.data.len()), (0, 0));
}

#[test]
fn outer_claims_and_linear_batching() {
    let rhs = HorizontallyAlignedMatrix { data: vec![c(1), c(2), c(3), c(4)], width: 2, height: 2 };
    let points = vec![
        StructuredRow { tensor_layers: vec![c(5)] },
        StructuredRow { tensor_layers: vec![c(0)] },
    ];
    let claims = outer_eval_claims(&rhs, &points);
    // row 0: 1 * (1 - 5) + 2 * 5; row 1: 3 * 1 + 4 * 0
    let one = c(1);
    assert_eq!(claims[0], one.sub(&c(5)).add(&c(10)));
    assert_eq!(claims[1], c(3));

    let combination = vec![c(9), c(2), c(3), c(4)];
    let (batched, next) = batch_claims_linear(&vec![c(10), c(20)], &combination, 1);
    assert_eq!(next, 3);
    assert_eq!(batched, c(10 * 2 + 20 * 3));
}

#[test]
fn ring_elements_split_into_slots() {
    let q = QuadraticExtension { coeffs: [4, 9] };
    let e = RingElement::from_quadratic_extension(&q);
    let slots = e.split_into_quadratic_extensions();
    assert_eq!(slots.len(), HALF_DEGREE);
    assert!(slots.iter().all(|s| *s == q));
}

#[test]
fn structured_key_rows_do_not_depend_on_the_number_of_rows() {
    let small = crs::CRS::gen_crs(8, 2);
    let large = crs::CRS::gen_crs(8, 5);
    for d in [2usize, 4, 8] {
        for j in 0..2 {
            let a = &small.structured_ck_for_wit_dim(d)[j];
            let b = &large.structured_ck_for_wit_dim(d)[j];
            assert_eq!(a.tensor_layers, b.tensor_layers);
            assert_eq!(
                small.ck_for_wit_dim(d)[j].preprocessed_row,
                large.ck_for_wit_dim(d)[j].preprocessed_row
            );
        }
    }
}
