use rokoko::common::matrix::VerticallyAlignedMatrix;
use rokoko::common::ring_arithmetic::{Representation, RingElement};
use rokoko::protocol::fold::fold;

fn c(v: u64) -> RingElement {
    RingElement::constant(v, Representation::IncompleteNTT)
}

#[test]
fn test_fold() {
    let witness = VerticallyAlignedMatrix {
        data: vec![c(1), c(2), c(3), c(4)],
        width: 2,
        height: 2,
        used_cols: 2,
    };

    let fold_challenge = vec![c(2), c(3)];

    let folded_witness = fold(&witness, &fold_challenge);

    assert_eq!(folded_witness.data[0], c(1 * 2 + 3 * 3));
    assert_eq!(folded_witness.data[1], c(2 * 2 + 4 * 3));
}

#[test]
fn fold_skips_unused_columns() {
    let witness = VerticallyAlignedMatrix {
        data: vec![c(1), c(2), c(3), c(4), c(5), c(6)],
        width: 3,
        height: 2,
        used_cols: 2,
    };
    let folded = fold(&witness, &vec![c(1), c(10), c(100)]);
    assert_eq!(folded.height, 2);
    assert_eq!(folded.width, 1);
    assert_eq!(folded.data, vec![c(1 + 30), c(2 + 40)]);
}
