use rokoko::protocol::boundary::BoundaryCapture;
use rokoko::protocol::evaluation_point_sampler::decomposition_selector_layers_and_scale;
use rokoko::common::arithmetic::{checked_inv_mod, inv_mod, pow_mod};
use rokoko::common::config::MOD_Q;
use rokoko::common::matrix::VerticallyAlignedMatrix;
use rokoko::common::projection_matrix::ProjectionMatrix;
use rokoko::common::ring_arithmetic::{Representation, RingElement};
use rokoko::protocol::config::{paste_by_prefix, slice_by_prefix, ConfigBase, SimpleConfig};
use rokoko::protocol::params::{compiled_size, shape, SizeConfig};
use rokoko::protocol::project::build_plan;
use rokoko::protocol::project_coarse::project_ring;
use rokoko::protocol::sumcheck_utils::profile::{print_and_reset, timer, GadgetKind};

fn c(v: u64) -> RingElement {
    RingElement::constant(v, Representation::IncompleteNTT)
}

#[test]
fn powers_and_inverses_modulo_q() {
    assert_eq!(pow_mod(2, 10), 1024);
    assert_eq!(pow_mod(2, 61), 1);
    assert_eq!(pow_mod(3, 0), 1);
    assert_eq!(pow_mod(MOD_Q + 5, 2), 25);
    let inv = inv_mod(2);
    assert_eq!(inv, 1152921504606846976);
    assert_eq!((inv as u128 * 2 % MOD_Q as u128) as u64, 1);
    let x = 123456789u64;
    let ix = inv_mod(x);
    assert_eq!((ix as u128 * x as u128 % MOD_Q as u128) as u64, 1);
}

#[test]
fn size_classes() {
    assert_eq!(compiled_size(), SizeConfig::Medium);
    assert_eq!(SizeConfig::Tiny.pick(1, 2, 3, 4), 1);
    assert_eq!(SizeConfig::Medium.pick(1, 2, 3, 4), 2);
    assert_eq!(SizeConfig::NarrowLarge.pick(1, 2, 3, 4), 3);
    assert_eq!(SizeConfig::Large.pick(1, 2, 3, 4), 4);
    let b = shape(4, 8);
    assert_eq!((b.blocks, b.rank), (4, 8));
    let simple = SimpleConfig {
        witness_height: 256,
        witness_width: 4,
        projection_ratio: 128,
        projection_height: 256,
        projection_nof_batches: 2,
        basic_commitment_rank: 4,
    };
    assert_eq!(simple.witness_height(), 256);
    assert_eq!(simple.witness_width(), 4);
    assert_eq!(simple.projection_ratio(), 128);
    assert_eq!(simple.projection_height(), 256);
    assert_eq!(simple.basic_commitment_rank(), 4);
}

#[test]
fn gadget_names() {
    assert_eq!(GadgetKind::Linear.name(), "LinearSumcheck");
    assert_eq!(GadgetKind::RingToField.name(), "RingToFieldCombiner");
    assert_eq!(GadgetKind::Unknown.name(), "unknown");
    assert!(GadgetKind::Combiner.is_container());
    assert!(GadgetKind::Diff.is_container());
    assert!(!GadgetKind::Product.is_container());
    let _guard = timer(GadgetKind::Sum);
    print_and_reset("round");
}

fn small_projection() -> ProjectionMatrix {
    // 2 rows of length ratio * height = 4: [+1, 0, -1, +1], [0, -1, 0, +1]
    ProjectionMatrix {
        projection_ratio: 2,
        projection_height: 2,
        entries: vec![
            (true, true), (false, false), (false, true), (true, true),
            (true, false), (false, true), (true, false), (true, true),
        ],
    }
}

#[test]
fn projection_plans_list_signed_columns() {
    let plan = build_plan(&small_projection());
    assert_eq!(plan.projection_ratio, 2);
    assert_eq!(plan.rows[0].pos, vec![0, 3]);
    assert_eq!(plan.rows[0].neg, vec![2]);
    assert_eq!(plan.rows[1].pos, vec![3]);
    assert_eq!(plan.rows[1].neg, vec![1]);
}

#[test]
fn ring_projection_applies_the_matrix_per_chunk() {
    let witness = VerticallyAlignedMatrix {
        data: (1..=16).map(c).collect(),
        width: 2,
        height: 8,
        used_cols: 2,
    };
    let image = project_ring(&witness, &small_projection());
    assert_eq!((image.height, image.width), (4, 2));
    let expect = |w: &[u64]| -> Vec<RingElement> {
        vec![
            c(w[0]).sub(&c(w[2])).add(&c(w[3])),
            RingElement::zero(Representation::IncompleteNTT).sub(&c(w[1])).add(&c(w[3])),
        ]
    };
    let col0: Vec<u64> = (1..=8).collect();
    let col1: Vec<u64> = (9..=16).collect();
    let mut expected = Vec::new();
    expected.extend(expect(&col0[0..4]));
    expected.extend(expect(&col0[4..8]));
    expected.extend(expect(&col1[0..4]));
    expected.extend(expect(&col1[4..8]));
    assert_eq!(image.data, expected);
}

#[test]
fn boundary_capture_counts_down_to_its_cut() {
    let mut slot: Option<u32> = None;
    let capture = BoundaryCapture { cut: 3, slot: &mut slot };
    assert!(!capture.is_at_cut());
    let capture = capture.advance().expect("two rounds left");
    assert_eq!(capture.cut, 2);
    let capture = capture.advance().expect("one round left");
    assert!(capture.is_at_cut());
    *capture.slot = Some(7);
    assert!(capture.advance().is_none());
    assert_eq!(slot, Some(7));
}

#[test]
fn paste_then_slice_reads_the_block_back() {
    let mut dest: Vec<RingElement> = (0..16).map(|_| c(0)).collect();
    let src: Vec<RingElement> = (1..=4).map(|v| c(v)).collect();
    let prefix = rokoko::protocol::commitment::Prefix { prefix: 2, length: 2 };
    paste_by_prefix(&mut dest, &src, &prefix);
    assert_eq!(slice_by_prefix(&dest, &prefix), src);
    for (i, x) in dest.iter().enumerate() {
        if !(8..12).contains(&i) {
            assert_eq!(x, &c(0));
        }
    }
    let whole = rokoko::protocol::commitment::Prefix { prefix: 0, length: 0 };
    assert_eq!(slice_by_prefix(&dest, &whole), dest);
}

#[test]
fn checked_inverse_exists_exactly_off_zero() {
    assert_eq!(checked_inv_mod(2), Some(1152921504606846976));
    assert_eq!(checked_inv_mod(0), None);
    assert_eq!(checked_inv_mod(MOD_Q), None);
    let x = 987654321u64;
    let ix = checked_inv_mod(x).unwrap();
    assert_eq!((ix as u128 * x as u128 % MOD_Q as u128) as u64, 1);
    assert_eq!(checked_inv_mod(MOD_Q + 2), Some(inv_mod(2)));
}

fn mulq(a: u64, b: u64) -> u64 {
    (a as u128 * b as u128 % MOD_Q as u128) as u64
}

#[test]
fn decomposition_selector_weighs_chunks_by_base_powers() {
    // base 2, four chunks: bits 1 then 0, with base powers 4 and 2
    let (layers, scale) = decomposition_selector_layers_and_scale(1, 4);
    assert_eq!(layers.len(), 2);
    assert_eq!(layers[0], c(mulq(4, inv_mod(5))));
    assert_eq!(layers[1], c(mulq(2, inv_mod(3))));
    assert_eq!(scale, c(inv_mod(15)));
    // one chunk: no layers, unit scale
    let (layers, scale) = decomposition_selector_layers_and_scale(3, 1);
    assert!(layers.is_empty());
    assert_eq!(scale, c(1));
}
