use rokoko::common::config::{HALF_DEGREE, MOD_Q};
use rokoko::common::hash::HashWrapper;
use rokoko::common::matrix::VerticallyAlignedMatrix;
use rokoko::common::ring_arithmetic::{QuadraticExtension, Representation, RingElement};
use rokoko::protocol::commitment::Prefix;
use rokoko::protocol::snark::lowering::{
    checked_weighted_layer, embed_qe, eq_layers_qe, expand_field_tensor, qe_mul, qe_one_minus, tensor_at,
    weighted_layer,
    ClaimExpr, PublicFactor, SnarkClaim, WitnessShape,
};
use rokoko::protocol::snark::{
    challenge_point, checked_powers, eq, eq_weighted_sum, powers, table, witness, witness_in, Region, Scalars,
    WitnessBuilder,
};

fn c(v: u64) -> RingElement {
    RingElement::constant(v, Representation::IncompleteNTT)
}

fn qe(a: u64, b: u64) -> QuadraticExtension {
    QuadraticExtension { coeffs: [a % MOD_Q, b % MOD_Q] }
}

/// Deterministic ring elements with small entries in every slot.
fn short(n: usize, bound: u64) -> Vec<RingElement> {
    let mut state: u64 = 0x2545_f491_4f6c_dd1d;
    (0..n)
        .map(|_| {
            let slots = (0..HALF_DEGREE)
                .map(|_| {
                    state = state.wrapping_mul(6364136223846793005).wrapping_add(1442695040888963407);
                    let r = (state >> 33) % (2 * bound + 1);
                    let v = if r <= bound { r } else { MOD_Q - (r - bound) };
                    QuadraticExtension { coeffs: [v, (state >> 7) % (bound + 1)] }
                })
                .collect();
            RingElement { slots }
        })
        .collect()
}

fn matrix(height: usize, width: usize, data: Vec<RingElement>) -> VerticallyAlignedMatrix<RingElement> {
    VerticallyAlignedMatrix { data, width, height, used_cols: width }
}

fn zero() -> RingElement {
    RingElement::zero(Representation::IncompleteNTT)
}

#[test]
fn test_builder_aligns_regions() {
    let mut layout = WitnessBuilder::new(256, 8);
    let a = layout.push(&short(512, 10));
    let b = layout.push(&short(256, 10));
    let c = layout.push(&short(512, 10));
    assert_eq!((a.start(), a.len()), (0, 512));
    assert_eq!((b.start(), b.len()), (512, 256));
    assert_eq!((c.start(), c.len()), (1024, 512));
    assert_eq!(c.prefix(), Prefix { prefix: 2, length: 2 });
    let (rows, cols) = a.vars().split_at(3);
    assert_eq!((rows.len(), cols.len()), (3, 6));
    let w = layout.finish();
    assert!(w.data[768..1024].iter().all(|x| x == &zero()));
}

#[test]
fn builder_writes_values_at_their_region() {
    let values = short(4, 5);
    let mut layout = WitnessBuilder::new(4, 4);
    let first = layout.push(&short(2, 3));
    let second = layout.push(&values);
    assert_eq!((first.start(), second.start()), (0, 4));
    assert_eq!(second.range(), 4..8);
    assert!(!second.is_empty());
    let w = layout.finish();
    assert_eq!(&w.data[4..8], &values[..]);
    assert_eq!((w.height, w.width, w.used_cols), (4, 4, 4));
}

#[test]
fn region_and_vars() {
    let whole = Region::whole(16);
    assert_eq!((whole.start(), whole.len()), (0, 16));
    let r = Region::new(8, 4, 16);
    let v = r.vars();
    assert_eq!(v.len(), 2);
    assert!(!v.is_empty());
    assert_eq!(r.prefix(), Prefix { prefix: 2, length: 2 });
    assert_eq!(v.leading(1).len(), 1);
    assert_eq!(v.trailing(2).len(), 2);
    assert!(v.split_at(0).0.is_empty());
}

#[test]
fn field_helpers() {
    let a = qe(5, 7);
    let b = qe(3, 2);
    // (5 + 7i)(3 + 2i) = 15 - 14 + (10 + 21) i
    assert_eq!(qe_mul(&a, &b), qe(1, 31));
    assert_eq!(qe_one_minus(&qe(1, 0)), qe(0, 0));
    assert_eq!(qe_one_minus(&a), qe(MOD_Q - 4, MOD_Q - 7));
    assert_eq!(embed_qe(&a), RingElement::from_quadratic_extension(&a));
}

#[test]
fn tensor_entries_match_the_expansion() {
    let layers = vec![qe(3, 1), qe(5, 0), qe(7, 2)];
    let expanded = expand_field_tensor(&layers);
    assert_eq!(expanded.len(), 8);
    for i in 0..8 {
        assert_eq!(expanded[i], embed_qe(&tensor_at(&layers, i)));
    }
    // entry 0b101 = a0 * (1 - a1) * a2
    let expected = qe_mul(&qe_mul(&layers[0], &qe_one_minus(&layers[1])), &layers[2]);
    assert_eq!(tensor_at(&layers, 0b101), expected);
    // eq(a, bits(i)) as eq_layers_qe with a 0/1 point
    let bits = vec![qe(1, 0), qe(0, 0), qe(1, 0)];
    assert_eq!(eq_layers_qe(&layers, &bits), expected);
}

#[test]
fn weighted_layer_recomposes_the_pair() {
    let (a, scale) = weighted_layer(9);
    assert_eq!(scale, 10);
    // (1 + w) * a = w and (1 + w) * (1 - a) = 1
    assert_eq!(qe_mul(&a, &qe(scale, 0)), qe(9, 0));
    assert_eq!(qe_mul(&qe_one_minus(&a), &qe(scale, 0)), qe(1, 0));
}

#[test]
fn powers_weight_is_ratio_to_the_index() {
    let w = powers(3, 3);
    let expr = ClaimExpr::from_weight(w);
    // the weight times the all-ones witness sums to 1 + 3 + ... + 3^7
    let ones = matrix(4, 2, vec![c(1); 8]);
    let total: u64 = (0..8).map(|i| 3u64.pow(i)).sum();
    assert_eq!(expr.mul(witness()).sum(&ones), c(total));
    // and against a unit vector it picks out 3^i
    for i in 0..8 {
        let mut unit = vec![c(0); 8];
        unit[i] = c(1);
        let expr = ClaimExpr::from_weight(powers(3, 3)).mul(witness());
        assert_eq!(expr.sum(&matrix(4, 2, unit)), c(3u64.pow(i as u32)));
    }
}

#[test]
fn table_and_eq_claims_sum_as_dot_products() {
    let data = short(8, 100);
    let weights = short(8, 50);
    let w = matrix(4, 2, data.clone());
    let expr = ClaimExpr::from_weight(table(Scalars::Ring(weights.clone()))).mul(witness());
    let mut direct = zero();
    for (a, x) in weights.iter().zip(data.iter()) {
        direct = direct.add(&a.mul(x));
    }
    assert_eq!(expr.sum(&w), direct);

    let point = vec![qe(2, 1), qe(4, 0), qe(6, 3)];
    let expr = ClaimExpr::from_weight(eq(Scalars::Field(point.clone()))).mul(witness());
    assert_eq!(expr.sum(&w), eq_weighted_sum(&point, &data));
}

#[test]
fn placed_weights_act_on_their_block() {
    let mut layout = WitnessBuilder::new(8, 2);
    let _pad = layout.push(&short(8, 4));
    let region_data = short(8, 7);
    let region = layout.push(&region_data);
    let w = layout.finish();
    let (node, slot) = region.vars().split_at(1);
    let alpha = vec![qe(11, 0)];
    let per_slot: Vec<u64> = (0..4).map(|i| 3 * i + 1).collect();
    let slot_table: Vec<QuadraticExtension> = per_slot.iter().map(|&v| qe(v, 0)).collect();
    let expr = ClaimExpr::from_weight(eq(Scalars::Field(alpha.clone())).on(node))
        .mul(ClaimExpr::from_weight(table(Scalars::Field(slot_table)).on(slot)))
        .mul(witness_in(region));
    // direct: eq(alpha, node bit) * per_slot[slot] * value
    let mut direct = zero();
    for i in 0..8 {
        let node_bit = i / 4;
        let e = if node_bit == 1 { alpha[0] } else { qe_one_minus(&alpha[0]) };
        let weight = embed_qe(&qe_mul(&e, &qe(per_slot[i % 4], 0)));
        direct = direct.add(&weight.mul(&region_data[i]));
    }
    assert_eq!(expr.sum(&w), direct);
}

#[test]
fn conjugate_claim_sums_to_the_conjugate() {
    let data = short(8, 20);
    let w = matrix(4, 2, data);
    let expr = witness().mul(ClaimExpr::constant(c(5))).add(witness().mul(witness()));
    let value = expr.sum(&w);
    let expr = witness().mul(ClaimExpr::constant(c(5))).add(witness().mul(witness()));
    assert_eq!(expr.conjugate().sum(&w), value.conjugate());
}

#[test]
fn segments_sum_over_their_block_only() {
    let data = short(8, 9);
    let w = matrix(4, 2, data.clone());
    let seg = ClaimExpr::segment(Prefix { prefix: 1, length: 1 });
    let mut direct = zero();
    for x in &data[4..8] {
        direct = direct.add(x);
    }
    assert_eq!(seg.sum(&w), direct);
    let selector = ClaimExpr::public(PublicFactor::selector(1, 1)).mul(witness());
    assert_eq!(selector.sum(&w), direct);
    let diff = ClaimExpr::segment(Prefix { prefix: 1, length: 1 })
        .sub(ClaimExpr::public(PublicFactor::selector(1, 1)).mul(witness()));
    assert_eq!(diff.sum(&w), zero());
    let neg = witness().neg();
    assert_eq!(neg.sum(&w).add(&witness().sum(&w)), zero());
}

#[test]
fn claims_keep_their_value() {
    let claim = SnarkClaim::sums_to(witness(), c(7));
    assert_eq!(claim.value(), &c(7));
    let zero_claim = SnarkClaim::sums_to_zero(witness());
    assert_eq!(zero_claim.value(), &zero());
    let shape = WitnessShape::new(4, 2);
    assert_eq!((shape.height, shape.width), (4, 2));
}

#[test]
fn challenges_follow_the_transcript() {
    let mut t1 = HashWrapper::new();
    let mut t2 = HashWrapper::new();
    let p1 = challenge_point(&mut t1, 3);
    let p2 = challenge_point(&mut t2, 3);
    assert_eq!(p1, p2);
    assert_ne!(p1[0], p1[1]);
    t1.update_with_ring_element(&c(1));
    t2.update_with_ring_element(&c(2));
    assert_ne!(challenge_point(&mut t1, 1), challenge_point(&mut t2, 1));
}

#[test]
fn eq_on_a_region_sums_to_the_eq_weighted_sum() {
    let mut layout = WitnessBuilder::new(8, 2);
    let _pad = layout.push(&short(8, 4));
    let values = short(8, 7);
    let region = layout.push(&values);
    let w = layout.finish();
    let point = vec![qe(3, 1), qe(5, 0), qe(9, 2)];
    let expr = ClaimExpr::from_weight(eq(Scalars::Field(point.clone())).on(region.vars()))
        .mul(witness_in(region));
    assert_eq!(expr.sum(&w), eq_weighted_sum(&point, &values));
}

#[test]
fn pushed_blocks_read_back_and_gaps_stay_zero() {
    let a = short(512, 10);
    let b = short(256, 7);
    let d = short(512, 3);
    let mut layout = WitnessBuilder::new(256, 8);
    let ra = layout.push(&a);
    let rb = layout.push(&b);
    let rd = layout.push(&d);
    let w = layout.finish();
    assert_eq!(&w.data[ra.range()], &a[..]);
    assert_eq!(&w.data[rb.range()], &b[..]);
    assert_eq!(&w.data[rd.range()], &d[..]);
    assert!(w.data[768..1024].iter().all(|x| x == &zero()));
    assert!(w.data[1536..2048].iter().all(|x| x == &zero()));
}

#[test]
fn checked_weighted_layer_refuses_minus_one() {
    assert_eq!(checked_weighted_layer(MOD_Q - 1), None);
    assert_eq!(checked_weighted_layer(2 * MOD_Q - 1), None);
    let (a, scale) = checked_weighted_layer(9).unwrap();
    let (a2, scale2) = weighted_layer(9);
    assert_eq!((a, scale), (a2, scale2));
}

#[test]
fn checked_powers_matches_powers() {
    let w = checked_powers(3, 3).unwrap();
    let ones = matrix(4, 2, vec![c(1); 8]);
    let total: u64 = (0..8).map(|i| 3u64.pow(i)).sum();
    assert_eq!(ClaimExpr::from_weight(w).mul(witness()).sum(&ones), c(total));
    // 1 + (q - 1)^(2^0) = 0: the lowest pair is undefined
    assert!(checked_powers(MOD_Q - 1, 2).is_none());
    assert!(checked_powers(5, 0).is_some());
}
