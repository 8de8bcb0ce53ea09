use rokoko::protocol::config_generator::{AuxConfig, AuxProjection, AuxSumcheckConfig};
use rokoko::protocol::params::{
    decomp_11_last_level, p_1, p_2, p_exact_norm_root_aux, p_int, p_root_aux, p_root_aux_short,
    SizeConfig,
};

/// The sumcheck rounds of a chain from its root, and the final simple round's
/// witness height.
fn rounds(root: AuxSumcheckConfig) -> (Vec<(usize, usize)>, usize) {
    let mut dims = vec![];
    let mut cur = root;
    loop {
        dims.push((cur.witness_height, cur.witness_width));
        match cur.next.map(|b| *b) {
            Some(AuxConfig::Sumcheck(next)) => cur = next,
            Some(AuxConfig::Simple(last)) => return (dims, last.witness_height),
            None => panic!("a chain ends in a simple round"),
        }
    }
}

#[test]
fn plain_medium_chain_levels() {
    let (dims, last) = rounds(p_root_aux(SizeConfig::Medium, 1));
    assert_eq!(dims, vec![(16384, 256), (8192, 16), (1024, 32), (256, 32), (512, 8), (256, 8)]);
    assert_eq!(last, 256);
    assert!(dims.iter().all(|(h, w)| h.is_power_of_two() && w.is_power_of_two()));
}

#[test]
fn short_chains_skip_the_first_set() {
    let (tiny, _) = rounds(p_root_aux_short(SizeConfig::Tiny, 2));
    assert_eq!(tiny[0], (2048, 128));
    assert_eq!(tiny[1], (1024, 32));
    let (micro, _) = rounds(p_root_aux_short(SizeConfig::Micro, 1));
    assert_eq!(micro[0], (1024, 64));
    assert_eq!(micro[1], (512, 32));
}

#[test]
fn exact_norm_chain_goes_through_the_intermediate_set() {
    let root = p_exact_norm_root_aux(SizeConfig::Large, 3);
    assert!(root.exact_projection_norm);
    assert_eq!(root.nof_openings, 3);
    assert_eq!(root.witness_decomposition_base_log, 7);
    let (dims, _) = rounds(root);
    assert_eq!(dims[1], (65536, 32));
    assert_eq!(dims[2], (16384, 16));
    let int = p_int(SizeConfig::Small);
    assert_eq!((int.basic_commitment_rank, int.commitment_recursion.rank), (5, 2));
}

#[test]
fn shapes_follow_the_size_class() {
    let p = p_1(SizeConfig::Medium);
    assert_eq!((p.basic_commitment_rank, p.basic_commitment_diag_blocks), (56, 8));
    match p.projection_recursion {
        AuxProjection::Coarse(r) => assert_eq!((r.decomposition_base_log, r.rank, r.diag_blocks), (9, 32, 16)),
        _ => panic!("p_1 projects coarsely"),
    }
    let q = p_2(SizeConfig::NarrowLarge);
    assert_eq!((q.projection_ratio, q.commitment_recursion.rank), (256, 2));
    match q.projection_recursion {
        AuxProjection::Fine { nof_batches, recursion_constant_term, .. } => {
            assert_eq!((nof_batches, recursion_constant_term.decomposition_base_log), (2, 9))
        }
        _ => panic!("p_2 projects finely"),
    }
    let root = p_root_aux(SizeConfig::Large, 1);
    assert!(matches!(root.projection_recursion, AuxProjection::Skip));
    assert_eq!((root.basic_commitment_rank, root.opening_recursion.diag_blocks), (30, 16));
}

#[test]
fn recursions_end_in_the_eleven_digit_level() {
    let last = decomp_11_last_level();
    assert_eq!((last.decomposition_base_log, last.decomposition_chunks, last.rank), (5, 11, 1));
    assert!(last.next.is_none());
    let p = p_1(SizeConfig::Small);
    let tail = p.commitment_recursion.next.unwrap();
    assert_eq!((tail.decomposition_base_log, tail.decomposition_chunks), (5, 11));
}
