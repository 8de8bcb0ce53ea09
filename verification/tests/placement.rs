use rokoko::common::ring_arithmetic::{Representation, RingElement};
use rokoko::protocol::commitment::Prefix;
use rokoko::protocol::placement::{
    block_sizes, CommitmentWithAux, Placement, RecursionConfig, RecursiveCommitmentWithAux,
};

#[test]
fn placement_cuts_a_component_into_its_binary_decomposition() {
    assert_eq!(block_sizes(12), vec![8, 4]);
    assert_eq!(block_sizes(16), vec![16]);
    assert_eq!(block_sizes(1), vec![1]);

    // A size-12 component of a 16-long witness: an 8-block at 0 and a 4-block at 8.
    let placement = Placement {
        size: 12,
        blocks: vec![Prefix { prefix: 0, length: 1 }, Prefix { prefix: 2, length: 2 }],
    };

    assert_eq!(
        placement.blocks_with_offsets(),
        vec![
            (0, 8, Prefix { prefix: 0, length: 1 }),
            (8, 4, Prefix { prefix: 2, length: 2 }),
        ]
    );

    // Three digit planes of length four: two inside the first block, one is the second block.
    assert_eq!(placement.slice(0, 3), Prefix { prefix: 0, length: 2 });
    assert_eq!(placement.slice(1, 3), Prefix { prefix: 1, length: 2 });
    assert_eq!(placement.slice(2, 3), Prefix { prefix: 2, length: 2 });
}

#[test]
fn block_sizes_are_the_set_bits() {
    assert_eq!(block_sizes(0), Vec::<usize>::new());
    assert_eq!(block_sizes(13), vec![8, 4, 1]);
    assert_eq!(block_sizes(1 << 40), vec![1 << 40]);
    let sizes = block_sizes(1000);
    assert_eq!(sizes.iter().sum::<usize>(), 1000);
    assert!(sizes.windows(2).all(|w| w[0] > w[1]));
    assert!(sizes.iter().all(|s| s.is_power_of_two()));
}

#[test]
fn single_blocks_and_slices_inside_them() {
    let p = Placement::single(16, Prefix { prefix: 3, length: 2 });
    assert_eq!(p.block_sizes(), vec![16]);
    assert_eq!(p.blocks_with_offsets(), vec![(0, 16, Prefix { prefix: 3, length: 2 })]);
    // four slices of four: prefix 3 refined by two more bits
    assert_eq!(p.slice(2, 4), Prefix { prefix: 14, length: 4 });
    assert_eq!(p.slice(0, 1), Prefix { prefix: 3, length: 2 });
}

fn config(rows: usize, chunks: usize, next: Option<Box<RecursionConfig>>) -> RecursionConfig {
    RecursionConfig {
        decomposition_base_log: 3,
        decomposition_chunks: chunks,
        rank: 2,
        placements: (0..rows)
            .map(|i| Placement::single(8, Prefix { prefix: i, length: 3 }))
            .collect(),
        next,
    }
}

#[test]
fn recursion_levels_pad_rows_and_planes() {
    let inner = config(1, 2, None);
    let outer = config(3, 3, Some(Box::new(inner)));
    assert_eq!(outer.segments(), 4);
    assert_eq!(outer.padded_chunks(), 4);
    assert_eq!(outer.row_len(), 2);
    assert_eq!(outer.committed_len(), 2 * 4 * 4);
    let innermost = outer.most_inner_config();
    assert_eq!(innermost.decomposition_chunks, 2);
    assert_eq!(innermost.placement().size, 8);
    assert_eq!(config(0, 1, None).segments(), 1);
}

#[test]
fn innermost_commitment_is_the_last_level() {
    let c = |v: u64| RingElement::constant(v, Representation::IncompleteNTT);
    let last = RecursiveCommitmentWithAux {
        decomposition_base_log: 2,
        decomposition_chunks: 1,
        committed_data: vec![c(1)],
        commitment: vec![c(9)],
        next: None,
    };
    let first = RecursiveCommitmentWithAux {
        decomposition_base_log: 3,
        decomposition_chunks: 2,
        committed_data: vec![c(2), c(3)],
        commitment: vec![c(4)],
        next: Some(Box::new(last)),
    };
    assert_eq!(first.most_inner_commitment(), &vec![c(9)]);
    assert_eq!(first.most_inner_commitment_with_aux().decomposition_base_log, 2);
    let with_aux = CommitmentWithAux::from_rc_commitment_with_aux(first);
    assert!(with_aux.witness_i16.is_none());
    assert_eq!(with_aux.rc_commitment_with_aux.commitment, vec![c(4)]);
}
