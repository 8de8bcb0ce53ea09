use rokoko::protocol::params::witness_cols_for_target;

#[test]
fn test_witness_cols_for_target() {
    // p-28-shaped set: 2^13 x 2^8 ring elements = 2^28 Zq coefficients
    assert_eq!(witness_cols_for_target(1 << 13, 1 << 8, 28), 1 << 8);
    // p27 rule: one column-bit fewer
    assert_eq!(witness_cols_for_target(1 << 13, 1 << 8, 27), 1 << 7);
    assert_eq!(witness_cols_for_target(1 << 13, 1 << 8, 25), 1 << 5);
}
