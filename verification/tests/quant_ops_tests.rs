use rpeg::quant_ops::smax;

#[test]
fn smax_of_five_bits_is_fifteen() {
    // (1 << 5) / 2 - 1
    assert_eq!(smax(5), 15);
}

#[test]
fn smax_small_and_edge_widths() {
    assert_eq!(smax(0), -1);
    assert_eq!(smax(1), 0);
    assert_eq!(smax(2), 1);
    assert_eq!(smax(8), 127);
    assert_eq!(smax(16), 32767);
    assert_eq!(smax(30), 536_870_911);
    // at 31 bits the shift reaches the sign bit
    assert_eq!(smax(31), -1_073_741_825);
}

#[test]
fn smax_doubles_plus_one_per_bit() {
    for bits in 1..30 {
        assert_eq!(smax(bits + 1), 2 * smax(bits) + 1);
        assert_eq!(smax(bits), (1i32 << (bits - 1)) - 1);
    }
}
