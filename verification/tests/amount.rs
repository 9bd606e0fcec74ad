use chainstate::amount::decompress_amount;

#[test]
fn zero_stands_for_zero() {
    assert_eq!(decompress_amount(0), 0);
}

#[test]
fn reference_amounts_expand() {
    // One satoshi, one cent, one coin, a block reward and the whole supply.
    assert_eq!(decompress_amount(0x1), 1);
    assert_eq!(decompress_amount(0x7), 1_000_000);
    assert_eq!(decompress_amount(0x9), 100_000_000);
    assert_eq!(decompress_amount(0x32), 5_000_000_000);
    assert_eq!(decompress_amount(0x1406f40), 2_100_000_000_000_000);
}

#[test]
fn amounts_without_trailing_zeros_expand() {
    assert_eq!(decompress_amount(11), 2);
    assert_eq!(decompress_amount(1_111_111_101), 123_456_789);
    assert_eq!(decompress_amount(8_999_999_991), 999_999_999);
}

#[test]
fn amounts_with_some_trailing_zeros_expand() {
    assert_eq!(decompress_amount(1_111_103), 12_345_600);
}

#[test]
fn small_forms_follow_the_formula() {
    // x - 1 = 10 * q + e; for e < 9 the amount is (10 * (q / 9) + q % 9 + 1) * 10^e.
    assert_eq!(decompress_amount(2), 10);
    assert_eq!(decompress_amount(3), 100);
    assert_eq!(decompress_amount(10), 1_000_000_000);
    assert_eq!(decompress_amount(20), 2_000_000_000);
    assert_eq!(decompress_amount(91), 11);
    assert_eq!(decompress_amount(92), 110);
}

#[test]
fn products_wrap_in_64_bits() {
    // The unbounded value is 20496382304121724020000.
    assert_eq!(decompress_amount(u64::MAX), 2_049_638_230_412_174_624);
}
