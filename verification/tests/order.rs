use chainstate::order::rank_bytes;
use chainstate::order::rank_entries;
use chainstate::order::Rank;
use chainstate::varint::write_varint;

#[test]
fn bytes_rank_by_the_first_difference() {
    assert_eq!(rank_bytes(&[1, 2, 3], &[1, 2, 4]), Rank::Before);
    assert_eq!(rank_bytes(&[1, 3, 0], &[1, 2, 9]), Rank::After);
    assert_eq!(rank_bytes(&[1, 2, 3], &[1, 2, 3]), Rank::Same);
    assert_eq!(rank_bytes(&[0x7f], &[0x80]), Rank::Before);
}

#[test]
fn a_prefix_ranks_before_what_extends_it() {
    assert_eq!(rank_bytes(&[1, 2], &[1, 2, 0]), Rank::Before);
    assert_eq!(rank_bytes(&[1, 2, 0], &[1, 2]), Rank::After);
    assert_eq!(rank_bytes(&[], &[0]), Rank::Before);
    assert_eq!(rank_bytes(&[], &[]), Rank::Same);
}

#[test]
fn entries_rank_by_txid_then_vout() {
    let low = [0x11u8; 32];
    let mut high = [0x11u8; 32];
    high[31] = 0x12;
    assert_eq!(rank_entries(&low, 9, &high, 0), Rank::Before);
    assert_eq!(rank_entries(&high, 0, &low, 9), Rank::After);
    assert_eq!(rank_entries(&low, 1, &low, 2), Rank::Before);
    assert_eq!(rank_entries(&low, 2, &low, 1), Rank::After);
    assert_eq!(rank_entries(&low, 2, &low, 2), Rank::Same);
}

#[test]
fn encoded_indices_of_one_width_sort_as_the_indices() {
    let pairs = [(0u64, 1u64), (5, 127), (128, 129), (128, 16511), (255, 256), (16512, 16513)];
    for (a, b) in pairs {
        assert_eq!(rank_bytes(&write_varint(a), &write_varint(b)), Rank::Before);
        assert_eq!(rank_bytes(&write_varint(b), &write_varint(a)), Rank::After);
    }
}

#[test]
fn one_byte_indices_sort_before_all_longer_ones() {
    for b in [128u64, 300, 16512, 1 << 40, u64::MAX] {
        assert_eq!(rank_bytes(&write_varint(127), &write_varint(b)), Rank::Before);
    }
}

#[test]
fn three_byte_indices_can_sort_before_two_byte_ones() {
    assert_eq!(rank_bytes(&write_varint(16512), &write_varint(256)), Rank::Before);
}

fn raw_key(txid: &[u8; 32], vout: u64) -> Vec<u8> {
    let mut key = vec![0x43];
    key.extend_from_slice(txid);
    key.extend_from_slice(&write_varint(vout));
    key
}

#[test]
fn raw_keys_sort_as_their_outputs() {
    let low = [0x11u8; 32];
    let mut high = [0x11u8; 32];
    high[7] = 0x12;
    let entries = [(low, 0u64), (low, 1), (low, 127), (low, 128), (low, 16511), (high, 0), (high, 5)];
    for (txid_a, vout_a) in entries {
        for (txid_b, vout_b) in entries {
            assert_eq!(
                rank_bytes(&raw_key(&txid_a, vout_a), &raw_key(&txid_b, vout_b)),
                rank_entries(&txid_a, vout_a, &txid_b, vout_b)
            );
        }
    }
}

#[test]
fn raw_keys_with_long_indices_can_sort_against_their_outputs() {
    let txid = [0x11u8; 32];
    assert_eq!(rank_entries(&txid, 256, &txid, 16512), Rank::Before);
    assert_eq!(rank_bytes(&raw_key(&txid, 256), &raw_key(&txid, 16512)), Rank::After);
}
