use chainstate::error::DecodeError;
use chainstate::utxo::UtxoRecord;
use chainstate::utxo::WITNESS_V0_KEYHASH;

fn storage_txid() -> [u8; 32] {
    let mut txid = [0u8; 32];
    for (i, byte) in txid.iter_mut().enumerate() {
        *byte = 1 + i as u8;
    }
    txid
}

fn display_txid() -> [u8; 32] {
    let mut txid = [0u8; 32];
    for (i, byte) in txid.iter_mut().enumerate() {
        *byte = 32 - i as u8;
    }
    txid
}

#[test]
fn decodes_a_value_with_script_type_zero() {
    // height 654321, not coinbase; 123456789 satoshis; type 0; twenty script bytes
    let mut value = vec![0xce, 0xee, 0x62, 0x83, 0x90, 0xe7, 0xea, 0x3d, 0x00];
    let script: Vec<u8> = (0xa0u8..0xb4).collect();
    value.extend_from_slice(&script);
    let utxo = UtxoRecord::decode(&storage_txid(), 3, &value).unwrap();
    assert_eq!(
        utxo,
        UtxoRecord {
            txid: display_txid(),
            vout: 3,
            is_coinbase: false,
            height: 654_321,
            amount: 123_456_789,
            script_type: 0,
            script,
        }
    );
}

#[test]
fn decodes_a_coinbase_value() {
    // height 100000 with the coinbase bit: 200001; fifty coins; type 28
    let mut value = vec![0x8b, 0x99, 0x41, 0x32, 0x1c, 0x00, 0x14];
    let hash: Vec<u8> = (0x40u8..0x54).collect();
    value.extend_from_slice(&hash);
    let utxo = UtxoRecord::decode(&storage_txid(), 0, &value).unwrap();
    assert!(utxo.is_coinbase);
    assert_eq!(utxo.height, 100_000);
    assert_eq!(utxo.amount, 5_000_000_000);
    assert_eq!(utxo.script_type, 28);
    assert_eq!(utxo.vout, 0);
    assert_eq!(utxo.txid, display_txid());
}

#[test]
fn script_of_a_non_zero_type_starts_on_the_type_byte() {
    // Without the step back the script would start at 0xbb and lose 0x05.
    let value = [0x02, 0x01, 0x05, 0xbb, 0xcc];
    let utxo = UtxoRecord::decode(&storage_txid(), 0, &value).unwrap();
    assert_eq!(utxo.script_type, 5);
    assert_eq!(utxo.script, vec![0x05, 0xbb, 0xcc]);
    assert_eq!(utxo.script[1], 0xbb);
}

#[test]
fn script_of_a_long_non_zero_type_starts_on_its_last_byte() {
    // Script type 300 takes two bytes; only the second is kept.
    let value = [0x02, 0x01, 0x81, 0x2c, 0xbb];
    let utxo = UtxoRecord::decode(&storage_txid(), 0, &value).unwrap();
    assert_eq!(utxo.script_type, 300);
    assert_eq!(utxo.script, vec![0x2c, 0xbb]);
}

#[test]
fn script_of_type_zero_starts_behind_the_type_byte() {
    let value = [0x02, 0x01, 0x00, 0xbb, 0xcc];
    let utxo = UtxoRecord::decode(&storage_txid(), 0, &value).unwrap();
    assert_eq!(utxo.script_type, 0);
    assert_eq!(utxo.script, vec![0xbb, 0xcc]);
}

#[test]
fn value_of_three_integers_has_an_empty_or_one_byte_script() {
    let utxo = UtxoRecord::decode(&storage_txid(), 0, &[0x00, 0x00, 0x00]).unwrap();
    assert_eq!(utxo.height, 0);
    assert!(!utxo.is_coinbase);
    assert_eq!(utxo.amount, 0);
    assert_eq!(utxo.script, Vec::<u8>::new());
    let utxo = UtxoRecord::decode(&storage_txid(), 0, &[0x01, 0x01, 0x01]).unwrap();
    assert_eq!(utxo.height, 0);
    assert!(utxo.is_coinbase);
    assert_eq!(utxo.amount, 1);
    assert_eq!(utxo.script, vec![0x01]);
}

#[test]
fn height_and_coinbase_share_the_first_integer() {
    let utxo = UtxoRecord::decode(&storage_txid(), 0, &[0x07, 0x00, 0x00]).unwrap();
    assert_eq!(utxo.height, 3);
    assert!(utxo.is_coinbase);
    let utxo = UtxoRecord::decode(&storage_txid(), 0, &[0x06, 0x00, 0x00]).unwrap();
    assert_eq!(utxo.height, 3);
    assert!(!utxo.is_coinbase);
}

#[test]
fn value_that_ends_early_is_malformed() {
    let txid = storage_txid();
    assert_eq!(UtxoRecord::decode(&txid, 0, &[]), Err(DecodeError::MalformedUtxoValue));
    assert_eq!(UtxoRecord::decode(&txid, 0, &[0x02]), Err(DecodeError::MalformedUtxoValue));
    assert_eq!(
        UtxoRecord::decode(&txid, 0, &[0x02, 0x01]),
        Err(DecodeError::MalformedUtxoValue)
    );
    assert_eq!(
        UtxoRecord::decode(&txid, 0, &[0x02, 0x01, 0x80]),
        Err(DecodeError::MalformedUtxoValue)
    );
}

#[test]
fn value_with_an_integer_out_of_range_is_malformed() {
    let mut value = vec![0x02];
    value.extend_from_slice(&[0xff; 10]);
    value.extend_from_slice(&[0x00, 0x00]);
    assert_eq!(
        UtxoRecord::decode(&storage_txid(), 0, &value),
        Err(DecodeError::MalformedUtxoValue)
    );
}

#[test]
fn witness_keyhash_is_the_script_behind_its_prefix() {
    let mut value = vec![0x8b, 0x99, 0x41, 0x32, 0x1c, 0x00, 0x14];
    let hash: Vec<u8> = (0x40u8..0x54).collect();
    value.extend_from_slice(&hash);
    let utxo = UtxoRecord::decode(&storage_txid(), 0, &value).unwrap();
    assert_eq!(utxo.script_type, WITNESS_V0_KEYHASH);
    assert_eq!(utxo.script.len(), 23);
    assert_eq!(&utxo.script[..3], &[0x1c, 0x00, 0x14]);
    assert_eq!(utxo.witness_keyhash(), Some(hash));
}

#[test]
fn other_records_have_no_witness_keyhash() {
    let txid = storage_txid();
    let mut value = vec![0x02, 0x01, 0x00];
    value.extend_from_slice(&[0x77; 23]);
    let utxo = UtxoRecord::decode(&txid, 0, &value).unwrap();
    assert_eq!(utxo.script.len(), 23);
    assert_eq!(utxo.witness_keyhash(), None);
    // The witness type with a script that is too short for a hash.
    let utxo = UtxoRecord::decode(&txid, 0, &[0x02, 0x01, 0x1c, 0x00, 0x14, 0x01]).unwrap();
    assert_eq!(utxo.script_type, 28);
    assert_eq!(utxo.witness_keyhash(), None);
}
