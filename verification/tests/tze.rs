//! End-to-end tests of the TZE wire codec: round trips, exact byte layouts,
//! bound enforcement, canonical-minimality and truncation failures.

use zebra_tze::amount::Amount;
use zebra_tze::serialization::{read_compact_size, write_compact_size, SerializationError};
use zebra_tze::stwo::{extract_proof_bytes, stwo_mode_supported, stwo_modes_supported, ExtractError};
use zebra_tze::tze::{empty_bundle, Bundle, Data, ExtensionId, Mode, OutPoint, TxHash, TzeIn, TzeOut};

fn sample_data(ext: u64, mode: u64, payload: Vec<u8>) -> Data {
    Data { extension_id: ExtensionId(ext), mode: Mode(mode), payload }
}

fn encode_data(d: &Data) -> Vec<u8> {
    let mut out = Vec::new();
    d.zcash_serialize(&mut out);
    out
}

fn encode_bundle(b: &Bundle) -> Vec<u8> {
    let mut out = Vec::new();
    b.zcash_serialize(&mut out);
    out
}

#[test]
fn compact_size_small_values_are_one_byte() {
    let mut out = Vec::new();
    write_compact_size(&mut out, 0);
    write_compact_size(&mut out, 252);
    assert_eq!(out, vec![0x00, 0xFC]);
    assert_eq!(read_compact_size(&out, 0), Ok((0, 1)));
    assert_eq!(read_compact_size(&out, 1), Ok((252, 2)));
}

#[test]
fn compact_size_larger_classes_round_trip() {
    for v in [253u64, 0xFFFF, 0x1_0000, 0xFFFF_FFFF, 0x1_0000_0000, u64::MAX] {
        let mut out = Vec::new();
        write_compact_size(&mut out, v);
        assert_eq!(read_compact_size(&out, 0), Ok((v, out.len())));
    }
}

#[test]
fn compact_size_rejects_non_minimal_encodings() {
    // 1 encoded in nine bytes instead of one
    let nine = vec![0xFF, 1, 0, 0, 0, 0, 0, 0, 0];
    assert_eq!(read_compact_size(&nine, 0), Err(SerializationError::NonCanonical));
    // 252 encoded in three bytes instead of one
    let three = vec![0xFD, 252, 0];
    assert_eq!(read_compact_size(&three, 0), Err(SerializationError::NonCanonical));
    // 0xFFFF encoded in five bytes instead of three
    let five = vec![0xFE, 0xFF, 0xFF, 0, 0];
    assert_eq!(read_compact_size(&five, 0), Err(SerializationError::NonCanonical));
    // the smallest value of each class is accepted
    assert_eq!(read_compact_size(&vec![0xFD, 253, 0], 0), Ok((253, 3)));
    assert_eq!(read_compact_size(&vec![0xFE, 0, 0, 1, 0], 0), Ok((0x1_0000, 5)));
}

#[test]
fn compact_size_rejects_truncated_value_fields() {
    assert_eq!(read_compact_size(&vec![], 0), Err(SerializationError::UnexpectedEof));
    assert_eq!(read_compact_size(&vec![0xFD, 1], 0), Err(SerializationError::UnexpectedEof));
    assert_eq!(
        read_compact_size(&vec![0xFE, 1, 2, 3], 0),
        Err(SerializationError::UnexpectedEof)
    );
    assert_eq!(
        read_compact_size(&vec![0xFF, 1, 2, 3, 4, 5, 6, 7], 0),
        Err(SerializationError::UnexpectedEof)
    );
}

#[test]
fn data_encodes_to_exact_bytes_and_round_trips() {
    let d = sample_data(5, 2, vec![1, 2, 3]);
    let out = encode_data(&d);
    assert_eq!(out, vec![5, 2, 3, 1, 2, 3]);
    let (back, end) = Data::zcash_deserialize(&out, 0).expect("canonical bytes decode");
    assert_eq!(back, d);
    assert_eq!(end, out.len());
}

#[test]
fn data_truncated_payload_fails_with_eof() {
    // declared payload length 5, but only one byte remains
    let bytes = vec![1, 2, 5, 0xAA];
    assert_eq!(
        Data::zcash_deserialize(&bytes, 0),
        Err(SerializationError::UnexpectedEof)
    );
}

#[test]
fn data_payload_is_empty() {
    assert!(sample_data(1, 1, vec![]).payload_is_empty());
    assert!(!sample_data(1, 1, vec![0]).payload_is_empty());
}

#[test]
fn outpoint_round_trips_with_fixed_layout() {
    let o = OutPoint { hash: TxHash([0xAB; 32]), index: 0x01020304 };
    let mut out = Vec::new();
    o.zcash_serialize(&mut out);
    assert_eq!(out.len(), 36);
    assert_eq!(&out[..32], &[0xAB; 32]);
    // little-endian index
    assert_eq!(&out[32..], &[0x04, 0x03, 0x02, 0x01]);
    let (back, end) = OutPoint::zcash_deserialize(&out, 0).expect("canonical bytes decode");
    assert_eq!(back, o);
    assert_eq!(end, 36);
}

#[test]
fn outpoint_truncated_fails_with_eof() {
    let bytes = vec![0u8; 35];
    assert_eq!(
        OutPoint::zcash_deserialize(&bytes, 0),
        Err(SerializationError::UnexpectedEof)
    );
}

#[test]
fn outpoint_from_usize_keeps_fields() {
    let o = OutPoint::from_usize(TxHash([7; 32]), 12);
    assert_eq!(o.index, 12);
    assert_eq!(o.hash, TxHash([7; 32]));
}

#[test]
fn tzein_concrete_scenario_round_trips() {
    // the STWO extension id needs the five-byte varint class, so the witness
    // data is 5 + 1 + (1 + 1) bytes and the whole input 32 + 4 + 8 bytes
    let t = TzeIn {
        prevout: OutPoint { hash: TxHash([0u8; 32]), index: 0 },
        witness: sample_data(0x5354_574F, 0, vec![1]),
    };
    let mut out = Vec::new();
    t.zcash_serialize(&mut out);
    assert_eq!(out.len(), 44);
    let (back, end) = TzeIn::zcash_deserialize(&out, 0).expect("canonical bytes decode");
    assert_eq!(back, t);
    assert_eq!(end, 44);
}

#[test]
fn tzein_small_ids_encode_to_forty_bytes() {
    let t = TzeIn {
        prevout: OutPoint { hash: TxHash([0u8; 32]), index: 0 },
        witness: sample_data(7, 0, vec![1]),
    };
    let mut out = Vec::new();
    t.zcash_serialize(&mut out);
    // 32 + 4 + (1 + 1 + (1 + 1))
    assert_eq!(out.len(), 40);
    let (back, _) = TzeIn::zcash_deserialize(&out, 0).expect("canonical bytes decode");
    assert_eq!(back, t);
}

#[test]
fn tzeout_rejects_negative_value_and_accepts_zero() {
    // raw value -1 (all ones in two's complement), then a minimal Data
    let mut neg = vec![0xFF; 8];
    neg.extend_from_slice(&[0, 0, 0]);
    assert_eq!(
        TzeOut::zcash_deserialize(&neg, 0),
        Err(SerializationError::MalformedValue)
    );
    // raw value 0 with the same Data decodes
    let mut zero = vec![0x00; 8];
    zero.extend_from_slice(&[0, 0, 0]);
    let (out, end) = TzeOut::zcash_deserialize(&zero, 0).expect("zero value is valid");
    assert_eq!(out.value.zatoshis(), 0);
    assert_eq!(end, 11);
}

#[test]
fn tzeout_round_trips() {
    let t = TzeOut {
        value: Amount::from_i64(123_456).expect("non-negative"),
        precondition: sample_data(300, 1, vec![0xDE, 0xAD]),
    };
    let mut out = Vec::new();
    t.zcash_serialize(&mut out);
    let (back, end) = TzeOut::zcash_deserialize(&out, 0).expect("canonical bytes decode");
    assert_eq!(back, t);
    assert_eq!(end, out.len());
}

#[test]
fn amount_rejects_negative_input() {
    assert!(Amount::from_i64(-1).is_none());
    assert_eq!(Amount::from_i64(5).expect("non-negative").zatoshis(), 5);
}

#[test]
fn empty_bundle_encodes_to_two_zero_bytes() {
    let b = empty_bundle();
    let out = encode_bundle(&b);
    assert_eq!(out, vec![0, 0]);
    let (back, end) = Bundle::zcash_deserialize(&out, 0).expect("canonical bytes decode");
    assert_eq!(back, b);
    assert_eq!(end, 2);
}

#[test]
fn bundle_round_trips() {
    let b = Bundle {
        inputs: vec![TzeIn {
            prevout: OutPoint { hash: TxHash([3; 32]), index: 1 },
            witness: sample_data(0x5354_574F, 0, vec![1, 2, 3, 4]),
        }],
        outputs: vec![
            TzeOut {
                value: Amount::from_i64(1).expect("non-negative"),
                precondition: sample_data(0x5354_574F, 0, vec![]),
            },
            TzeOut {
                value: Amount::from_i64(i64::MAX).expect("non-negative"),
                precondition: sample_data(65_536, 400, vec![9; 300]),
            },
        ],
    };
    let out = encode_bundle(&b);
    let (back, end) = Bundle::zcash_deserialize(&out, 0).expect("canonical bytes decode");
    assert_eq!(back, b);
    assert_eq!(end, out.len());
}

#[test]
fn bundle_rejects_oversized_input_count() {
    // (2_000_000 / 39) + 1 = 51283 = 0xC853, as a three-byte varint
    assert_eq!(TzeIn::max_allocation(), 51_282);
    let bytes = vec![0xFD, 0x53, 0xC8];
    assert_eq!(
        Bundle::zcash_deserialize(&bytes, 0),
        Err(SerializationError::DisallowedVectorLength)
    );
    // one below the limit passes the bound check and fails only later,
    // on the missing elements
    let ok_count = vec![0xFD, 0x52, 0xC8];
    assert_eq!(
        Bundle::zcash_deserialize(&ok_count, 0),
        Err(SerializationError::UnexpectedEof)
    );
}

#[test]
fn bundle_rejects_oversized_output_count() {
    // (2_000_000 / 11) + 1 = 181819 = 0x2C63B, as a five-byte varint,
    // after an empty input list
    assert_eq!(TzeOut::max_allocation(), 181_818);
    let bytes = vec![0x00, 0xFE, 0x3B, 0xC6, 0x02, 0x00];
    assert_eq!(
        Bundle::zcash_deserialize(&bytes, 0),
        Err(SerializationError::DisallowedVectorLength)
    );
}

#[test]
fn bundle_max_allocation_is_one() {
    assert_eq!(Bundle::max_allocation(), 1);
}

#[test]
fn stwo_supports_only_mode_zero() {
    assert!(stwo_mode_supported(0));
    assert!(!stwo_mode_supported(1));
    let good = sample_data(0x5354_574F, 0, vec![1]);
    let bad = sample_data(0x5354_574F, 3, vec![1]);
    assert!(stwo_modes_supported(0, &good, &good));
    assert!(!stwo_modes_supported(1, &good, &good));
    assert!(!stwo_modes_supported(0, &bad, &good));
    assert!(!stwo_modes_supported(0, &good, &bad));
}

#[test]
fn extract_proof_bytes_prefers_precondition_flag() {
    let pre = sample_data(1, 0, vec![1]);
    let wit = sample_data(1, 0, vec![9, 9]);
    assert_eq!(extract_proof_bytes(&pre, &wit), Ok((true, &[9u8, 9][..])));
    let pre_zero = sample_data(1, 0, vec![0]);
    assert_eq!(extract_proof_bytes(&pre_zero, &wit), Ok((false, &[9u8, 9][..])));
}

#[test]
fn extract_proof_bytes_falls_back_to_witness_flag() {
    let pre = sample_data(1, 0, vec![]);
    let wit = sample_data(1, 0, vec![0, 7, 8]);
    assert_eq!(extract_proof_bytes(&pre, &wit), Ok((false, &[7u8, 8][..])));
    let empty = sample_data(1, 0, vec![]);
    assert_eq!(
        extract_proof_bytes(&pre, &empty),
        Err(ExtractError::MissingFlagByte)
    );
}

#[test]
fn describe_names_the_counts() {
    assert_eq!(empty_bundle().describe(), "tze::Bundle { inputs: 0, outputs: 0 }");
    let mut b = empty_bundle();
    let input = TzeIn {
        prevout: OutPoint { hash: TxHash([0; 32]), index: 0 },
        witness: sample_data(1, 0, vec![]),
    };
    for _ in 0..12 {
        b.inputs.push(input.clone());
    }
    b.outputs.push(TzeOut {
        value: Amount::from_i64(0).expect("non-negative"),
        precondition: sample_data(1, 0, vec![]),
    });
    assert_eq!(b.describe(), "tze::Bundle { inputs: 12, outputs: 1 }");
}

#[test]
fn decode_ignores_trailing_bytes_and_reports_position() {
    let d = sample_data(200, 0, vec![5]);
    let mut out = encode_data(&d);
    let dlen = out.len();
    out.extend_from_slice(&[0xEE, 0xEE]);
    let (back, end) = Data::zcash_deserialize(&out, 0).expect("prefix decodes");
    assert_eq!(back, d);
    assert_eq!(end, dlen);
}
