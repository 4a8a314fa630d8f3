use bitcoin_codec::BitcoinError;
use bitcoin_codec::LegacyTransaction;
use bitcoin_codec::OutPoint;
use bitcoin_codec::Point;
use bitcoin_codec::TxInput;
use bitcoin_codec::TxOutput;
use bitcoin_codec::read_compact_size;
use bitcoin_codec::read_input;
use bitcoin_codec::read_outpoint;
use bitcoin_codec::read_output;
use bitcoin_codec::read_script;
use bitcoin_codec::read_u32;
use bitcoin_codec::read_u64;
use bitcoin_codec::write_compact_size;

fn encode_compact_size(v: u64) -> Vec<u8> {
    let mut out: Vec<u8> = Vec::new();
    write_compact_size(&mut out, v);
    out
}

#[test]
fn compact_size_single_byte_values() {
    assert_eq!(read_compact_size(&[0x00]).unwrap(), (0, 1));
    assert_eq!(read_compact_size(&[0x05]).unwrap(), (5, 1));
    assert_eq!(read_compact_size(&[0xFC]).unwrap(), (0xFC, 1));
}

#[test]
fn compact_size_three_byte_form() {
    assert_eq!(read_compact_size(&[0xFD, 0x00, 0x01]).unwrap(), (0x100, 3));
    assert_eq!(read_compact_size(&[0xFD, 0xFF, 0xFF]).unwrap(), (0xFFFF, 3));
}

#[test]
fn compact_size_five_byte_form() {
    assert_eq!(
        read_compact_size(&[0xFE, 0x78, 0x56, 0x34, 0x12]).unwrap(),
        (0x12345678, 5)
    );
}

#[test]
fn compact_size_nine_byte_form() {
    assert_eq!(
        read_compact_size(&[0xFF, 1, 2, 3, 4, 5, 6, 7, 8]).unwrap(),
        (0x0807060504030201, 9)
    );
}

#[test]
fn compact_size_decode_leniency() {
    // A non-minimal 3-byte encoding of 5 is accepted.
    assert_eq!(read_compact_size(&[0xFD, 0x05, 0x00]).unwrap(), (5, 3));
}

#[test]
fn compact_size_truncated_fails() {
    assert!(matches!(
        read_compact_size(&[]),
        Err(BitcoinError::InvalidTransaction)
    ));
    assert!(matches!(
        read_compact_size(&[0xFD, 0x05]),
        Err(BitcoinError::InvalidTransaction)
    ));
    assert!(matches!(
        read_compact_size(&[0xFE, 1, 2, 3]),
        Err(BitcoinError::InvalidTransaction)
    ));
    assert!(matches!(
        read_compact_size(&[0xFF, 1, 2, 3, 4, 5, 6, 7]),
        Err(BitcoinError::InvalidTransaction)
    ));
}

#[test]
fn compact_size_encodes_minimal_widths() {
    assert_eq!(encode_compact_size(0), vec![0x00]);
    assert_eq!(encode_compact_size(0xFC), vec![0xFC]);
    assert_eq!(encode_compact_size(0xFD), vec![0xFD, 0xFD, 0x00]);
    assert_eq!(encode_compact_size(0xFFFF), vec![0xFD, 0xFF, 0xFF]);
    assert_eq!(encode_compact_size(0x10000), vec![0xFE, 0x00, 0x00, 0x01, 0x00]);
    assert_eq!(
        encode_compact_size(0xFFFF_FFFF),
        vec![0xFE, 0xFF, 0xFF, 0xFF, 0xFF]
    );
    assert_eq!(
        encode_compact_size(0x1_0000_0000),
        vec![0xFF, 0x00, 0x00, 0x00, 0x00, 0x01, 0x00, 0x00, 0x00]
    );
    assert_eq!(
        encode_compact_size(u64::MAX),
        vec![0xFF, 0xFF, 0xFF, 0xFF, 0xFF, 0xFF, 0xFF, 0xFF, 0xFF]
    );
}

#[test]
fn compact_size_roundtrip_samples() {
    for v in [0u64, 1, 0xFC, 0xFD, 0x1234, 0xFFFF, 0x10000, 0xFFFF_FFFF, 0x1_0000_0000, u64::MAX] {
        let e = encode_compact_size(v);
        assert_eq!(read_compact_size(&e).unwrap(), (v, e.len()));
    }
}

#[test]
fn read_u32_little_endian() {
    assert_eq!(read_u32(&[0x01, 0x00, 0x00, 0x00]).unwrap(), (1, 4));
    assert_eq!(read_u32(&[0x78, 0x56, 0x34, 0x12, 0xAA]).unwrap(), (0x12345678, 4));
}

#[test]
fn read_u32_short_buffer_fails() {
    assert!(matches!(
        read_u32(&[0x01, 0x02, 0x03]),
        Err(BitcoinError::InvalidTransaction)
    ));
}

#[test]
fn read_u64_little_endian() {
    assert_eq!(
        read_u64(&[1, 2, 3, 4, 5, 6, 7, 8]).unwrap(),
        (0x0807060504030201, 8)
    );
    assert!(matches!(
        read_u64(&[1, 2, 3, 4, 5, 6, 7]),
        Err(BitcoinError::InvalidTransaction)
    ));
}

#[test]
fn read_script_copies_declared_bytes() {
    let (script, consumed) = read_script(&[3, 0xAA, 0xBB, 0xCC, 0xDD]).unwrap();
    assert_eq!(script, vec![0xAA, 0xBB, 0xCC]);
    assert_eq!(consumed, 4);
}

#[test]
fn read_script_empty() {
    let (script, consumed) = read_script(&[0]).unwrap();
    assert!(script.is_empty());
    assert_eq!(consumed, 1);
}

#[test]
fn read_script_truncated_fails() {
    // A declared length of 5 with only 3 bytes behind it.
    assert!(matches!(
        read_script(&[5, 1, 2, 3]),
        Err(BitcoinError::InvalidTransaction)
    ));
}

#[test]
fn read_outpoint_consumes_36_bytes() {
    let mut data = vec![0x11u8; 32];
    data.extend_from_slice(&[0x07, 0x00, 0x00, 0x00]);
    data.push(0xEE); // trailing byte must be ignored
    let (p, consumed) = read_outpoint(&data).unwrap();
    assert_eq!(p.txid, [0x11u8; 32]);
    assert_eq!(p.vout, 7);
    assert_eq!(consumed, 36);
}

#[test]
fn read_outpoint_short_buffer_fails() {
    assert!(matches!(
        read_outpoint(&[0u8; 35]),
        Err(BitcoinError::InvalidTransaction)
    ));
}

#[test]
fn read_input_composes_fields() {
    let mut data = vec![0x22u8; 32];
    data.extend_from_slice(&[0x01, 0x00, 0x00, 0x00]); // vout = 1
    data.extend_from_slice(&[0x02, 0xAB, 0xCD]); // script_sig = [0xAB, 0xCD]
    data.extend_from_slice(&[0xFF, 0xFF, 0xFF, 0xFF]); // sequence
    let (input, consumed) = read_input(&data).unwrap();
    assert_eq!(input.previous_output.txid, [0x22u8; 32]);
    assert_eq!(input.previous_output.vout, 1);
    assert_eq!(input.script_sig, vec![0xAB, 0xCD]);
    assert_eq!(input.sequence, 0xFFFF_FFFF);
    assert_eq!(consumed, 43);
}

#[test]
fn read_input_truncated_sequence_fails() {
    let mut data = vec![0x22u8; 32];
    data.extend_from_slice(&[0x01, 0x00, 0x00, 0x00]);
    data.extend_from_slice(&[0x00]); // empty script
    data.extend_from_slice(&[0xFF, 0xFF]); // only 2 of 4 sequence bytes
    assert!(matches!(
        read_input(&data),
        Err(BitcoinError::InvalidTransaction)
    ));
}

#[test]
fn read_output_composes_fields() {
    let mut data = vec![0x50, 0xC3, 0x00, 0x00, 0x00, 0x00, 0x00, 0x00]; // 50000
    data.extend_from_slice(&[0x01, 0x6A]); // one-byte script
    let (output, consumed) = read_output(&data).unwrap();
    assert_eq!(output.value, 50_000);
    assert_eq!(output.script_pubkey, vec![0x6A]);
    assert_eq!(consumed, 10);
}

#[test]
fn decode_minimal_empty_transaction() {
    // version=1, no inputs, no outputs, lock_time=0: exactly 10 bytes.
    let data = [0x01, 0x00, 0x00, 0x00, 0x00, 0x00, 0x00, 0x00, 0x00, 0x00];
    let (t, consumed) = LegacyTransaction::decode(&data).unwrap();
    assert_eq!(t.version, 1);
    assert!(t.inputs.is_empty());
    assert!(t.outputs.is_empty());
    assert_eq!(t.lock_time, 0);
    assert_eq!(consumed, 10);
}

#[test]
fn decode_short_version_fails() {
    assert!(matches!(
        LegacyTransaction::decode(&[]),
        Err(BitcoinError::InvalidTransaction)
    ));
    assert!(matches!(
        LegacyTransaction::decode(&[0x01, 0x00, 0x00]),
        Err(BitcoinError::InvalidTransaction)
    ));
}

#[test]
fn decode_version_sign_reinterpretation() {
    // Wire version 0xFFFFFFFF is the signed value -1.
    let data = [0xFF, 0xFF, 0xFF, 0xFF, 0x00, 0x00, 0x00, 0x00, 0x00, 0x00];
    let (t, _) = LegacyTransaction::decode(&data).unwrap();
    assert_eq!(t.version, -1);
}

#[test]
fn decode_missing_lock_time_fails() {
    let data = [0x01, 0x00, 0x00, 0x00, 0x00, 0x00, 0x00, 0x00];
    assert!(matches!(
        LegacyTransaction::decode(&data),
        Err(BitcoinError::InvalidTransaction)
    ));
}

#[test]
fn decode_truncated_input_list_fails() {
    // One input announced, nothing behind it.
    let data = [0x01, 0x00, 0x00, 0x00, 0x01];
    assert!(matches!(
        LegacyTransaction::decode(&data),
        Err(BitcoinError::InvalidTransaction)
    ));
}

#[test]
fn decode_ignores_trailing_bytes() {
    let data = [
        0x01, 0x00, 0x00, 0x00, 0x00, 0x00, 0x00, 0x00, 0x00, 0x00, 0xDE, 0xAD,
    ];
    let (t, consumed) = LegacyTransaction::decode(&data).unwrap();
    assert_eq!(t.version, 1);
    assert_eq!(consumed, 10);
}

#[test]
fn decode_strict_rejects_trailing_bytes() {
    let exact = [0x01, 0x00, 0x00, 0x00, 0x00, 0x00, 0x00, 0x00, 0x00, 0x00];
    assert!(LegacyTransaction::decode_strict(&exact).is_ok());
    let padded = [
        0x01, 0x00, 0x00, 0x00, 0x00, 0x00, 0x00, 0x00, 0x00, 0x00, 0xDE,
    ];
    assert!(matches!(
        LegacyTransaction::decode_strict(&padded),
        Err(BitcoinError::InvalidTransaction)
    ));
}

#[test]
fn encode_minimal_transaction_exact_bytes() {
    let t = LegacyTransaction {
        version: 1,
        inputs: Vec::new(),
        outputs: Vec::new(),
        lock_time: 0,
    };
    assert_eq!(
        t.encode(),
        vec![0x01, 0x00, 0x00, 0x00, 0x00, 0x00, 0x00, 0x00, 0x00, 0x00]
    );
}

#[test]
fn encode_negative_version_exact_bytes() {
    let t = LegacyTransaction {
        version: -1,
        inputs: Vec::new(),
        outputs: Vec::new(),
        lock_time: 0x01020304,
    };
    assert_eq!(
        t.encode(),
        vec![0xFF, 0xFF, 0xFF, 0xFF, 0x00, 0x00, 0x04, 0x03, 0x02, 0x01]
    );
}

#[test]
fn encode_one_input_one_output_exact_bytes() {
    let t = LegacyTransaction {
        version: 2,
        inputs: vec![TxInput {
            previous_output: OutPoint {
                txid: [0x11; 32],
                vout: 3,
            },
            script_sig: vec![0xAB],
            sequence: 0xFFFF_FFFF,
        }],
        outputs: vec![TxOutput {
            value: 50_000,
            script_pubkey: vec![0x6A, 0x01],
        }],
        lock_time: 500,
    };
    let mut expected = vec![0x02, 0x00, 0x00, 0x00]; // version
    expected.push(0x01); // input count
    expected.extend_from_slice(&[0x11; 32]); // txid
    expected.extend_from_slice(&[0x03, 0x00, 0x00, 0x00]); // vout
    expected.extend_from_slice(&[0x01, 0xAB]); // script_sig
    expected.extend_from_slice(&[0xFF, 0xFF, 0xFF, 0xFF]); // sequence
    expected.push(0x01); // output count
    expected.extend_from_slice(&[0x50, 0xC3, 0x00, 0x00, 0x00, 0x00, 0x00, 0x00]); // value
    expected.extend_from_slice(&[0x02, 0x6A, 0x01]); // script_pubkey
    expected.extend_from_slice(&[0xF4, 0x01, 0x00, 0x00]); // lock_time
    assert_eq!(t.encode(), expected);
}

#[test]
fn transaction_roundtrip() {
    let t = LegacyTransaction {
        version: -7,
        inputs: vec![
            TxInput {
                previous_output: OutPoint {
                    txid: [0xAB; 32],
                    vout: 0,
                },
                script_sig: Vec::new(),
                sequence: 0,
            },
            TxInput {
                previous_output: OutPoint {
                    txid: [0xCD; 32],
                    vout: 0xFFFF_FFFF,
                },
                script_sig: (0..=255u8).collect(),
                sequence: 0xFFFF_FFFE,
            },
        ],
        outputs: vec![
            TxOutput {
                value: 0,
                script_pubkey: vec![0x51],
            },
            TxOutput {
                value: u64::MAX,
                script_pubkey: Vec::new(),
            },
        ],
        lock_time: 123_456_789,
    };
    let encoded = t.encode();
    let (decoded, consumed) = LegacyTransaction::decode(&encoded).unwrap();
    assert_eq!(decoded, t);
    assert_eq!(consumed, encoded.len());
    let strict = LegacyTransaction::decode_strict(&encoded).unwrap();
    assert_eq!(strict, t);
}

#[test]
fn roundtrip_long_script_uses_wide_length_prefix() {
    // A 300-byte script forces the 0xFD compact-size form inside an input.
    let t = LegacyTransaction {
        version: 1,
        inputs: vec![TxInput {
            previous_output: OutPoint {
                txid: [0; 32],
                vout: 1,
            },
            script_sig: vec![0x77; 300],
            sequence: 42,
        }],
        outputs: Vec::new(),
        lock_time: 0,
    };
    let encoded = t.encode();
    // 4 + 1 + (36 + 3 + 300 + 4) + 1 + 4
    assert_eq!(encoded.len(), 353);
    let (decoded, consumed) = LegacyTransaction::decode(&encoded).unwrap();
    assert_eq!(decoded, t);
    assert_eq!(consumed, 353);
}

#[test]
fn point_new_keeps_coordinates() {
    let p = Point::new(3i64, -4i64);
    assert_eq!(p.x, 3);
    assert_eq!(p.y, -4);
}
