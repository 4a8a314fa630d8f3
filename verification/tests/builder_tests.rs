use bitcoin_codec::BitcoinSerialize;
use bitcoin_codec::LegacyTransaction;
use bitcoin_codec::LegacyTransactionBuilder;
use bitcoin_codec::OutPoint;
use bitcoin_codec::TxInput;
use bitcoin_codec::TxOutput;

#[test]
fn builder_defaults() {
    let t = LegacyTransaction::builder().build();
    assert_eq!(t.version, 1);
    assert!(t.inputs.is_empty());
    assert!(t.outputs.is_empty());
    assert_eq!(t.lock_time, 0);
}

#[test]
fn builder_new_matches_defaults() {
    let t = LegacyTransactionBuilder::new().build();
    assert_eq!(t.version, 1);
    assert!(t.inputs.is_empty());
    assert!(t.outputs.is_empty());
    assert_eq!(t.lock_time, 0);
}

#[test]
fn builder_chaining_sets_every_field() {
    let i1 = TxInput {
        previous_output: OutPoint {
            txid: [0xAA; 32],
            vout: 2,
        },
        script_sig: vec![1, 2, 3],
        sequence: 9,
    };
    let o1 = TxOutput {
        value: 77,
        script_pubkey: vec![4, 5],
    };
    let t = LegacyTransaction::builder()
        .version(2)
        .add_input(i1.clone())
        .add_output(o1.clone())
        .lock_time(500)
        .build();
    assert_eq!(t.version, 2);
    assert_eq!(t.inputs, vec![i1]);
    assert_eq!(t.outputs, vec![o1]);
    assert_eq!(t.lock_time, 500);
}

#[test]
fn builder_preserves_insertion_order() {
    let mk_in = |b: u8| TxInput {
        previous_output: OutPoint {
            txid: [b; 32],
            vout: b as u32,
        },
        script_sig: vec![b],
        sequence: b as u32,
    };
    let t = LegacyTransaction::builder()
        .add_input(mk_in(1))
        .add_input(mk_in(2))
        .add_input(mk_in(3))
        .build();
    assert_eq!(t.inputs.len(), 3);
    assert_eq!(t.inputs[0].script_sig, vec![1]);
    assert_eq!(t.inputs[1].script_sig, vec![2]);
    assert_eq!(t.inputs[2].script_sig, vec![3]);
}

#[test]
fn builder_overwrites_version_and_lock_time() {
    let t = LegacyTransaction::builder()
        .version(2)
        .version(-5)
        .lock_time(10)
        .lock_time(20)
        .build();
    assert_eq!(t.version, -5);
    assert_eq!(t.lock_time, 20);
}

#[test]
fn serialize_trait_matches_encode() {
    let t = LegacyTransaction::builder()
        .version(3)
        .add_output(TxOutput {
            value: 1,
            script_pubkey: vec![0x6A],
        })
        .lock_time(7)
        .build();
    assert_eq!(t.serialize(), t.encode());
}

#[test]
fn built_transaction_roundtrips() {
    let t = LegacyTransaction::builder()
        .version(2)
        .add_input(TxInput {
            previous_output: OutPoint {
                txid: [9; 32],
                vout: 1,
            },
            script_sig: vec![0xDE, 0xAD],
            sequence: 0xFFFF_FFFF,
        })
        .add_output(TxOutput {
            value: 100_000,
            script_pubkey: vec![0xBE, 0xEF],
        })
        .lock_time(650_000)
        .build();
    let encoded = t.encode();
    let (decoded, consumed) = LegacyTransaction::decode(&encoded).unwrap();
    assert_eq!(decoded, t);
    assert_eq!(consumed, encoded.len());
}
