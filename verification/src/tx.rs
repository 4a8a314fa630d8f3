use vstd::prelude::*;

verus! {

/// Identifies a previously created output being spent: a 32-byte opaque
/// transaction id (no byte-order reinterpretation is ever applied to it) and
/// the 0-based index of the output within that transaction.
#[derive(Debug, Clone, PartialEq)]
pub struct OutPoint {
    pub txid: [u8; 32],
    pub vout: u32,
}

/// One spend reference: the outpoint being spent, an unconstrained signature
/// script, and the sequence field (opaque to this codec).
#[derive(Debug, Clone, PartialEq)]
pub struct TxInput {
    pub previous_output: OutPoint,
    pub script_sig: Vec<u8>,
    pub sequence: u32,
}

/// One spendable value: an amount in the smallest indivisible unit and the
/// locking script.
#[derive(Debug, Clone, PartialEq)]
pub struct TxOutput {
    pub value: u64,
    pub script_pubkey: Vec<u8>,
}

/// The aggregate transaction record. `version` is signed, but on the wire it
/// is carried as an unsigned 32-bit field whose bit pattern is reinterpreted
/// as two's complement.
#[derive(Debug, Clone, PartialEq)]
pub struct LegacyTransaction {
    pub version: i32,
    pub inputs: Vec<TxInput>,
    pub outputs: Vec<TxOutput>,
    pub lock_time: u32,
}

/// Mathematical image of an `OutPoint`: the txid as a byte sequence.
pub ghost struct OutPointV {
    pub txid: Seq<u8>,
    pub vout: u32,
}

/// Mathematical image of a `TxInput`.
pub ghost struct TxInputV {
    pub previous_output: OutPointV,
    pub script_sig: Seq<u8>,
    pub sequence: u32,
}

/// Mathematical image of a `TxOutput`.
pub ghost struct TxOutputV {
    pub value: u64,
    pub script_pubkey: Seq<u8>,
}

/// Mathematical image of a `LegacyTransaction`: the value the codec contracts
/// speak about.
pub ghost struct TxV {
    pub version: i32,
    pub inputs: Seq<TxInputV>,
    pub outputs: Seq<TxOutputV>,
    pub lock_time: u32,
}

impl View for OutPoint {
    type V = OutPointV;

    open spec fn view(&self) -> OutPointV {
        OutPointV { txid: self.txid@, vout: self.vout }
    }
}

impl View for TxInput {
    type V = TxInputV;

    open spec fn view(&self) -> TxInputV {
        TxInputV {
            previous_output: self.previous_output@,
            script_sig: self.script_sig@,
            sequence: self.sequence,
        }
    }
}

impl View for TxOutput {
    type V = TxOutputV;

    open spec fn view(&self) -> TxOutputV {
        TxOutputV { value: self.value, script_pubkey: self.script_pubkey@ }
    }
}

impl View for LegacyTransaction {
    type V = TxV;

    open spec fn view(&self) -> TxV {
        TxV {
            version: self.version,
            inputs: self.inputs@.map_values(|i: TxInput| i@),
            outputs: self.outputs@.map_values(|o: TxOutput| o@),
            lock_time: self.lock_time,
        }
    }
}

/// An outpoint image is well formed when its txid is exactly 32 bytes; the
/// executable type guarantees this by construction.
pub open spec fn outpoint_wf(p: OutPointV) -> bool {
    p.txid.len() == 32
}

/// An input image is well formed when its outpoint is and its script fits in
/// a 64-bit length.
pub open spec fn input_wf(i: TxInputV) -> bool {
    &&& outpoint_wf(i.previous_output)
    &&& i.script_sig.len() <= u64::MAX
}

/// An output image is well formed when its script fits in a 64-bit length.
pub open spec fn output_wf(o: TxOutputV) -> bool {
    o.script_pubkey.len() <= u64::MAX
}

/// A transaction image is well formed when every input and output is and the
/// input and output counts fit in 64-bit compact-size fields. Every value of
/// the executable `LegacyTransaction` type satisfies this
/// (`lemma_view_wf`).
pub open spec fn tx_wf(t: TxV) -> bool {
    &&& t.inputs.len() <= u64::MAX
    &&& t.outputs.len() <= u64::MAX
    &&& forall|j: int| 0 <= j < t.inputs.len() ==> input_wf(#[trigger] t.inputs[j])
    &&& forall|j: int| 0 <= j < t.outputs.len() ==> output_wf(#[trigger] t.outputs[j])
}

/// The image of every executable transaction value is well formed: txids are
/// fixed 32-byte arrays and vector lengths are bounded by `usize`.
pub proof fn lemma_view_wf(t: &LegacyTransaction)
    ensures
        tx_wf(t@),
{
    broadcast use vstd::group_vstd_default;

    vstd::std_specs::vec::axiom_spec_len(&t.inputs);
    vstd::std_specs::vec::axiom_spec_len(&t.outputs);
    assert(t@.inputs.len() == t.inputs@.len());
    assert(t@.outputs.len() == t.outputs@.len());
    assert forall|j: int| 0 <= j < t@.inputs.len() implies input_wf(#[trigger] t@.inputs[j]) by {
        assert(t@.inputs[j] == t.inputs@[j]@);
        assert(t.inputs@[j].previous_output.txid@.len() == 32);
        vstd::std_specs::vec::axiom_spec_len(&t.inputs@[j].script_sig);
    }
    assert forall|j: int| 0 <= j < t@.outputs.len() implies output_wf(#[trigger] t@.outputs[j]) by {
        assert(t@.outputs[j] == t.outputs@[j]@);
        vstd::std_specs::vec::axiom_spec_len(&t.outputs@[j].script_pubkey);
    }
}

/// Serialization to the wire byte sequence. The codec implements this for
/// `LegacyTransaction`; the contract lives on
/// `LegacyTransaction::encode`, which the implementation forwards to.
pub trait BitcoinSerialize {
    fn serialize(&self) -> Vec<u8>;
}

} // verus!
