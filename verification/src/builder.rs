use crate::tx::LegacyTransaction;
use crate::tx::TxInput;
use crate::tx::TxOutput;
use vstd::prelude::*;

verus! {

/// A transient accumulator for constructing a `LegacyTransaction` field by
/// field. Defaults are `version = 1`, no inputs, no outputs, `lock_time = 0`.
/// Every configuration call consumes the builder and returns it, so a chain
/// ends in exactly one `build`, which consumes the builder for good. No
/// transition validates anything: any field values, and arbitrarily many
/// inputs and outputs, are accepted.
pub struct LegacyTransactionBuilder {
    pub version: i32,
    pub inputs: Vec<TxInput>,
    pub outputs: Vec<TxOutput>,
    pub lock_time: u32,
}

impl Default for LegacyTransactionBuilder {
    /// The default staging state: `version = 1`, empty input and output
    /// sequences, `lock_time = 0`.
    fn default() -> (r: Self)
        ensures
            r.version == 1,
            r.inputs@ == Seq::<TxInput>::empty(),
            r.outputs@ == Seq::<TxOutput>::empty(),
            r.lock_time == 0,
    {
        LegacyTransactionBuilder {
            version: 1,
            inputs: Vec::new(),
            outputs: Vec::new(),
            lock_time: 0,
        }
    }
}

impl LegacyTransactionBuilder {
    /// A fresh builder holding the default field values.
    pub fn new() -> (r: Self)
        ensures
            r.version == 1,
            r.inputs@ == Seq::<TxInput>::empty(),
            r.outputs@ == Seq::<TxOutput>::empty(),
            r.lock_time == 0,
    {
        Self::default()
    }

    /// Overwrite the version field; every other field is kept.
    pub fn version(self, version: i32) -> (r: Self)
        ensures
            r.version == version,
            r.inputs == self.inputs,
            r.outputs == self.outputs,
            r.lock_time == self.lock_time,
    {
        LegacyTransactionBuilder {
            version,
            inputs: self.inputs,
            outputs: self.outputs,
            lock_time: self.lock_time,
        }
    }

    /// Append one input; order is preserved and every other field is kept.
    pub fn add_input(self, input: TxInput) -> (r: Self)
        ensures
            r.version == self.version,
            r.inputs@ == self.inputs@.push(input),
            r.outputs == self.outputs,
            r.lock_time == self.lock_time,
    {
        let mut inputs = self.inputs;
        inputs.push(input);
        LegacyTransactionBuilder {
            version: self.version,
            inputs,
            outputs: self.outputs,
            lock_time: self.lock_time,
        }
    }

    /// Append one output; order is preserved and every other field is kept.
    pub fn add_output(self, output: TxOutput) -> (r: Self)
        ensures
            r.version == self.version,
            r.inputs == self.inputs,
            r.outputs@ == self.outputs@.push(output),
            r.lock_time == self.lock_time,
    {
        let mut outputs = self.outputs;
        outputs.push(output);
        LegacyTransactionBuilder {
            version: self.version,
            inputs: self.inputs,
            outputs,
            lock_time: self.lock_time,
        }
    }

    /// Overwrite the lock-time field; every other field is kept.
    pub fn lock_time(self, lock_time: u32) -> (r: Self)
        ensures
            r.version == self.version,
            r.inputs == self.inputs,
            r.outputs == self.outputs,
            r.lock_time == lock_time,
    {
        LegacyTransactionBuilder {
            version: self.version,
            inputs: self.inputs,
            outputs: self.outputs,
            lock_time,
        }
    }

    /// Finalize: the transaction carries exactly the accumulated fields. The
    /// builder is consumed and cannot be reused.
    pub fn build(self) -> (t: LegacyTransaction)
        ensures
            t.version == self.version,
            t.inputs == self.inputs,
            t.outputs == self.outputs,
            t.lock_time == self.lock_time,
    {
        LegacyTransaction {
            version: self.version,
            inputs: self.inputs,
            outputs: self.outputs,
            lock_time: self.lock_time,
        }
    }
}

impl LegacyTransaction {
    /// Start a builder chain holding the default field values.
    pub fn builder() -> (r: LegacyTransactionBuilder)
        ensures
            r.version == 1,
            r.inputs@ == Seq::<TxInput>::empty(),
            r.outputs@ == Seq::<TxOutput>::empty(),
            r.lock_time == 0,
    {
        LegacyTransactionBuilder::default()
    }
}

} // verus!
