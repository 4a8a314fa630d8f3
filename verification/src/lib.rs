//! A binary codec for a simplified legacy ledger-transaction wire format:
//! compact-size (varint) integers, fixed-width little-endian integers,
//! length-prefixed scripts, and their composition into a full transaction
//! record, together with a fluent builder for constructing transactions.

mod amount;
mod builder;
mod codec;
mod error;
mod laws;
mod point;
mod tx;

pub use amount::parse_amount;
pub use amount::spec_decimal_digits_part;
pub use amount::spec_decimal_value;
pub use amount::spec_is_u64_decimal;
pub use builder::LegacyTransactionBuilder;
pub use codec::read_compact_size;
pub use codec::read_input;
pub use codec::read_outpoint;
pub use codec::read_output;
pub use codec::read_script;
pub use codec::read_u32;
pub use codec::read_u64;
pub use codec::spec_decode_compact_size;
pub use codec::spec_decode_input;
pub use codec::spec_decode_inputs;
pub use codec::spec_decode_outpoint;
pub use codec::spec_decode_output;
pub use codec::spec_decode_outputs;
pub use codec::spec_decode_script;
pub use codec::spec_decode_tx;
pub use codec::spec_encode_compact_size;
pub use codec::spec_encode_input;
pub use codec::spec_encode_inputs;
pub use codec::spec_encode_outpoint;
pub use codec::spec_encode_output;
pub use codec::spec_encode_outputs;
pub use codec::spec_encode_script;
pub use codec::spec_encode_tx;
pub use codec::spec_version_from_wire;
pub use codec::spec_version_to_wire;
pub use codec::write_compact_size;
pub use error::BitcoinError;
pub use laws::lemma_compact_size_minimal_width;
pub use laws::lemma_compact_size_roundtrip;
pub use laws::lemma_input_roundtrip;
pub use laws::lemma_inputs_roundtrip;
pub use laws::lemma_outpoint_roundtrip;
pub use laws::lemma_output_roundtrip;
pub use laws::lemma_outputs_roundtrip;
pub use laws::lemma_script_roundtrip;
pub use laws::lemma_short_buffer_rejected;
pub use laws::lemma_transaction_roundtrip;
pub use laws::lemma_version_wire_roundtrip;
pub use point::Point;
pub use tx::BitcoinSerialize;
pub use tx::LegacyTransaction;
pub use tx::OutPoint;
pub use tx::OutPointV;
pub use tx::TxInput;
pub use tx::TxInputV;
pub use tx::TxOutput;
pub use tx::TxOutputV;
pub use tx::TxV;
pub use tx::input_wf;
pub use tx::lemma_view_wf;
pub use tx::outpoint_wf;
pub use tx::output_wf;
pub use tx::tx_wf;
