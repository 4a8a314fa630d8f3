use vstd::prelude::*;

verus! {

/// Error taxonomy shared by the codec and its callers.
///
/// `InvalidTransaction` covers every structural decode failure: a buffer too
/// short for a fixed-width field, a compact-size prefix whose implied width
/// exceeds the remaining bytes, or a declared script length that overruns the
/// buffer. `InvalidScript` is reserved for script-content validation,
/// `InvalidAmount` for numeric range failures, and `ParseError` for malformed
/// external input outside the binary grammar.
#[derive(Debug, Clone, PartialEq, Eq)]
pub enum BitcoinError {
    InvalidTransaction,
    InvalidScript,
    InvalidAmount,
    ParseError(String),
}

} // verus!
