use crate::error::BitcoinError;
use crate::tx::BitcoinSerialize;
use crate::tx::LegacyTransaction;
use crate::tx::OutPoint;
use crate::tx::OutPointV;
use crate::tx::TxInput;
use crate::tx::TxInputV;
use crate::tx::TxOutput;
use crate::tx::TxOutputV;
use crate::tx::TxV;
use vstd::bytes::spec_u16_from_le_bytes;
use vstd::bytes::spec_u16_to_le_bytes;
use vstd::bytes::spec_u32_from_le_bytes;
use vstd::bytes::spec_u32_to_le_bytes;
use vstd::bytes::spec_u64_from_le_bytes;
use vstd::bytes::spec_u64_to_le_bytes;
use vstd::bytes::u16_from_le_bytes;
use vstd::bytes::u16_to_le_bytes;
use vstd::bytes::u32_from_le_bytes;
use vstd::bytes::u32_to_le_bytes;
use vstd::bytes::u64_from_le_bytes;
use vstd::bytes::u64_to_le_bytes;
use vstd::prelude::*;

verus! {

broadcast use vstd::group_vstd_default;

// ---------------------------------------------------------------------------
// Version sign reinterpretation
//
// On the wire the version is an unsigned 32-bit field; the transaction holds
// it as a signed 32-bit value with the same bit pattern (two's complement).
// ---------------------------------------------------------------------------
/// The signed version corresponding to an unsigned wire field: values up to
/// `i32::MAX` are taken literally, larger ones wrap below zero.
pub open spec fn spec_version_from_wire(w: u32) -> i32 {
    if w <= 0x7FFF_FFFF {
        w as i32
    } else {
        (w - 0x1_0000_0000) as i32
    }
}

/// The unsigned wire field corresponding to a signed version.
pub open spec fn spec_version_to_wire(v: i32) -> u32 {
    if v >= 0 {
        v as u32
    } else {
        (v + 0x1_0000_0000) as u32
    }
}

pub(crate) fn version_from_wire(w: u32) -> (v: i32)
    ensures
        v == spec_version_from_wire(w),
{
    if w <= 0x7FFF_FFFF {
        w as i32
    } else {
        let d: u32 = 0xFFFF_FFFFu32 - w;
        -(d as i32) - 1
    }
}

pub(crate) fn version_to_wire(v: i32) -> (w: u32)
    ensures
        w == spec_version_to_wire(v),
{
    if v >= 0 {
        v as u32
    } else {
        let d: i32 = -(v + 1);
        0xFFFF_FFFFu32 - (d as u32)
    }
}

// ---------------------------------------------------------------------------
// Compact-size (varint) integers
// ---------------------------------------------------------------------------
/// The value and total width of the compact-size field at the head of `s`,
/// keyed on the first byte: up to 0xFC the byte is the value (width 1); 0xFD,
/// 0xFE and 0xFF announce a little-endian 16-, 32- or 64-bit value (widths 3,
/// 5 and 9). `None` when the buffer is empty or shorter than the announced
/// width. Non-minimal encodings are accepted.
pub open spec fn spec_decode_compact_size(s: Seq<u8>) -> Option<(u64, int)> {
    if s.len() == 0 {
        None
    } else if s[0] <= 0xFC {
        Some((s[0] as u64, 1int))
    } else if s[0] == 0xFD {
        if s.len() >= 3 {
            Some((spec_u16_from_le_bytes(s.subrange(1, 3)) as u64, 3int))
        } else {
            None
        }
    } else if s[0] == 0xFE {
        if s.len() >= 5 {
            Some((spec_u32_from_le_bytes(s.subrange(1, 5)) as u64, 5int))
        } else {
            None
        }
    } else {
        if s.len() >= 9 {
            Some((spec_u64_from_le_bytes(s.subrange(1, 9)), 9int))
        } else {
            None
        }
    }
}

/// The minimal-width compact-size encoding of `v`: the shortest of the four
/// forms that can carry the value.
pub open spec fn spec_encode_compact_size(v: u64) -> Seq<u8> {
    if v <= 0xFC {
        seq![v as u8]
    } else if v <= 0xFFFF {
        seq![0xFDu8] + spec_u16_to_le_bytes(v as u16)
    } else if v <= 0xFFFF_FFFF {
        seq![0xFEu8] + spec_u32_to_le_bytes(v as u32)
    } else {
        seq![0xFFu8] + spec_u64_to_le_bytes(v)
    }
}

/// Decode the compact-size field at the head of `data`: the value and the
/// count of bytes consumed. Fails with `InvalidTransaction` exactly when the
/// buffer is empty or shorter than the width implied by its first byte.
pub fn read_compact_size(data: &[u8]) -> (r: Result<(u64, usize), BitcoinError>)
    ensures
        match r {
            Ok((v, c)) => spec_decode_compact_size(data@) == Some((v, c as int)) && c <= data@.len(),
            Err(e) => spec_decode_compact_size(data@) is None && e
                == BitcoinError::InvalidTransaction,
        },
{
    if data.len() == 0 {
        return Err(BitcoinError::InvalidTransaction);
    }
    let b0: u8 = data[0];
    if b0 <= 0xFC {
        Ok((b0 as u64, 1))
    } else if b0 == 0xFD {
        if data.len() >= 3 {
            let x: u16 = u16_from_le_bytes(&data[1..3]);
            Ok((x as u64, 3))
        } else {
            Err(BitcoinError::InvalidTransaction)
        }
    } else if b0 == 0xFE {
        if data.len() >= 5 {
            let x: u32 = u32_from_le_bytes(&data[1..5]);
            Ok((x as u64, 5))
        } else {
            Err(BitcoinError::InvalidTransaction)
        }
    } else {
        if data.len() >= 9 {
            let x: u64 = u64_from_le_bytes(&data[1..9]);
            Ok((x, 9))
        } else {
            Err(BitcoinError::InvalidTransaction)
        }
    }
}

// ---------------------------------------------------------------------------
// Fixed-width little-endian integers
// ---------------------------------------------------------------------------
/// Read the first 4 bytes of `data` as a little-endian unsigned integer,
/// consuming exactly 4 bytes; fails with `InvalidTransaction` exactly when
/// fewer than 4 bytes remain. Never reads past the fixed width.
pub fn read_u32(data: &[u8]) -> (r: Result<(u32, usize), BitcoinError>)
    ensures
        match r {
            Ok((v, c)) => data@.len() >= 4 && v == spec_u32_from_le_bytes(data@.subrange(0, 4))
                && c == 4,
            Err(e) => data@.len() < 4 && e == BitcoinError::InvalidTransaction,
        },
{
    if data.len() >= 4 {
        let num: u32 = u32_from_le_bytes(&data[0..4]);
        Ok((num, 4))
    } else {
        Err(BitcoinError::InvalidTransaction)
    }
}

/// Read the first 8 bytes of `data` as a little-endian unsigned integer,
/// consuming exactly 8 bytes; fails with `InvalidTransaction` exactly when
/// fewer than 8 bytes remain.
pub fn read_u64(data: &[u8]) -> (r: Result<(u64, usize), BitcoinError>)
    ensures
        match r {
            Ok((v, c)) => data@.len() >= 8 && v == spec_u64_from_le_bytes(data@.subrange(0, 8))
                && c == 8,
            Err(e) => data@.len() < 8 && e == BitcoinError::InvalidTransaction,
        },
{
    if data.len() >= 8 {
        let num: u64 = u64_from_le_bytes(&data[0..8]);
        Ok((num, 8))
    } else {
        Err(BitcoinError::InvalidTransaction)
    }
}

// ---------------------------------------------------------------------------
// Length-prefixed scripts
// ---------------------------------------------------------------------------
/// The script at the head of `s`: a compact-size length followed by exactly
/// that many bytes. The width is the prefix plus the script. `None` when the
/// length itself fails to decode or fewer bytes remain than it declares.
pub open spec fn spec_decode_script(s: Seq<u8>) -> Option<(Seq<u8>, int)> {
    match spec_decode_compact_size(s) {
        Some((n, off)) => {
            if s.len() >= off + n {
                Some((s.subrange(off, off + n), off + n))
            } else {
                None
            }
        },
        None => None,
    }
}

/// The wire form of a script: its length as a minimal compact-size field,
/// then its bytes.
pub open spec fn spec_encode_script(sc: Seq<u8>) -> Seq<u8> {
    spec_encode_compact_size(sc.len() as u64) + sc
}

/// Read one length-prefixed script from the head of `data` into an owned
/// vector, consuming the compact-size prefix plus the script bytes. Fails
/// with `InvalidTransaction` exactly when the length fails to decode or
/// declares more bytes than remain.
#[verifier::loop_isolation(false)]
pub fn read_script(data: &[u8]) -> (r: Result<(Vec<u8>, usize), BitcoinError>)
    ensures
        match r {
            Ok((v, c)) => spec_decode_script(data@) == Some((v@, c as int)) && c <= data@.len(),
            Err(e) => spec_decode_script(data@) is None && e == BitcoinError::InvalidTransaction,
        },
{
    let (size, off) = match read_compact_size(data) {
        Ok(p) => p,
        Err(e) => {
            return Err(e);
        },
    };
    let rem: usize = data.len() - off;
    if size <= rem as u64 {
        let n: usize = size as usize;
        let mut v: Vec<u8> = Vec::new();
        let mut i: usize = 0;
        while i < n
            invariant
                i <= n,
                off + n <= data@.len(),
                v@ == data@.subrange(off as int, off + i),
            decreases n - i,
        {
            v.push(data[off + i]);
            proof {
                assert(data@.subrange(off as int, off + i + 1) =~= data@.subrange(
                    off as int,
                    off + i,
                ).push(data@[off + i]));
            }
            i += 1;
        }
        proof {
            assert(data@.subrange(off as int, off + size) == v@);
        }
        Ok((v, off + n))
    } else {
        Err(BitcoinError::InvalidTransaction)
    }
}

// ---------------------------------------------------------------------------
// Record readers
// ---------------------------------------------------------------------------
/// The outpoint at the head of `s`: 32 opaque txid bytes then a 4-byte
/// little-endian output index, exactly 36 bytes. `None` when fewer remain.
pub open spec fn spec_decode_outpoint(s: Seq<u8>) -> Option<(OutPointV, int)> {
    if s.len() >= 36 {
        Some(
            (
                OutPointV { txid: s.subrange(0, 32), vout: spec_u32_from_le_bytes(s.subrange(32, 36)) },
                36int,
            ),
        )
    } else {
        None
    }
}

/// The input at the head of `s`: an outpoint, a length-prefixed signature
/// script, then a 4-byte sequence field. Any sub-read failure is the whole
/// read's failure.
pub open spec fn spec_decode_input(s: Seq<u8>) -> Option<(TxInputV, int)> {
    match spec_decode_outpoint(s) {
        Some((p, n1)) => match spec_decode_script(s.subrange(n1, s.len() as int)) {
            Some((sc, n2)) => {
                if s.len() >= n1 + n2 + 4 {
                    Some(
                        (
                            TxInputV {
                                previous_output: p,
                                script_sig: sc,
                                sequence: spec_u32_from_le_bytes(s.subrange(n1 + n2, n1 + n2 + 4)),
                            },
                            n1 + n2 + 4,
                        ),
                    )
                } else {
                    None
                }
            },
            None => None,
        },
        None => None,
    }
}

/// The output at the head of `s`: an 8-byte little-endian value then a
/// length-prefixed locking script.
pub open spec fn spec_decode_output(s: Seq<u8>) -> Option<(TxOutputV, int)> {
    if s.len() >= 8 {
        match spec_decode_script(s.subrange(8, s.len() as int)) {
            Some((sc, n2)) => {
                Some(
                    (
                        TxOutputV {
                            value: spec_u64_from_le_bytes(s.subrange(0, 8)),
                            script_pubkey: sc,
                        },
                        8 + n2,
                    ),
                )
            },
            None => None,
        }
    } else {
        None
    }
}

/// Read one outpoint from the head of `data`, consuming exactly 36 bytes.
/// Fails with `InvalidTransaction` exactly when fewer than 36 bytes remain.
#[verifier::loop_isolation(false)]
pub fn read_outpoint(data: &[u8]) -> (r: Result<(OutPoint, usize), BitcoinError>)
    ensures
        match r {
            Ok((p, c)) => spec_decode_outpoint(data@) == Some((p@, c as int)) && c <= data@.len(),
            Err(e) => spec_decode_outpoint(data@) is None && e == BitcoinError::InvalidTransaction,
        },
{
    if data.len() >= 36 {
        let mut txid: [u8; 32] = [0u8; 32];
        let mut i: usize = 0;
        while i < 32
            invariant
                i <= 32,
                forall|j: int| 0 <= j < i ==> txid@[j] == data@[j],
            decreases 32 - i,
        {
            txid[i] = data[i];
            i += 1;
        }
        let vout: u32 = u32_from_le_bytes(&data[32..36]);
        proof {
            assert(txid@ =~= data@.subrange(0, 32));
        }
        Ok((OutPoint { txid, vout }, 36))
    } else {
        Err(BitcoinError::InvalidTransaction)
    }
}

/// Read one transaction input from the head of `data`: the outpoint, the
/// signature script, then the sequence field, accumulating the consumed
/// count. Any sub-read failure propagates as `InvalidTransaction`.
pub fn read_input(data: &[u8]) -> (r: Result<(TxInput, usize), BitcoinError>)
    ensures
        match r {
            Ok((inp, c)) => spec_decode_input(data@) == Some((inp@, c as int)) && c
                <= data@.len(),
            Err(e) => spec_decode_input(data@) is None && e == BitcoinError::InvalidTransaction,
        },
{
    let (previous_output, n1) = match read_outpoint(data) {
        Ok(p) => p,
        Err(e) => {
            return Err(e);
        },
    };
    let (script_sig, n2) = match read_script(&data[n1..data.len()]) {
        Ok(p) => p,
        Err(e) => {
            return Err(e);
        },
    };
    let tail: &[u8] = &data[(n1 + n2)..data.len()];
    proof {
        assert(tail@ =~= data@.subrange(n1 as int, data@.len() as int).subrange(
            n2 as int,
            data@.len() - n1,
        ));
    }
    let (sequence, _n3) = match read_u32(tail) {
        Ok(p) => p,
        Err(e) => {
            return Err(e);
        },
    };
    proof {
        assert(tail@.subrange(0, 4) =~= data@.subrange(n1 + n2, n1 + n2 + 4));
    }
    Ok((TxInput { previous_output, script_sig, sequence }, n1 + n2 + 4))
}

/// Read one transaction output from the head of `data`: the 8-byte value
/// then the locking script. Any sub-read failure propagates as
/// `InvalidTransaction`.
pub fn read_output(data: &[u8]) -> (r: Result<(TxOutput, usize), BitcoinError>)
    ensures
        match r {
            Ok((out, c)) => spec_decode_output(data@) == Some((out@, c as int)) && c
                <= data@.len(),
            Err(e) => spec_decode_output(data@) is None && e == BitcoinError::InvalidTransaction,
        },
{
    let (value, n1) = match read_u64(data) {
        Ok(p) => p,
        Err(e) => {
            return Err(e);
        },
    };
    let (script_pubkey, n2) = match read_script(&data[8..data.len()]) {
        Ok(p) => p,
        Err(e) => {
            return Err(e);
        },
    };
    Ok((TxOutput { value, script_pubkey }, n1 + n2))
}

// ---------------------------------------------------------------------------
// Transaction decode
// ---------------------------------------------------------------------------
/// `n` consecutive inputs at the head of `s` and their total width; `None`
/// as soon as one of them fails.
pub open spec fn spec_decode_inputs(s: Seq<u8>, n: nat) -> Option<(Seq<TxInputV>, int)>
    decreases n,
{
    if n == 0 {
        Some((Seq::<TxInputV>::empty(), 0int))
    } else {
        match spec_decode_input(s) {
            Some((i, off)) => match spec_decode_inputs(
                s.subrange(off, s.len() as int),
                (n - 1) as nat,
            ) {
                Some((rest, off2)) => Some((seq![i] + rest, off + off2)),
                None => None,
            },
            None => None,
        }
    }
}

/// `n` consecutive outputs at the head of `s` and their total width; `None`
/// as soon as one of them fails.
pub open spec fn spec_decode_outputs(s: Seq<u8>, n: nat) -> Option<(Seq<TxOutputV>, int)>
    decreases n,
{
    if n == 0 {
        Some((Seq::<TxOutputV>::empty(), 0int))
    } else {
        match spec_decode_output(s) {
            Some((o, off)) => match spec_decode_outputs(
                s.subrange(off, s.len() as int),
                (n - 1) as nat,
            ) {
                Some((rest, off2)) => Some((seq![o] + rest, off + off2)),
                None => None,
            },
            None => None,
        }
    }
}

/// The transaction at the head of `s`, with the width of the recognized
/// prefix: a 4-byte version (bit-reinterpreted as signed), a compact-size
/// input count and that many inputs, a compact-size output count and that
/// many outputs, then a 4-byte lock time. Trailing bytes beyond the last
/// field do not matter. `None` as soon as any field fails.
pub open spec fn spec_decode_tx(s: Seq<u8>) -> Option<(TxV, int)> {
    if s.len() < 4 {
        None
    } else {
        match spec_decode_compact_size(s.subrange(4, s.len() as int)) {
            Some((ic, o1)) => match spec_decode_inputs(
                s.subrange(4 + o1, s.len() as int),
                ic as nat,
            ) {
                Some((ins, o2)) => match spec_decode_compact_size(
                    s.subrange(4 + o1 + o2, s.len() as int),
                ) {
                    Some((oc, o3)) => match spec_decode_outputs(
                        s.subrange(4 + o1 + o2 + o3, s.len() as int),
                        oc as nat,
                    ) {
                        Some((outs, o4)) => {
                            let q = 4 + o1 + o2 + o3 + o4;
                            if s.len() >= q + 4 {
                                Some(
                                    (
                                        TxV {
                                            version: spec_version_from_wire(
                                                spec_u32_from_le_bytes(s.subrange(0, 4)),
                                            ),
                                            inputs: ins,
                                            outputs: outs,
                                            lock_time: spec_u32_from_le_bytes(
                                                s.subrange(q, q + 4),
                                            ),
                                        },
                                        q + 4,
                                    ),
                                )
                            } else {
                                None
                            }
                        },
                        None => None,
                    },
                    None => None,
                },
                None => None,
            },
            None => None,
        }
    }
}

/// Read exactly `count` inputs from the head of `data`, accumulating the
/// consumed width; the first failing input aborts the whole read.
#[verifier::loop_isolation(false)]
pub(crate) fn read_inputs(data: &[u8], count: u64) -> (r: Result<
    (Vec<TxInput>, usize),
    BitcoinError,
>)
    ensures
        match r {
            Ok((v, c)) => spec_decode_inputs(data@, count as nat) == Some(
                (v@.map_values(|i: TxInput| i@), c as int),
            ) && c <= data@.len() && v@.len() == count,
            Err(e) => spec_decode_inputs(data@, count as nat) is None && e
                == BitcoinError::InvalidTransaction,
        },
{
    let mut inputs: Vec<TxInput> = Vec::new();
    let mut next: usize = 0;
    let mut k: u64 = 0;
    proof {
        assert(data@.subrange(0, data@.len() as int) =~= data@);
        let g = spec_decode_inputs(data@, count as nat);
        if g is Some {
            let (rest, c) = g->Some_0;
            assert(Seq::<TxInput>::empty().map_values(|i: TxInput| i@) + rest =~= rest);
        }
    }
    while k < count
        invariant
            k <= count,
            next <= data@.len(),
            inputs@.len() == k,
            (match spec_decode_inputs(
                data@.subrange(next as int, data@.len() as int),
                (count - k) as nat,
            ) {
                Some((rest, c)) => spec_decode_inputs(data@, count as nat) == Some(
                    (inputs@.map_values(|i: TxInput| i@) + rest, next + c),
                ),
                None => spec_decode_inputs(data@, count as nat) is None,
            }),
        decreases count - k,
    {
        let ghost sub = data@.subrange(next as int, data@.len() as int);
        let (inp, off) = match read_input(&data[next..data.len()]) {
            Ok(p) => p,
            Err(e) => {
                return Err(e);
            },
        };
        proof {
            assert(sub.subrange(off as int, sub.len() as int) =~= data@.subrange(
                next + off,
                data@.len() as int,
            ));
            let g2 = spec_decode_inputs(data@.subrange(next + off, data@.len() as int), (count - k
                - 1) as nat);
            if g2 is Some {
                let (rest2, c2) = g2->Some_0;
                assert(inputs@.push(inp).map_values(|i: TxInput| i@) =~= inputs@.map_values(
                    |i: TxInput| i@,
                ).push(inp@));
                assert(inputs@.map_values(|i: TxInput| i@).push(inp@) + rest2 =~= inputs@
                    .map_values(|i: TxInput| i@) + (seq![inp@] + rest2));
            }
        }
        inputs.push(inp);
        next += off;
        k += 1;
    }
    proof {
        assert(inputs@.map_values(|i: TxInput| i@) + Seq::<TxInputV>::empty() =~= inputs@
            .map_values(|i: TxInput| i@));
    }
    Ok((inputs, next))
}

/// Read exactly `count` outputs from the head of `data`, accumulating the
/// consumed width; the first failing output aborts the whole read.
#[verifier::loop_isolation(false)]
pub(crate) fn read_outputs(data: &[u8], count: u64) -> (r: Result<
    (Vec<TxOutput>, usize),
    BitcoinError,
>)
    ensures
        match r {
            Ok((v, c)) => spec_decode_outputs(data@, count as nat) == Some(
                (v@.map_values(|o: TxOutput| o@), c as int),
            ) && c <= data@.len() && v@.len() == count,
            Err(e) => spec_decode_outputs(data@, count as nat) is None && e
                == BitcoinError::InvalidTransaction,
        },
{
    let mut outputs: Vec<TxOutput> = Vec::new();
    let mut next: usize = 0;
    let mut k: u64 = 0;
    proof {
        assert(data@.subrange(0, data@.len() as int) =~= data@);
        let g = spec_decode_outputs(data@, count as nat);
        if g is Some {
            let (rest, c) = g->Some_0;
            assert(Seq::<TxOutput>::empty().map_values(|o: TxOutput| o@) + rest =~= rest);
        }
    }
    while k < count
        invariant
            k <= count,
            next <= data@.len(),
            outputs@.len() == k,
            (match spec_decode_outputs(
                data@.subrange(next as int, data@.len() as int),
                (count - k) as nat,
            ) {
                Some((rest, c)) => spec_decode_outputs(data@, count as nat) == Some(
                    (outputs@.map_values(|o: TxOutput| o@) + rest, next + c),
                ),
                None => spec_decode_outputs(data@, count as nat) is None,
            }),
        decreases count - k,
    {
        let ghost sub = data@.subrange(next as int, data@.len() as int);
        let (out, off) = match read_output(&data[next..data.len()]) {
            Ok(p) => p,
            Err(e) => {
                return Err(e);
            },
        };
        proof {
            assert(sub.subrange(off as int, sub.len() as int) =~= data@.subrange(
                next + off,
                data@.len() as int,
            ));
            let g2 = spec_decode_outputs(data@.subrange(next + off, data@.len() as int), (count - k
                - 1) as nat);
            if g2 is Some {
                let (rest2, c2) = g2->Some_0;
                assert(outputs@.push(out).map_values(|o: TxOutput| o@) =~= outputs@.map_values(
                    |o: TxOutput| o@,
                ).push(out@));
                assert(outputs@.map_values(|o: TxOutput| o@).push(out@) + rest2 =~= outputs@
                    .map_values(|o: TxOutput| o@) + (seq![out@] + rest2));
            }
        }
        outputs.push(out);
        next += off;
        k += 1;
    }
    proof {
        assert(outputs@.map_values(|o: TxOutput| o@) + Seq::<TxOutputV>::empty() =~= outputs@
            .map_values(|o: TxOutput| o@));
    }
    Ok((outputs, next))
}

impl LegacyTransaction {
    /// Decode a transaction from the front of `data`, returning it with the
    /// width of the recognized prefix; trailing bytes are ignored. Fails with
    /// `InvalidTransaction` exactly when some field is truncated or a
    /// compact-size prefix is malformed; no partial transaction is ever
    /// returned.
    pub fn decode(data: &[u8]) -> (r: Result<(LegacyTransaction, usize), BitcoinError>)
        ensures
            match r {
                Ok((t, c)) => spec_decode_tx(data@) == Some((t@, c as int)) && c <= data@.len(),
                Err(e) => spec_decode_tx(data@) is None && e == BitcoinError::InvalidTransaction,
            },
    {
        let (w, _c0) = match read_u32(data) {
            Ok(p) => p,
            Err(e) => {
                return Err(e);
            },
        };
        let version: i32 = version_from_wire(w);
        let (input_count, o1) = match read_compact_size(&data[4..data.len()]) {
            Ok(p) => p,
            Err(e) => {
                return Err(e);
            },
        };
        let mut next: usize = 4 + o1;
        let (inputs, o2) = match read_inputs(&data[next..data.len()], input_count) {
            Ok(p) => p,
            Err(e) => {
                return Err(e);
            },
        };
        next += o2;
        let (output_count, o3) = match read_compact_size(&data[next..data.len()]) {
            Ok(p) => p,
            Err(e) => {
                return Err(e);
            },
        };
        next += o3;
        let (outputs, o4) = match read_outputs(&data[next..data.len()], output_count) {
            Ok(p) => p,
            Err(e) => {
                return Err(e);
            },
        };
        next += o4;
        let (lock_time, _c5) = match read_u32(&data[next..data.len()]) {
            Ok(p) => p,
            Err(e) => {
                return Err(e);
            },
        };
        proof {
            assert(data@.subrange(next as int, data@.len() as int).subrange(0, 4) =~= data@
                .subrange(next as int, next + 4));
        }
        let t = LegacyTransaction { version, inputs, outputs, lock_time };
        Ok((t, next + 4))
    }

    /// Strict decode: as `decode`, but a buffer with unconsumed trailing
    /// bytes is rejected with `InvalidTransaction`.
    pub fn decode_strict(data: &[u8]) -> (r: Result<LegacyTransaction, BitcoinError>)
        ensures
            match r {
                Ok(t) => spec_decode_tx(data@) == Some((t@, data@.len() as int)),
                Err(e) => e == BitcoinError::InvalidTransaction && (match spec_decode_tx(data@) {
                    Some((t2, c)) => c != data@.len(),
                    None => true,
                }),
            },
    {
        match LegacyTransaction::decode(data) {
            Ok((t, c)) => {
                if c == data.len() {
                    Ok(t)
                } else {
                    Err(BitcoinError::InvalidTransaction)
                }
            },
            Err(e) => Err(e),
        }
    }
}

// ---------------------------------------------------------------------------
// Transaction encode
// ---------------------------------------------------------------------------
/// The wire form of an outpoint: the 32 txid bytes, then the index.
pub open spec fn spec_encode_outpoint(p: OutPointV) -> Seq<u8> {
    p.txid + spec_u32_to_le_bytes(p.vout)
}

/// The wire form of an input: outpoint, signature script, sequence.
pub open spec fn spec_encode_input(i: TxInputV) -> Seq<u8> {
    spec_encode_outpoint(i.previous_output) + spec_encode_script(i.script_sig)
        + spec_u32_to_le_bytes(i.sequence)
}

/// The wire form of an output: value, then locking script.
pub open spec fn spec_encode_output(o: TxOutputV) -> Seq<u8> {
    spec_u64_to_le_bytes(o.value) + spec_encode_script(o.script_pubkey)
}

/// The inputs of a transaction in order, concatenated.
pub open spec fn spec_encode_inputs(s: Seq<TxInputV>) -> Seq<u8>
    decreases s.len(),
{
    if s.len() == 0 {
        Seq::<u8>::empty()
    } else {
        spec_encode_input(s[0]) + spec_encode_inputs(s.drop_first())
    }
}

/// The outputs of a transaction in order, concatenated.
pub open spec fn spec_encode_outputs(s: Seq<TxOutputV>) -> Seq<u8>
    decreases s.len(),
{
    if s.len() == 0 {
        Seq::<u8>::empty()
    } else {
        spec_encode_output(s[0]) + spec_encode_outputs(s.drop_first())
    }
}

/// The wire form of a whole transaction, mirroring the decode grammar
/// exactly.
pub open spec fn spec_encode_tx(t: TxV) -> Seq<u8> {
    spec_u32_to_le_bytes(spec_version_to_wire(t.version)) + spec_encode_compact_size(
        t.inputs.len() as u64,
    ) + spec_encode_inputs(t.inputs) + spec_encode_compact_size(t.outputs.len() as u64)
        + spec_encode_outputs(t.outputs) + spec_u32_to_le_bytes(t.lock_time)
}

/// Appending one element to an input sequence appends its encoding.
pub(crate) proof fn lemma_encode_inputs_snoc(s: Seq<TxInputV>, x: TxInputV)
    ensures
        spec_encode_inputs(s.push(x)) == spec_encode_inputs(s) + spec_encode_input(x),
    decreases s.len(),
{
    if s.len() == 0 {
        assert(s.push(x)[0] == x);
        assert(s.push(x).drop_first() =~= Seq::<TxInputV>::empty());
        assert(spec_encode_inputs(Seq::<TxInputV>::empty()) == Seq::<u8>::empty());
        assert(spec_encode_inputs(s.push(x)) == spec_encode_input(x) + Seq::<u8>::empty());
        assert(spec_encode_input(x) + Seq::<u8>::empty() =~= spec_encode_input(x));
        assert(s =~= Seq::<TxInputV>::empty());
        assert(spec_encode_inputs(s) + spec_encode_input(x) =~= spec_encode_input(x));
    } else {
        assert(s.push(x).drop_first() =~= s.drop_first().push(x));
        lemma_encode_inputs_snoc(s.drop_first(), x);
        assert(s.push(x)[0] == s[0]);
        assert((spec_encode_input(s[0]) + spec_encode_inputs(s.drop_first())) + spec_encode_input(x)
            =~= spec_encode_input(s[0]) + (spec_encode_inputs(s.drop_first()) + spec_encode_input(
            x,
        )));
    }
}

/// Appending one element to an output sequence appends its encoding.
pub(crate) proof fn lemma_encode_outputs_snoc(s: Seq<TxOutputV>, x: TxOutputV)
    ensures
        spec_encode_outputs(s.push(x)) == spec_encode_outputs(s) + spec_encode_output(x),
    decreases s.len(),
{
    if s.len() == 0 {
        assert(s.push(x)[0] == x);
        assert(s.push(x).drop_first() =~= Seq::<TxOutputV>::empty());
        assert(spec_encode_outputs(Seq::<TxOutputV>::empty()) == Seq::<u8>::empty());
        assert(spec_encode_outputs(s.push(x)) == spec_encode_output(x) + Seq::<u8>::empty());
        assert(spec_encode_output(x) + Seq::<u8>::empty() =~= spec_encode_output(x));
        assert(s =~= Seq::<TxOutputV>::empty());
        assert(spec_encode_outputs(s) + spec_encode_output(x) =~= spec_encode_output(x));
    } else {
        assert(s.push(x).drop_first() =~= s.drop_first().push(x));
        lemma_encode_outputs_snoc(s.drop_first(), x);
        assert(s.push(x)[0] == s[0]);
        assert((spec_encode_output(s[0]) + spec_encode_outputs(s.drop_first()))
            + spec_encode_output(x) =~= spec_encode_output(s[0]) + (spec_encode_outputs(
            s.drop_first(),
        ) + spec_encode_output(x)));
    }
}

fn write_u32_le(out: &mut Vec<u8>, x: u32)
    ensures
        final(out)@ == old(out)@ + spec_u32_to_le_bytes(x),
{
    let mut b: Vec<u8> = u32_to_le_bytes(x);
    out.append(&mut b);
}

fn write_u64_le(out: &mut Vec<u8>, x: u64)
    ensures
        final(out)@ == old(out)@ + spec_u64_to_le_bytes(x),
{
    let mut b: Vec<u8> = u64_to_le_bytes(x);
    out.append(&mut b);
}

/// Append the minimal-width compact-size encoding of `v`: one byte up to
/// 0xFC, otherwise the shortest of the 0xFD/0xFE/0xFF forms that carries the
/// value.
pub fn write_compact_size(out: &mut Vec<u8>, v: u64)
    ensures
        final(out)@ == old(out)@ + spec_encode_compact_size(v),
{
    if v <= 0xFC {
        out.push(v as u8);
        proof {
            assert(old(out)@.push(v as u8) =~= old(out)@ + seq![v as u8]);
        }
    } else if v <= 0xFFFF {
        out.push(0xFD);
        let mut b: Vec<u8> = u16_to_le_bytes(v as u16);
        out.append(&mut b);
        proof {
            assert(old(out)@.push(0xFDu8) + spec_u16_to_le_bytes(v as u16) =~= old(out)@ + (
            seq![0xFDu8] + spec_u16_to_le_bytes(v as u16)));
        }
    } else if v <= 0xFFFF_FFFF {
        out.push(0xFE);
        let mut b: Vec<u8> = u32_to_le_bytes(v as u32);
        out.append(&mut b);
        proof {
            assert(old(out)@.push(0xFEu8) + spec_u32_to_le_bytes(v as u32) =~= old(out)@ + (
            seq![0xFEu8] + spec_u32_to_le_bytes(v as u32)));
        }
    } else {
        out.push(0xFF);
        let mut b: Vec<u8> = u64_to_le_bytes(v);
        out.append(&mut b);
        proof {
            assert(old(out)@.push(0xFFu8) + spec_u64_to_le_bytes(v) =~= old(out)@ + (seq![0xFFu8]
                + spec_u64_to_le_bytes(v)));
        }
    }
}

#[verifier::loop_isolation(false)]
fn write_bytes(out: &mut Vec<u8>, data: &Vec<u8>)
    ensures
        final(out)@ == old(out)@ + data@,
{
    proof {
        assert(old(out)@ + data@.subrange(0, 0) =~= old(out)@);
    }
    let n: usize = data.len();
    let mut i: usize = 0;
    while i < n
        invariant
            i <= n,
            out@ == old(out)@ + data@.subrange(0, i as int),
        decreases n - i,
    {
        out.push(data[i]);
        proof {
            assert(old(out)@ + data@.subrange(0, i + 1) =~= (old(out)@ + data@.subrange(
                0,
                i as int,
            )).push(data@[i as int]));
        }
        i += 1;
    }
    proof {
        assert(data@.subrange(0, data@.len() as int) =~= data@);
    }
}

/// Append the length-prefixed wire form of a script.
pub(crate) fn write_script(out: &mut Vec<u8>, sc: &Vec<u8>)
    ensures
        final(out)@ == old(out)@ + spec_encode_script(sc@),
{
    write_compact_size(out, sc.len() as u64);
    write_bytes(out, sc);
    proof {
        assert((old(out)@ + spec_encode_compact_size(sc@.len() as u64)) + sc@ =~= old(out)@
            + spec_encode_script(sc@));
    }
}

#[verifier::loop_isolation(false)]
fn write_outpoint(out: &mut Vec<u8>, p: &OutPoint)
    ensures
        final(out)@ == old(out)@ + spec_encode_outpoint(p@),
{
    proof {
        assert(old(out)@ + p.txid@.subrange(0, 0) =~= old(out)@);
    }
    let mut i: usize = 0;
    while i < 32
        invariant
            i <= 32,
            out@ == old(out)@ + p.txid@.subrange(0, i as int),
        decreases 32 - i,
    {
        out.push(p.txid[i]);
        proof {
            assert(old(out)@ + p.txid@.subrange(0, i + 1) =~= (old(out)@ + p.txid@.subrange(
                0,
                i as int,
            )).push(p.txid@[i as int]));
        }
        i += 1;
    }
    proof {
        assert(p.txid@.subrange(0, 32) =~= p.txid@);
    }
    write_u32_le(out, p.vout);
    proof {
        assert((old(out)@ + p.txid@) + spec_u32_to_le_bytes(p.vout) =~= old(out)@
            + spec_encode_outpoint(p@));
    }
}

fn write_input(out: &mut Vec<u8>, i: &TxInput)
    ensures
        final(out)@ == old(out)@ + spec_encode_input(i@),
{
    write_outpoint(out, &i.previous_output);
    write_script(out, &i.script_sig);
    write_u32_le(out, i.sequence);
    proof {
        assert(((old(out)@ + spec_encode_outpoint(i.previous_output@)) + spec_encode_script(
            i.script_sig@,
        )) + spec_u32_to_le_bytes(i.sequence) =~= old(out)@ + spec_encode_input(i@));
    }
}

fn write_output(out: &mut Vec<u8>, o: &TxOutput)
    ensures
        final(out)@ == old(out)@ + spec_encode_output(o@),
{
    write_u64_le(out, o.value);
    write_script(out, &o.script_pubkey);
    proof {
        assert((old(out)@ + spec_u64_to_le_bytes(o.value)) + spec_encode_script(o.script_pubkey@)
            =~= old(out)@ + spec_encode_output(o@));
    }
}

impl LegacyTransaction {
    /// Encode to the wire byte sequence, mirroring the decode grammar
    /// exactly: version, compact-size input count, the inputs in order,
    /// compact-size output count, the outputs in order, lock time. Encoding
    /// never fails.
    #[verifier::loop_isolation(false)]
    pub fn encode(&self) -> (r: Vec<u8>)
        ensures
            r@ == spec_encode_tx(self@),
    {
        let mut out: Vec<u8> = Vec::new();
        let w: u32 = version_to_wire(self.version);
        write_u32_le(&mut out, w);
        write_compact_size(&mut out, self.inputs.len() as u64);
        let ghost ins = self@.inputs;
        let ghost pre_inputs = out@;
        proof {
            assert(ins.take(0) =~= Seq::<TxInputV>::empty());
            assert(pre_inputs + spec_encode_inputs(ins.take(0)) =~= pre_inputs);
        }
        let n_in: usize = self.inputs.len();
        let mut i: usize = 0;
        while i < n_in
            invariant
                i <= n_in,
                out@ == pre_inputs + spec_encode_inputs(ins.take(i as int)),
            decreases n_in - i,
        {
            write_input(&mut out, &self.inputs[i]);
            proof {
                assert(ins[i as int] == self.inputs@[i as int]@);
                assert(ins.take(i + 1) =~= ins.take(i as int).push(ins[i as int]));
                lemma_encode_inputs_snoc(ins.take(i as int), ins[i as int]);
                assert((pre_inputs + spec_encode_inputs(ins.take(i as int))) + spec_encode_input(
                    ins[i as int],
                ) =~= pre_inputs + spec_encode_inputs(ins.take(i + 1)));
            }
            i += 1;
        }
        proof {
            assert(ins.take(n_in as int) =~= ins);
        }
        write_compact_size(&mut out, self.outputs.len() as u64);
        let ghost outs = self@.outputs;
        let ghost pre_outputs = out@;
        proof {
            assert(outs.take(0) =~= Seq::<TxOutputV>::empty());
            assert(pre_outputs + spec_encode_outputs(outs.take(0)) =~= pre_outputs);
        }
        let n_out: usize = self.outputs.len();
        let mut j: usize = 0;
        while j < n_out
            invariant
                j <= n_out,
                out@ == pre_outputs + spec_encode_outputs(outs.take(j as int)),
            decreases n_out - j,
        {
            write_output(&mut out, &self.outputs[j]);
            proof {
                assert(outs[j as int] == self.outputs@[j as int]@);
                assert(outs.take(j + 1) =~= outs.take(j as int).push(outs[j as int]));
                lemma_encode_outputs_snoc(outs.take(j as int), outs[j as int]);
                assert((pre_outputs + spec_encode_outputs(outs.take(j as int)))
                    + spec_encode_output(outs[j as int]) =~= pre_outputs + spec_encode_outputs(
                    outs.take(j + 1),
                ));
            }
            j += 1;
        }
        proof {
            assert(outs.take(n_out as int) =~= outs);
        }
        write_u32_le(&mut out, self.lock_time);
        proof {
            assert(out@ =~= spec_encode_tx(self@));
        }
        out
    }
}

impl BitcoinSerialize for LegacyTransaction {
    /// The serialized form is exactly the wire encoding of the transaction.
    fn serialize(&self) -> (r: Vec<u8>)
        ensures
            r@ == spec_encode_tx(self@),
    {
        self.encode()
    }
}

} // verus!
