use crate::codec::spec_decode_compact_size;
use crate::codec::spec_decode_input;
use crate::codec::spec_decode_inputs;
use crate::codec::spec_decode_outpoint;
use crate::codec::spec_decode_output;
use crate::codec::spec_decode_outputs;
use crate::codec::spec_decode_script;
use crate::codec::spec_decode_tx;
use crate::codec::spec_encode_compact_size;
use crate::codec::spec_encode_input;
use crate::codec::spec_encode_inputs;
use crate::codec::spec_encode_outpoint;
use crate::codec::spec_encode_output;
use crate::codec::spec_encode_outputs;
use crate::codec::spec_encode_script;
use crate::codec::spec_encode_tx;
use crate::codec::spec_version_from_wire;
use crate::codec::spec_version_to_wire;
use crate::tx::input_wf;
use crate::tx::outpoint_wf;
use crate::tx::output_wf;
use crate::tx::tx_wf;
use crate::tx::OutPointV;
use crate::tx::TxInputV;
use crate::tx::TxOutputV;
use crate::tx::TxV;
use vstd::bytes::lemma_auto_spec_u16_to_from_le_bytes;
use vstd::bytes::lemma_auto_spec_u32_to_from_le_bytes;
use vstd::bytes::lemma_auto_spec_u64_to_from_le_bytes;
use vstd::bytes::spec_u16_to_le_bytes;
use vstd::bytes::spec_u32_to_le_bytes;
use vstd::bytes::spec_u64_to_le_bytes;
use vstd::prelude::*;

verus! {

broadcast use vstd::group_vstd_default;

/// The two version representations are inverse to each other; in particular
/// the all-ones wire field stands for the signed value -1.
pub proof fn lemma_version_wire_roundtrip(w: u32, v: i32)
    ensures
        spec_version_from_wire(spec_version_to_wire(v)) == v,
        spec_version_to_wire(spec_version_from_wire(w)) == w,
{
}

/// A buffer of fewer than 4 bytes cannot even carry the version field, so no
/// transaction decodes from it.
pub proof fn lemma_short_buffer_rejected(s: Seq<u8>)
    requires
        s.len() < 4,
    ensures
        spec_decode_tx(s) is None,
{
}

/// The compact-size encoder always picks the minimal width for the value:
/// 1 byte up to 0xFC, 3 up to 0xFFFF, 5 up to 0xFFFFFFFF, 9 beyond.
pub proof fn lemma_compact_size_minimal_width(v: u64)
    ensures
        v <= 0xFC ==> spec_encode_compact_size(v).len() == 1,
        0xFD <= v <= 0xFFFF ==> spec_encode_compact_size(v).len() == 3,
        0x1_0000 <= v <= 0xFFFF_FFFF ==> spec_encode_compact_size(v).len() == 5,
        v > 0xFFFF_FFFF ==> spec_encode_compact_size(v).len() == 9,
{
    lemma_auto_spec_u16_to_from_le_bytes();
    lemma_auto_spec_u32_to_from_le_bytes();
    lemma_auto_spec_u64_to_from_le_bytes();
}

/// Decoding a minimally encoded compact-size value, with any bytes behind
/// it, yields the value back and consumes exactly the encoding.
pub proof fn lemma_compact_size_roundtrip(v: u64, rest: Seq<u8>)
    ensures
        spec_decode_compact_size(spec_encode_compact_size(v) + rest) == Some(
            (v, spec_encode_compact_size(v).len() as int),
        ),
{
    lemma_auto_spec_u16_to_from_le_bytes();
    lemma_auto_spec_u32_to_from_le_bytes();
    lemma_auto_spec_u64_to_from_le_bytes();
    let e = spec_encode_compact_size(v);
    let s = e + rest;
    if v <= 0xFC {
        assert(s[0] == v as u8);
    } else if v <= 0xFFFF {
        assert(s[0] == 0xFDu8);
        assert(s.subrange(1, 3) =~= spec_u16_to_le_bytes(v as u16));
    } else if v <= 0xFFFF_FFFF {
        assert(s[0] == 0xFEu8);
        assert(s.subrange(1, 5) =~= spec_u32_to_le_bytes(v as u32));
    } else {
        assert(s[0] == 0xFFu8);
        assert(s.subrange(1, 9) =~= spec_u64_to_le_bytes(v));
    }
}

/// Decoding an encoded script, with any bytes behind it, yields the script
/// back and consumes exactly the prefix plus the script.
pub proof fn lemma_script_roundtrip(sc: Seq<u8>, rest: Seq<u8>)
    requires
        sc.len() <= u64::MAX,
    ensures
        spec_decode_script(spec_encode_script(sc) + rest) == Some(
            (sc, spec_encode_script(sc).len() as int),
        ),
{
    let n: u64 = sc.len() as u64;
    let cs = spec_encode_compact_size(n);
    let s = spec_encode_script(sc) + rest;
    assert(s =~= cs + (sc + rest));
    lemma_compact_size_roundtrip(n, sc + rest);
    assert(spec_decode_compact_size(s) == Some((n, cs.len() as int)));
    assert(s.subrange(cs.len() as int, cs.len() + n) =~= sc);
}

/// Decoding an encoded outpoint, with any bytes behind it, yields the
/// outpoint back and consumes exactly 36 bytes.
pub proof fn lemma_outpoint_roundtrip(p: OutPointV, rest: Seq<u8>)
    requires
        outpoint_wf(p),
    ensures
        spec_decode_outpoint(spec_encode_outpoint(p) + rest) == Some((p, 36int)),
        spec_encode_outpoint(p).len() == 36,
{
    lemma_auto_spec_u32_to_from_le_bytes();
    let s = spec_encode_outpoint(p) + rest;
    assert(s.subrange(0, 32) =~= p.txid);
    assert(s.subrange(32, 36) =~= spec_u32_to_le_bytes(p.vout));
}

/// Decoding an encoded input, with any bytes behind it, yields the input
/// back and consumes exactly its encoding.
pub proof fn lemma_input_roundtrip(i: TxInputV, rest: Seq<u8>)
    requires
        input_wf(i),
    ensures
        spec_decode_input(spec_encode_input(i) + rest) == Some(
            (i, spec_encode_input(i).len() as int),
        ),
{
    lemma_auto_spec_u32_to_from_le_bytes();
    let eo = spec_encode_outpoint(i.previous_output);
    let es = spec_encode_script(i.script_sig);
    let eq = spec_u32_to_le_bytes(i.sequence);
    let s = spec_encode_input(i) + rest;
    assert(s =~= eo + (es + (eq + rest)));
    lemma_outpoint_roundtrip(i.previous_output, es + (eq + rest));
    assert(spec_decode_outpoint(s) == Some((i.previous_output, 36int)));
    assert(s.subrange(36, s.len() as int) =~= es + (eq + rest));
    lemma_script_roundtrip(i.script_sig, eq + rest);
    let n2 = es.len() as int;
    assert(spec_decode_script(s.subrange(36, s.len() as int)) == Some((i.script_sig, n2)));
    assert(s.subrange(36 + n2, 36 + n2 + 4) =~= spec_u32_to_le_bytes(i.sequence));
}

/// Decoding an encoded output, with any bytes behind it, yields the output
/// back and consumes exactly its encoding.
pub proof fn lemma_output_roundtrip(o: TxOutputV, rest: Seq<u8>)
    requires
        output_wf(o),
    ensures
        spec_decode_output(spec_encode_output(o) + rest) == Some(
            (o, spec_encode_output(o).len() as int),
        ),
{
    lemma_auto_spec_u64_to_from_le_bytes();
    let ev = spec_u64_to_le_bytes(o.value);
    let es = spec_encode_script(o.script_pubkey);
    let s = spec_encode_output(o) + rest;
    assert(s =~= ev + (es + rest));
    assert(s.subrange(0, 8) =~= spec_u64_to_le_bytes(o.value));
    assert(s.subrange(8, s.len() as int) =~= es + rest);
    lemma_script_roundtrip(o.script_pubkey, rest);
}

/// Decoding an encoded input sequence, with any bytes behind it, yields the
/// sequence back, in order, and consumes exactly its encoding.
pub proof fn lemma_inputs_roundtrip(s: Seq<TxInputV>, rest: Seq<u8>)
    requires
        forall|j: int| 0 <= j < s.len() ==> input_wf(#[trigger] s[j]),
    ensures
        spec_decode_inputs(spec_encode_inputs(s) + rest, s.len()) == Some(
            (s, spec_encode_inputs(s).len() as int),
        ),
    decreases s.len(),
{
    if s.len() == 0 {
        assert(spec_encode_inputs(s) + rest =~= rest);
        assert(s =~= Seq::<TxInputV>::empty());
    } else {
        let e0 = spec_encode_input(s[0]);
        let er = spec_encode_inputs(s.drop_first());
        let w = spec_encode_inputs(s) + rest;
        assert(w =~= e0 + (er + rest));
        lemma_input_roundtrip(s[0], er + rest);
        assert(spec_decode_input(w) == Some((s[0], e0.len() as int)));
        assert(w.subrange(e0.len() as int, w.len() as int) =~= er + rest);
        assert(forall|j: int|
            0 <= j < s.drop_first().len() ==> input_wf(#[trigger] s.drop_first()[j]));
        lemma_inputs_roundtrip(s.drop_first(), rest);
        assert(seq![s[0]] + s.drop_first() =~= s);
    }
}

/// Decoding an encoded output sequence, with any bytes behind it, yields the
/// sequence back, in order, and consumes exactly its encoding.
pub proof fn lemma_outputs_roundtrip(s: Seq<TxOutputV>, rest: Seq<u8>)
    requires
        forall|j: int| 0 <= j < s.len() ==> output_wf(#[trigger] s[j]),
    ensures
        spec_decode_outputs(spec_encode_outputs(s) + rest, s.len()) == Some(
            (s, spec_encode_outputs(s).len() as int),
        ),
    decreases s.len(),
{
    if s.len() == 0 {
        assert(spec_encode_outputs(s) + rest =~= rest);
        assert(s =~= Seq::<TxOutputV>::empty());
    } else {
        let e0 = spec_encode_output(s[0]);
        let er = spec_encode_outputs(s.drop_first());
        let w = spec_encode_outputs(s) + rest;
        assert(w =~= e0 + (er + rest));
        lemma_output_roundtrip(s[0], er + rest);
        assert(spec_decode_output(w) == Some((s[0], e0.len() as int)));
        assert(w.subrange(e0.len() as int, w.len() as int) =~= er + rest);
        assert(forall|j: int|
            0 <= j < s.drop_first().len() ==> output_wf(#[trigger] s.drop_first()[j]));
        lemma_outputs_roundtrip(s.drop_first(), rest);
        assert(seq![s[0]] + s.drop_first() =~= s);
    }
}

/// Everything behind the version field of an encoded transaction, as one
/// right-nested concatenation.
spec fn spec_tx_tail(t: TxV) -> Seq<u8> {
    spec_encode_compact_size(t.inputs.len() as u64) + (spec_encode_inputs(t.inputs) + (
    spec_encode_compact_size(t.outputs.len() as u64) + (spec_encode_outputs(t.outputs)
        + spec_u32_to_le_bytes(t.lock_time))))
}

/// The decode chain on the post-version tail of an encoded transaction.
#[verifier::rlimit(60)]
proof fn lemma_tx_tail_roundtrip(t: TxV)
    requires
        tx_wf(t),
    ensures
        ({
            let w = spec_tx_tail(t);
            let ic: u64 = t.inputs.len() as u64;
            let oc: u64 = t.outputs.len() as u64;
            let o1 = spec_encode_compact_size(ic).len() as int;
            let o2 = spec_encode_inputs(t.inputs).len() as int;
            let o3 = spec_encode_compact_size(oc).len() as int;
            let o4 = spec_encode_outputs(t.outputs).len() as int;
            &&& spec_decode_compact_size(w) == Some((ic, o1))
            &&& spec_decode_inputs(w.subrange(o1, w.len() as int), ic as nat) == Some(
                (t.inputs, o2),
            )
            &&& spec_decode_compact_size(w.subrange(o1 + o2, w.len() as int)) == Some((oc, o3))
            &&& spec_decode_outputs(w.subrange(o1 + o2 + o3, w.len() as int), oc as nat) == Some(
                (t.outputs, o4),
            )
            &&& w.len() == o1 + o2 + o3 + o4 + 4
            &&& w.subrange(o1 + o2 + o3 + o4, w.len() as int) == spec_u32_to_le_bytes(t.lock_time)
        }),
{
    let ic: u64 = t.inputs.len() as u64;
    let oc: u64 = t.outputs.len() as u64;
    let ec1 = spec_encode_compact_size(ic);
    let ei = spec_encode_inputs(t.inputs);
    let ec2 = spec_encode_compact_size(oc);
    let eo = spec_encode_outputs(t.outputs);
    let el = spec_u32_to_le_bytes(t.lock_time);
    let w = spec_tx_tail(t);
    lemma_auto_spec_u32_to_from_le_bytes();
    lemma_compact_size_roundtrip(ic, ei + (ec2 + (eo + el)));
    assert(w =~= ec1 + (ei + (ec2 + (eo + el))));
    let o1 = ec1.len() as int;
    assert(w.subrange(o1, w.len() as int) =~= ei + (ec2 + (eo + el)));
    lemma_inputs_roundtrip(t.inputs, ec2 + (eo + el));
    let o2 = ei.len() as int;
    assert(w.subrange(o1 + o2, w.len() as int) =~= ec2 + (eo + el));
    lemma_compact_size_roundtrip(oc, eo + el);
    let o3 = ec2.len() as int;
    assert(w.subrange(o1 + o2 + o3, w.len() as int) =~= eo + el);
    lemma_outputs_roundtrip(t.outputs, el);
    let o4 = eo.len() as int;
    assert(w.subrange(o1 + o2 + o3 + o4, w.len() as int) =~= el);
}

/// A window of a suffix is the shifted window of the whole sequence.
proof fn lemma_subrange_shift(s: Seq<u8>, w: Seq<u8>, a: int, b: int, c: int)
    requires
        0 <= a,
        a + w.len() == s.len(),
        s.subrange(a, s.len() as int) == w,
        0 <= b <= c <= w.len(),
    ensures
        s.subrange(a + b, a + c) == w.subrange(b, c),
{
    assert(s.subrange(a + b, a + c) =~= w.subrange(b, c));
}

/// Round trip: decoding the encoding of any well-formed transaction image
/// yields exactly that image, consuming the whole encoding. Every value of
/// the executable transaction type has a well-formed image
/// (`crate::tx::lemma_view_wf`).
#[verifier::rlimit(100)]
#[verifier::spinoff_prover]
pub proof fn lemma_transaction_roundtrip(t: TxV)
    requires
        tx_wf(t),
    ensures
        spec_decode_tx(spec_encode_tx(t)) == Some((t, spec_encode_tx(t).len() as int)),
{
    lemma_auto_spec_u32_to_from_le_bytes();
    lemma_tx_tail_roundtrip(t);
    let ic: u64 = t.inputs.len() as u64;
    let oc: u64 = t.outputs.len() as u64;
    let ev = spec_u32_to_le_bytes(spec_version_to_wire(t.version));
    let o1 = spec_encode_compact_size(ic).len() as int;
    let o2 = spec_encode_inputs(t.inputs).len() as int;
    let o3 = spec_encode_compact_size(oc).len() as int;
    let o4 = spec_encode_outputs(t.outputs).len() as int;
    let w = spec_tx_tail(t);
    let s = spec_encode_tx(t);
    assert(s =~= ev + w);
    assert(s.subrange(0, 4) =~= ev);
    lemma_version_wire_roundtrip(0, t.version);
    assert(s.subrange(4, s.len() as int) =~= w);
    lemma_subrange_shift(s, w, 4, o1, w.len() as int);
    lemma_subrange_shift(s, w, 4, o1 + o2, w.len() as int);
    lemma_subrange_shift(s, w, 4, o1 + o2 + o3, w.len() as int);
    let q = 4 + o1 + o2 + o3 + o4;
    assert(s.len() == q + 4);
    lemma_subrange_shift(s, w, 4, o1 + o2 + o3 + o4, w.len() as int);
}

} // verus!
