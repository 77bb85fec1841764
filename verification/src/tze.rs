//! Transparent Zcash Extension (TZE) entities and their canonical wire codec.
//!
//! Every entity has a mathematical view, a specification of its byte encoding
//! (`spec_*_bytes`), and a specification of what decoding the front of a byte
//! stream yields (`dec_*`).  The executable encoders and decoders are proved
//! to agree with those specifications exactly, on success and on failure, and
//! round-trip lemmas tie the two directions together.

use vstd::prelude::*;

use crate::amount::Amount;
use crate::serialization::{
    dec_compact, le_bytes, le_val, lemma_compact_roundtrip, lemma_le_bytes_len,
    lemma_le_val_bound, lemma_le_val_of_le_bytes, lemma_pow256_values, pow256, read_bytes,
    read_compact_size, read_le_bytes, spec_compact_size, write_bytes, write_compact_size,
    write_le_bytes, SerializationError,
};

verus! {

broadcast use vstd::array::group_array_axioms;

/// The protocol-wide maximum size of a serialized container, in bytes; the
/// ceiling from which every preallocation bound is derived.
pub const MAX_BLOCK_BYTES: u64 = 2_000_000;

/// The minimal serialized size of a `Data`: three 1-byte varints (extension
/// id, mode, zero payload length).
pub const MIN_TZE_DATA_SIZE: u64 = 3;

/// The minimal serialized size of a `TzeIn`: 32-byte hash, 4-byte index,
/// minimal `Data`.
pub const MIN_TZE_INPUT_SIZE: u64 = 32 + 4 + MIN_TZE_DATA_SIZE;

/// The minimal serialized size of a `TzeOut`: 8-byte value, minimal `Data`.
pub const MIN_TZE_OUTPUT_SIZE: u64 = 8 + MIN_TZE_DATA_SIZE;

/// Identifier allocated to a specific transparent extension.
#[derive(Copy, Clone, Debug, Eq, PartialEq, Ord, PartialOrd, Hash, Structural)]
pub struct ExtensionId(pub u64);

/// Mode identifier scoped to an [`ExtensionId`].
#[derive(Copy, Clone, Debug, Eq, PartialEq, Ord, PartialOrd, Hash, Structural)]
pub struct Mode(pub u64);

/// Serialized payload shared by TZE inputs and outputs: a precondition when
/// attached to an output, a witness when attached to an input.
#[derive(Clone, Debug, Eq, PartialEq)]
pub struct Data {
    /// Extension identifier.
    pub extension_id: ExtensionId,
    /// Mode identifier.
    pub mode: Mode,
    /// Mode-specific payload.
    pub payload: Vec<u8>,
}

/// A transaction hash, as a 32-byte value copy.
#[derive(Copy, Clone, Debug, Eq, PartialEq, Hash)]
pub struct TxHash(pub [u8; 32]);

/// Reference to a previously created TZE output.
#[derive(Copy, Clone, Debug, Eq, PartialEq, Hash)]
pub struct OutPoint {
    /// Hash of the transaction containing the referenced TZE output.
    pub hash: TxHash,
    /// Output index within that transaction.
    pub index: u32,
}

/// Witness data used to satisfy a previously published precondition.
#[derive(Clone, Debug, Eq, PartialEq)]
pub struct TzeIn {
    /// Reference to the committed precondition.
    pub prevout: OutPoint,
    /// Witness payload to be evaluated by the extension.
    pub witness: Data,
}

/// A TZE output containing spendable value encumbered by a precondition.
#[derive(Clone, Debug, Eq, PartialEq)]
pub struct TzeOut {
    /// Spendable value protected by the extension precondition.
    pub value: Amount,
    /// Extension-defined precondition payload.
    pub precondition: Data,
}

/// The ordered TZE inputs and outputs embedded in one transaction.
#[derive(Clone, Debug, Eq, PartialEq)]
pub struct Bundle {
    /// Witnesses spending prior TZE outputs.
    pub inputs: Vec<TzeIn>,
    /// Newly created TZE outputs.
    pub outputs: Vec<TzeOut>,
}

/// Mathematical view of a [`Data`].
#[verifier::ext_equal]
pub struct DataV {
    pub extension_id: nat,
    pub mode: nat,
    pub payload: Seq<u8>,
}

/// Mathematical view of an [`OutPoint`].
#[verifier::ext_equal]
pub struct OutPointV {
    pub hash: Seq<u8>,
    pub index: nat,
}

/// Mathematical view of a [`TzeIn`].
#[verifier::ext_equal]
pub struct TzeInV {
    pub prevout: OutPointV,
    pub witness: DataV,
}

/// Mathematical view of a [`TzeOut`].
#[verifier::ext_equal]
pub struct TzeOutV {
    pub value: int,
    pub precondition: DataV,
}

/// Mathematical view of a [`Bundle`].
#[verifier::ext_equal]
pub struct BundleV {
    pub inputs: Seq<TzeInV>,
    pub outputs: Seq<TzeOutV>,
}

impl View for Data {
    type V = DataV;

    open spec fn view(&self) -> DataV {
        DataV {
            extension_id: self.extension_id.0 as nat,
            mode: self.mode.0 as nat,
            payload: self.payload@,
        }
    }
}

impl View for OutPoint {
    type V = OutPointV;

    open spec fn view(&self) -> OutPointV {
        OutPointV { hash: self.hash.0@, index: self.index as nat }
    }
}

impl View for TzeIn {
    type V = TzeInV;

    open spec fn view(&self) -> TzeInV {
        TzeInV { prevout: self.prevout@, witness: self.witness@ }
    }
}

impl View for TzeOut {
    type V = TzeOutV;

    open spec fn view(&self) -> TzeOutV {
        TzeOutV { value: self.value@, precondition: self.precondition@ }
    }
}

/// The views of a vector of inputs, element by element.
pub open spec fn view_tzeins(v: Seq<TzeIn>) -> Seq<TzeInV> {
    v.map_values(|t: TzeIn| t@)
}

/// The views of a vector of outputs, element by element.
pub open spec fn view_tzeouts(v: Seq<TzeOut>) -> Seq<TzeOutV> {
    v.map_values(|t: TzeOut| t@)
}

impl View for Bundle {
    type V = BundleV;

    open spec fn view(&self) -> BundleV {
        BundleV { inputs: view_tzeins(self.inputs@), outputs: view_tzeouts(self.outputs@) }
    }
}

/// A view that some in-memory `Data` can have: each varint-encoded field fits
/// 64 bits.
pub open spec fn data_wf(d: DataV) -> bool {
    &&& d.extension_id < pow256(8)
    &&& d.mode < pow256(8)
    &&& d.payload.len() < pow256(8)
}

/// A view that some in-memory `OutPoint` can have.
pub open spec fn outpoint_wf(o: OutPointV) -> bool {
    &&& o.hash.len() == 32
    &&& o.index < pow256(4)
}

/// A view that some in-memory `TzeIn` can have.
pub open spec fn tzein_wf(t: TzeInV) -> bool {
    &&& outpoint_wf(t.prevout)
    &&& data_wf(t.witness)
}

/// A view that some in-memory `TzeOut` can have: the value is non-negative
/// and fits a signed 64-bit field.
pub open spec fn tzeout_wf(t: TzeOutV) -> bool {
    &&& 0 <= t.value < 0x8000_0000_0000_0000
    &&& data_wf(t.precondition)
}

/// A view that some in-memory `Bundle` can have.
pub open spec fn bundle_wf(b: BundleV) -> bool {
    &&& forall|i: int| 0 <= i < b.inputs.len() ==> tzein_wf(#[trigger] b.inputs[i])
    &&& forall|i: int| 0 <= i < b.outputs.len() ==> tzeout_wf(#[trigger] b.outputs[i])
    &&& b.inputs.len() < pow256(8)
    &&& b.outputs.len() < pow256(8)
}

/// The canonical encoding of a `Data`: varint extension id, varint mode,
/// varint payload length, then the raw payload.
pub open spec fn spec_data_bytes(d: DataV) -> Seq<u8> {
    spec_compact_size(d.extension_id) + spec_compact_size(d.mode) + spec_compact_size(
        d.payload.len(),
    ) + d.payload
}

/// The canonical encoding of an `OutPoint`: 32 raw hash bytes, then the
/// 4-byte little-endian index.
pub open spec fn spec_outpoint_bytes(o: OutPointV) -> Seq<u8> {
    o.hash + le_bytes(o.index, 4)
}

/// The canonical encoding of a `TzeIn`: its outpoint, then its witness.
pub open spec fn spec_tzein_bytes(t: TzeInV) -> Seq<u8> {
    spec_outpoint_bytes(t.prevout) + spec_data_bytes(t.witness)
}

/// The canonical encoding of a `TzeOut`: the 8-byte little-endian value,
/// then its precondition.
pub open spec fn spec_tzeout_bytes(t: TzeOutV) -> Seq<u8> {
    le_bytes(t.value as nat, 8) + spec_data_bytes(t.precondition)
}

/// The concatenated encodings of a sequence of inputs, in order.
pub open spec fn spec_tzein_seq_bytes(s: Seq<TzeInV>) -> Seq<u8>
    decreases s.len(),
{
    if s.len() == 0 {
        Seq::empty()
    } else {
        spec_tzein_bytes(s[0]) + spec_tzein_seq_bytes(s.skip(1))
    }
}

/// The concatenated encodings of a sequence of outputs, in order.
pub open spec fn spec_tzeout_seq_bytes(s: Seq<TzeOutV>) -> Seq<u8>
    decreases s.len(),
{
    if s.len() == 0 {
        Seq::empty()
    } else {
        spec_tzeout_bytes(s[0]) + spec_tzeout_seq_bytes(s.skip(1))
    }
}

/// The canonical encoding of a `Bundle`: varint input count, the inputs,
/// varint output count, the outputs.
pub open spec fn spec_bundle_bytes(b: BundleV) -> Seq<u8> {
    spec_compact_size(b.inputs.len()) + spec_tzein_seq_bytes(b.inputs) + spec_compact_size(
        b.outputs.len(),
    ) + spec_tzeout_seq_bytes(b.outputs)
}

/// What decoding a `Data` from the front of `s` yields.
pub open spec fn dec_data(s: Seq<u8>) -> Result<(DataV, nat), SerializationError> {
    match dec_compact(s) {
        Err(e) => Err(e),
        Ok((ext, n1)) => match dec_compact(s.skip(n1 as int)) {
            Err(e) => Err(e),
            Ok((mode, n2)) => match dec_compact(s.skip((n1 + n2) as int)) {
                Err(e) => Err(e),
                Ok((plen, n3)) => {
                    if s.len() < n1 + n2 + n3 + plen {
                        Err(SerializationError::UnexpectedEof)
                    } else {
                        Ok(
                            (
                                DataV {
                                    extension_id: ext,
                                    mode: mode,
                                    payload: s.subrange(
                                        (n1 + n2 + n3) as int,
                                        (n1 + n2 + n3 + plen) as int,
                                    ),
                                },
                                (n1 + n2 + n3 + plen) as nat,
                            ),
                        )
                    }
                },
            },
        },
    }
}

/// What decoding an `OutPoint` from the front of `s` yields.
pub open spec fn dec_outpoint(s: Seq<u8>) -> Result<(OutPointV, nat), SerializationError> {
    if s.len() < 36 {
        Err(SerializationError::UnexpectedEof)
    } else {
        Ok((OutPointV { hash: s.subrange(0, 32), index: le_val(s.subrange(32, 36)) }, 36))
    }
}

/// What decoding a `TzeIn` from the front of `s` yields.
pub open spec fn dec_tzein(s: Seq<u8>) -> Result<(TzeInV, nat), SerializationError> {
    match dec_outpoint(s) {
        Err(e) => Err(e),
        Ok((o, n1)) => match dec_data(s.skip(n1 as int)) {
            Err(e) => Err(e),
            Ok((d, n2)) => Ok((TzeInV { prevout: o, witness: d }, (n1 + n2) as nat)),
        },
    }
}

/// What decoding a `TzeOut` from the front of `s` yields: a raw value field
/// that represents a negative signed integer is a `MalformedValue` error.
pub open spec fn dec_tzeout(s: Seq<u8>) -> Result<(TzeOutV, nat), SerializationError> {
    if s.len() < 8 {
        Err(SerializationError::UnexpectedEof)
    } else if le_val(s.subrange(0, 8)) >= 0x8000_0000_0000_0000 {
        Err(SerializationError::MalformedValue)
    } else {
        match dec_data(s.skip(8)) {
            Err(e) => Err(e),
            Ok((d, n)) => Ok(
                (TzeOutV { value: le_val(s.subrange(0, 8)) as int, precondition: d }, (8 + n) as nat),
            ),
        }
    }
}

/// What decoding exactly `n` consecutive `TzeIn`s from the front of `s`
/// yields: the elements in order and the total bytes consumed, or the first
/// element's error.
pub open spec fn dec_tzein_elems(s: Seq<u8>, n: nat) -> Result<
    (Seq<TzeInV>, nat),
    SerializationError,
>
    decreases n,
{
    if n == 0 {
        Ok((Seq::empty(), 0))
    } else {
        match dec_tzein(s) {
            Err(e) => Err(e),
            Ok((v, u)) => match dec_tzein_elems(s.skip(u as int), (n - 1) as nat) {
                Err(e) => Err(e),
                Ok((tail, u2)) => Ok((seq![v] + tail, (u + u2) as nat)),
            },
        }
    }
}

/// What decoding exactly `n` consecutive `TzeOut`s from the front of `s`
/// yields.
pub open spec fn dec_tzeout_elems(s: Seq<u8>, n: nat) -> Result<
    (Seq<TzeOutV>, nat),
    SerializationError,
>
    decreases n,
{
    if n == 0 {
        Ok((Seq::empty(), 0))
    } else {
        match dec_tzeout(s) {
            Err(e) => Err(e),
            Ok((v, u)) => match dec_tzeout_elems(s.skip(u as int), (n - 1) as nat) {
                Err(e) => Err(e),
                Ok((tail, u2)) => Ok((seq![v] + tail, (u + u2) as nat)),
            },
        }
    }
}

/// What decoding a `Bundle` from the front of `s` yields: a count prefix
/// beyond a type's preallocation bound is rejected outright, before any
/// element is examined.
pub open spec fn dec_bundle(s: Seq<u8>) -> Result<(BundleV, nat), SerializationError> {
    match dec_compact(s) {
        Err(e) => Err(e),
        Ok((cin, n1)) => {
            if cin > (MAX_BLOCK_BYTES / MIN_TZE_INPUT_SIZE) as nat {
                Err(SerializationError::DisallowedVectorLength)
            } else {
                match dec_tzein_elems(s.skip(n1 as int), cin) {
                    Err(e) => Err(e),
                    Ok((ins, u1)) => match dec_compact(s.skip((n1 + u1) as int)) {
                        Err(e) => Err(e),
                        Ok((cout, n2)) => {
                            if cout > (MAX_BLOCK_BYTES / MIN_TZE_OUTPUT_SIZE) as nat {
                                Err(SerializationError::DisallowedVectorLength)
                            } else {
                                match dec_tzeout_elems(s.skip((n1 + u1 + n2) as int), cout) {
                                    Err(e) => Err(e),
                                    Ok((outs, u2)) => Ok(
                                        (
                                            BundleV { inputs: ins, outputs: outs },
                                            (n1 + u1 + n2 + u2) as nat,
                                        ),
                                    ),
                                }
                            }
                        },
                    },
                }
            }
        },
    }
}

impl Data {
    /// Returns `true` if the payload is empty.
    pub fn payload_is_empty(&self) -> (r: bool)
        ensures
            r == (self@.payload.len() == 0),
    {
        self.payload.len() == 0
    }

    /// Appends the canonical encoding of this `Data` to `out`; encoding is
    /// total and never fails.
    pub fn zcash_serialize(&self, out: &mut Vec<u8>)
        ensures
            final(out)@ == old(out)@ + spec_data_bytes(self@),
    {
        let ghost start = out@;
        write_compact_size(out, self.extension_id.0);
        write_compact_size(out, self.mode.0);
        write_compact_size(out, self.payload.len() as u64);
        write_bytes(out, &self.payload);
        proof {
            assert(out@ =~= start + spec_data_bytes(self@));
        }
    }

    /// Decodes a `Data` from `buf` at `pos`; returns the value and the
    /// position just past it, exactly as [`dec_data`] says.
    #[verifier::rlimit(60)]
    pub fn zcash_deserialize(buf: &Vec<u8>, pos: usize) -> (r: Result<
        (Data, usize),
        SerializationError,
    >)
        requires
            pos <= buf@.len(),
        ensures
            (match r {
                Ok(p) => pos <= p.1 <= buf@.len() && dec_data(buf@.skip(pos as int)) == Ok::<
                    (DataV, nat),
                    SerializationError,
                >((p.0@, (p.1 - pos) as nat)),
                Err(e) => dec_data(buf@.skip(pos as int)) == Err::<
                    (DataV, nat),
                    SerializationError,
                >(e),
            }),
    {
        let ghost s = buf@.skip(pos as int);
        let (ext, pos1) = match read_compact_size(buf, pos) {
            Ok(p) => p,
            Err(e) => {
                return Err(e);
            },
        };
        proof {
            assert(s.skip((pos1 - pos) as int) =~= buf@.skip(pos1 as int));
        }
        let (mode, pos2) = match read_compact_size(buf, pos1) {
            Ok(p) => p,
            Err(e) => {
                return Err(e);
            },
        };
        proof {
            assert(s.skip((pos2 - pos) as int) =~= buf@.skip(pos2 as int));
        }
        let (plen, pos3) = match read_compact_size(buf, pos2) {
            Ok(p) => p,
            Err(e) => {
                return Err(e);
            },
        };
        let remaining = buf.len() - pos3;
        if plen > remaining as u64 {
            return Err(SerializationError::UnexpectedEof);
        }
        let payload = read_bytes(buf, pos3, plen as usize);
        let end = pos3 + plen as usize;
        let d = Data { extension_id: ExtensionId(ext), mode: Mode(mode), payload };
        proof {
            assert(s.subrange((pos3 - pos) as int, (end - pos) as int) =~= buf@.subrange(
                pos3 as int,
                end as int,
            ));
            let dv = dec_data(s)->Ok_0.0;
            assert(d@ =~= dv);
        }
        Ok((d, end))
    }
}

impl OutPoint {
    /// Builds an `OutPoint` from an in-memory output position; a position
    /// beyond `u32::MAX` is a programming error, not a decode error, and is
    /// excluded by precondition.
    pub fn from_usize(hash: TxHash, index: usize) -> (r: OutPoint)
        requires
            index <= u32::MAX,
        ensures
            r.hash == hash,
            r.index == index as u32,
    {
        OutPoint { hash, index: index as u32 }
    }

    /// Appends the canonical encoding of this `OutPoint` to `out`.
    pub fn zcash_serialize(&self, out: &mut Vec<u8>)
        ensures
            final(out)@ == old(out)@ + spec_outpoint_bytes(self@),
    {
        let ghost start = out@;
        let mut i: usize = 0;
        while i < 32
            invariant
                i <= 32,
                out@ == start + self.hash.0@.take(i as int),
            decreases 32 - i,
        {
            out.push(self.hash.0[i]);
            i = i + 1;
            proof {
                assert(out@ =~= start + self.hash.0@.take(i as int));
            }
        }
        proof {
            assert(self.hash.0@.take(32) =~= self.hash.0@);
        }
        write_le_bytes(out, self.index as u64, 4);
        proof {
            assert(out@ =~= start + spec_outpoint_bytes(self@));
        }
    }

    /// Decodes an `OutPoint` from `buf` at `pos`, exactly as
    /// [`dec_outpoint`] says.
    pub fn zcash_deserialize(buf: &Vec<u8>, pos: usize) -> (r: Result<
        (OutPoint, usize),
        SerializationError,
    >)
        requires
            pos <= buf@.len(),
        ensures
            (match r {
                Ok(p) => pos <= p.1 <= buf@.len() && dec_outpoint(buf@.skip(pos as int)) == Ok::<
                    (OutPointV, nat),
                    SerializationError,
                >((p.0@, (p.1 - pos) as nat)),
                Err(e) => dec_outpoint(buf@.skip(pos as int)) == Err::<
                    (OutPointV, nat),
                    SerializationError,
                >(e),
            }),
    {
        let ghost s = buf@.skip(pos as int);
        let blen = buf.len();
        if blen - pos < 36 {
            return Err(SerializationError::UnexpectedEof);
        }
        let mut hash: [u8; 32] = [0u8; 32];
        let mut i: usize = 0;
        while i < 32
            invariant
                i <= 32,
                pos + 36 <= blen == buf@.len(),
                forall|j: int| 0 <= j < i ==> hash@[j] == buf@[pos + j],
            decreases 32 - i,
        {
            hash[i] = buf[pos + i];
            i = i + 1;
        }
        let index_u64 = read_le_bytes(buf, pos + 32, 4);
        proof {
            lemma_le_val_bound(buf@.subrange((pos + 32) as int, (pos + 36) as int));
            lemma_pow256_values();
            assert(s.subrange(0, 32) =~= buf@.subrange(pos as int, (pos + 32) as int));
            assert(s.subrange(32, 36) =~= buf@.subrange((pos + 32) as int, (pos + 36) as int));
            assert(hash@ =~= s.subrange(0, 32));
        }
        let index = index_u64 as u32;
        let o = OutPoint { hash: TxHash(hash), index };
        proof {
            assert(o@ =~= dec_outpoint(s)->Ok_0.0);
        }
        Ok((o, pos + 36))
    }
}

impl TzeIn {
    /// The preallocation bound for `TzeIn` collections: no valid container
    /// can hold more inputs than fit its byte ceiling at minimal size.
    pub fn max_allocation() -> (r: u64)
        ensures
            r == MAX_BLOCK_BYTES / MIN_TZE_INPUT_SIZE,
    {
        MAX_BLOCK_BYTES / MIN_TZE_INPUT_SIZE
    }

    /// Appends the canonical encoding of this `TzeIn` to `out`.
    pub fn zcash_serialize(&self, out: &mut Vec<u8>)
        ensures
            final(out)@ == old(out)@ + spec_tzein_bytes(self@),
    {
        let ghost start = out@;
        self.prevout.zcash_serialize(out);
        self.witness.zcash_serialize(out);
        proof {
            assert(out@ =~= start + spec_tzein_bytes(self@));
        }
    }

    /// Decodes a `TzeIn` from `buf` at `pos`, exactly as [`dec_tzein`] says.
    pub fn zcash_deserialize(buf: &Vec<u8>, pos: usize) -> (r: Result<
        (TzeIn, usize),
        SerializationError,
    >)
        requires
            pos <= buf@.len(),
        ensures
            (match r {
                Ok(p) => pos <= p.1 <= buf@.len() && dec_tzein(buf@.skip(pos as int)) == Ok::<
                    (TzeInV, nat),
                    SerializationError,
                >((p.0@, (p.1 - pos) as nat)),
                Err(e) => dec_tzein(buf@.skip(pos as int)) == Err::<
                    (TzeInV, nat),
                    SerializationError,
                >(e),
            }),
    {
        let ghost s = buf@.skip(pos as int);
        let (prevout, pos1) = match OutPoint::zcash_deserialize(buf, pos) {
            Ok(p) => p,
            Err(e) => {
                return Err(e);
            },
        };
        proof {
            assert(s.skip((pos1 - pos) as int) =~= buf@.skip(pos1 as int));
        }
        let (witness, pos2) = match Data::zcash_deserialize(buf, pos1) {
            Ok(p) => p,
            Err(e) => {
                return Err(e);
            },
        };
        let t = TzeIn { prevout, witness };
        proof {
            assert(t@ =~= dec_tzein(s)->Ok_0.0);
        }
        Ok((t, pos2))
    }
}

impl TzeOut {
    /// The preallocation bound for `TzeOut` collections.
    pub fn max_allocation() -> (r: u64)
        ensures
            r == MAX_BLOCK_BYTES / MIN_TZE_OUTPUT_SIZE,
    {
        MAX_BLOCK_BYTES / MIN_TZE_OUTPUT_SIZE
    }

    /// Appends the canonical encoding of this `TzeOut` to `out`.
    pub fn zcash_serialize(&self, out: &mut Vec<u8>)
        ensures
            final(out)@ == old(out)@ + spec_tzeout_bytes(self@),
    {
        let ghost start = out@;
        let v = self.value.zatoshis();
        write_le_bytes(out, v as u64, 8);
        self.precondition.zcash_serialize(out);
        proof {
            assert(out@ =~= start + spec_tzeout_bytes(self@));
        }
    }

    /// Decodes a `TzeOut` from `buf` at `pos`, exactly as [`dec_tzeout`]
    /// says; a raw value with the sign bit set is rejected as malformed.
    pub fn zcash_deserialize(buf: &Vec<u8>, pos: usize) -> (r: Result<
        (TzeOut, usize),
        SerializationError,
    >)
        requires
            pos <= buf@.len(),
        ensures
            (match r {
                Ok(p) => pos <= p.1 <= buf@.len() && dec_tzeout(buf@.skip(pos as int)) == Ok::<
                    (TzeOutV, nat),
                    SerializationError,
                >((p.0@, (p.1 - pos) as nat)),
                Err(e) => dec_tzeout(buf@.skip(pos as int)) == Err::<
                    (TzeOutV, nat),
                    SerializationError,
                >(e),
            }),
    {
        let ghost s = buf@.skip(pos as int);
        let blen = buf.len();
        if blen - pos < 8 {
            return Err(SerializationError::UnexpectedEof);
        }
        let raw = read_le_bytes(buf, pos, 8);
        proof {
            assert(s.subrange(0, 8) =~= buf@.subrange(pos as int, (pos + 8) as int));
        }
        if raw >= 0x8000_0000_0000_0000 {
            return Err(SerializationError::MalformedValue);
        }
        let value = Amount::from_i64(raw as i64).unwrap();
        proof {
            assert(s.skip(8) =~= buf@.skip((pos + 8) as int));
        }
        let (precondition, pos2) = match Data::zcash_deserialize(buf, pos + 8) {
            Ok(p) => p,
            Err(e) => {
                return Err(e);
            },
        };
        let t = TzeOut { value, precondition };
        proof {
            assert(t@ =~= dec_tzeout(s)->Ok_0.0);
        }
        Ok((t, pos2))
    }
}

/// Decodes exactly `n` consecutive `TzeIn`s from `buf` at `pos`.  The bound
/// on `n` is the preallocation ceiling: the caller has already rejected any
/// larger count, so the vector preallocated here is never sized by an
/// unvalidated count.
fn read_tzein_elems(buf: &Vec<u8>, pos: usize, n: u64) -> (r: Result<
    (Vec<TzeIn>, usize),
    SerializationError,
>)
    requires
        pos <= buf@.len(),
        n <= MAX_BLOCK_BYTES / MIN_TZE_INPUT_SIZE,
    ensures
        (match r {
            Ok(p) => pos <= p.1 <= buf@.len() && dec_tzein_elems(buf@.skip(pos as int), n as nat)
                == Ok::<(Seq<TzeInV>, nat), SerializationError>(
                (view_tzeins(p.0@), (p.1 - pos) as nat),
            ),
            Err(e) => dec_tzein_elems(buf@.skip(pos as int), n as nat) == Err::<
                (Seq<TzeInV>, nat),
                SerializationError,
            >(e),
        }),
{
    let ghost s0 = buf@.skip(pos as int);
    let mut acc: Vec<TzeIn> = Vec::with_capacity(n as usize);
    let mut cur: usize = pos;
    let mut i: u64 = 0;
    proof {
        assert(view_tzeins(acc@) =~= Seq::<TzeInV>::empty());
        match dec_tzein_elems(s0, n as nat) {
            Ok(p) => {
                assert(view_tzeins(acc@) + p.0 =~= p.0);
            },
            Err(_) => {},
        }
    }
    while i < n
        invariant
            i <= n,
            pos <= cur <= buf@.len(),
            s0 == buf@.skip(pos as int),
            dec_tzein_elems(s0, n as nat) == (match dec_tzein_elems(
                buf@.skip(cur as int),
                (n - i) as nat,
            ) {
                Ok(p) => Ok::<(Seq<TzeInV>, nat), SerializationError>(
                    (view_tzeins(acc@) + p.0, ((cur - pos) + p.1) as nat),
                ),
                Err(e) => Err::<(Seq<TzeInV>, nat), SerializationError>(e),
            }),
        decreases n - i,
    {
        let ghost scur = buf@.skip(cur as int);
        let ghost rem = (n - i) as nat;
        let (elem, next) = match TzeIn::zcash_deserialize(buf, cur) {
            Ok(p) => p,
            Err(e) => {
                proof {
                    assert(dec_tzein_elems(scur, rem) == Err::<
                        (Seq<TzeInV>, nat),
                        SerializationError,
                    >(e));
                }
                return Err(e);
            },
        };
        proof {
            assert(scur.skip((next - cur) as int) =~= buf@.skip(next as int));
        }
        let ghost old_acc = acc@;
        acc.push(elem);
        cur = next;
        i = i + 1;
        proof {
            assert(view_tzeins(acc@) =~= view_tzeins(old_acc) + seq![elem@]);
            match dec_tzein_elems(buf@.skip(cur as int), (n - i) as nat) {
                Ok(p) => {
                    assert(view_tzeins(old_acc) + (seq![elem@] + p.0) =~= view_tzeins(acc@) + p.0);
                },
                Err(_) => {},
            }
        }
    }
    proof {
        assert(view_tzeins(acc@) + Seq::<TzeInV>::empty() =~= view_tzeins(acc@));
    }
    Ok((acc, cur))
}

/// Decodes exactly `n` consecutive `TzeOut`s from `buf` at `pos`, under the
/// `TzeOut` preallocation ceiling.
fn read_tzeout_elems(buf: &Vec<u8>, pos: usize, n: u64) -> (r: Result<
    (Vec<TzeOut>, usize),
    SerializationError,
>)
    requires
        pos <= buf@.len(),
        n <= MAX_BLOCK_BYTES / MIN_TZE_OUTPUT_SIZE,
    ensures
        (match r {
            Ok(p) => pos <= p.1 <= buf@.len() && dec_tzeout_elems(buf@.skip(pos as int), n as nat)
                == Ok::<(Seq<TzeOutV>, nat), SerializationError>(
                (view_tzeouts(p.0@), (p.1 - pos) as nat),
            ),
            Err(e) => dec_tzeout_elems(buf@.skip(pos as int), n as nat) == Err::<
                (Seq<TzeOutV>, nat),
                SerializationError,
            >(e),
        }),
{
    let ghost s0 = buf@.skip(pos as int);
    let mut acc: Vec<TzeOut> = Vec::with_capacity(n as usize);
    let mut cur: usize = pos;
    let mut i: u64 = 0;
    proof {
        assert(view_tzeouts(acc@) =~= Seq::<TzeOutV>::empty());
        match dec_tzeout_elems(s0, n as nat) {
            Ok(p) => {
                assert(view_tzeouts(acc@) + p.0 =~= p.0);
            },
            Err(_) => {},
        }
    }
    while i < n
        invariant
            i <= n,
            pos <= cur <= buf@.len(),
            s0 == buf@.skip(pos as int),
            dec_tzeout_elems(s0, n as nat) == (match dec_tzeout_elems(
                buf@.skip(cur as int),
                (n - i) as nat,
            ) {
                Ok(p) => Ok::<(Seq<TzeOutV>, nat), SerializationError>(
                    (view_tzeouts(acc@) + p.0, ((cur - pos) + p.1) as nat),
                ),
                Err(e) => Err::<(Seq<TzeOutV>, nat), SerializationError>(e),
            }),
        decreases n - i,
    {
        let ghost scur = buf@.skip(cur as int);
        let ghost rem = (n - i) as nat;
        let (elem, next) = match TzeOut::zcash_deserialize(buf, cur) {
            Ok(p) => p,
            Err(e) => {
                proof {
                    assert(dec_tzeout_elems(scur, rem) == Err::<
                        (Seq<TzeOutV>, nat),
                        SerializationError,
                    >(e));
                }
                return Err(e);
            },
        };
        proof {
            assert(scur.skip((next - cur) as int) =~= buf@.skip(next as int));
        }
        let ghost old_acc = acc@;
        acc.push(elem);
        cur = next;
        i = i + 1;
        proof {
            assert(view_tzeouts(acc@) =~= view_tzeouts(old_acc) + seq![elem@]);
            match dec_tzeout_elems(buf@.skip(cur as int), (n - i) as nat) {
                Ok(p) => {
                    assert(view_tzeouts(old_acc) + (seq![elem@] + p.0) =~= view_tzeouts(acc@)
                        + p.0);
                },
                Err(_) => {},
            }
        }
    }
    proof {
        assert(view_tzeouts(acc@) + Seq::<TzeOutV>::empty() =~= view_tzeouts(acc@));
    }
    Ok((acc, cur))
}

impl Bundle {
    /// The preallocation bound for `Bundle` itself: at most one TZE bundle
    /// per transaction.
    pub fn max_allocation() -> (r: u64)
        ensures
            r == 1,
    {
        1
    }

    /// Appends the canonical encoding of this `Bundle` to `out`.
    pub fn zcash_serialize(&self, out: &mut Vec<u8>)
        ensures
            final(out)@ == old(out)@ + spec_bundle_bytes(self@),
    {
        let ghost start = out@;
        let ghost ins = view_tzeins(self.inputs@);
        let ghost outs = view_tzeouts(self.outputs@);
        write_compact_size(out, self.inputs.len() as u64);
        let ghost base1 = out@;
        let ghost mut done: Seq<u8> = Seq::empty();
        proof {
            assert(ins.skip(0) =~= ins);
            assert(done + spec_tzein_seq_bytes(ins) =~= spec_tzein_seq_bytes(ins));
        }
        let n_in = self.inputs.len();
        let mut i: usize = 0;
        while i < n_in
            invariant
                i <= n_in == self.inputs@.len(),
                ins == view_tzeins(self.inputs@),
                out@ == base1 + done,
                spec_tzein_seq_bytes(ins) == done + spec_tzein_seq_bytes(ins.skip(i as int)),
            decreases n_in - i,
        {
            let ghost tail = ins.skip(i as int);
            self.inputs[i].zcash_serialize(out);
            proof {
                assert(tail[0] == ins[i as int]);
                assert(tail.skip(1) =~= ins.skip(i + 1));
                done = done + spec_tzein_bytes(ins[i as int]);
                assert(out@ =~= base1 + done);
                assert(spec_tzein_seq_bytes(ins) =~= done + spec_tzein_seq_bytes(
                    ins.skip(i + 1),
                ));
            }
            i = i + 1;
        }
        proof {
            assert(ins.skip(n_in as int) =~= Seq::<TzeInV>::empty());
            assert(done + Seq::<u8>::empty() =~= done);
        }
        write_compact_size(out, self.outputs.len() as u64);
        let ghost base2 = out@;
        let ghost mut done2: Seq<u8> = Seq::empty();
        proof {
            assert(outs.skip(0) =~= outs);
            assert(done2 + spec_tzeout_seq_bytes(outs) =~= spec_tzeout_seq_bytes(outs));
        }
        let n_out = self.outputs.len();
        let mut j: usize = 0;
        while j < n_out
            invariant
                j <= n_out == self.outputs@.len(),
                outs == view_tzeouts(self.outputs@),
                out@ == base2 + done2,
                spec_tzeout_seq_bytes(outs) == done2 + spec_tzeout_seq_bytes(outs.skip(j as int)),
            decreases n_out - j,
        {
            let ghost tail = outs.skip(j as int);
            self.outputs[j].zcash_serialize(out);
            proof {
                assert(tail[0] == outs[j as int]);
                assert(tail.skip(1) =~= outs.skip(j + 1));
                done2 = done2 + spec_tzeout_bytes(outs[j as int]);
                assert(out@ =~= base2 + done2);
                assert(spec_tzeout_seq_bytes(outs) =~= done2 + spec_tzeout_seq_bytes(
                    outs.skip(j + 1),
                ));
            }
            j = j + 1;
        }
        proof {
            assert(outs.skip(n_out as int) =~= Seq::<TzeOutV>::empty());
            assert(done2 + Seq::<u8>::empty() =~= done2);
            assert(out@ =~= start + spec_bundle_bytes(self@));
        }
    }

    /// Decodes a `Bundle` from `buf` at `pos`, exactly as [`dec_bundle`]
    /// says: a count prefix beyond a preallocation bound fails with
    /// `DisallowedVectorLength` before any element vector is allocated.
    #[verifier::rlimit(60)]
    pub fn zcash_deserialize(buf: &Vec<u8>, pos: usize) -> (r: Result<
        (Bundle, usize),
        SerializationError,
    >)
        requires
            pos <= buf@.len(),
        ensures
            (match r {
                Ok(p) => pos <= p.1 <= buf@.len() && dec_bundle(buf@.skip(pos as int)) == Ok::<
                    (BundleV, nat),
                    SerializationError,
                >((p.0@, (p.1 - pos) as nat)),
                Err(e) => dec_bundle(buf@.skip(pos as int)) == Err::<
                    (BundleV, nat),
                    SerializationError,
                >(e),
            }),
    {
        let ghost s = buf@.skip(pos as int);
        let (cin, pos1) = match read_compact_size(buf, pos) {
            Ok(p) => p,
            Err(e) => {
                return Err(e);
            },
        };
        if cin > TzeIn::max_allocation() {
            return Err(SerializationError::DisallowedVectorLength);
        }
        proof {
            assert(s.skip((pos1 - pos) as int) =~= buf@.skip(pos1 as int));
        }
        let (inputs, pos2) = match read_tzein_elems(buf, pos1, cin) {
            Ok(p) => p,
            Err(e) => {
                return Err(e);
            },
        };
        proof {
            assert(s.skip((pos2 - pos) as int) =~= buf@.skip(pos2 as int));
        }
        let (cout, pos3) = match read_compact_size(buf, pos2) {
            Ok(p) => p,
            Err(e) => {
                return Err(e);
            },
        };
        if cout > TzeOut::max_allocation() {
            return Err(SerializationError::DisallowedVectorLength);
        }
        proof {
            assert(s.skip((pos3 - pos) as int) =~= buf@.skip(pos3 as int));
        }
        let (outputs, pos4) = match read_tzeout_elems(buf, pos3, cout) {
            Ok(p) => p,
            Err(e) => {
                return Err(e);
            },
        };
        let b = Bundle { inputs, outputs };
        proof {
            assert(b@ =~= dec_bundle(s)->Ok_0.0);
        }
        Ok((b, pos4))
    }
}

impl Default for Bundle {
    /// The empty bundle: no inputs and no outputs, a valid value in its own
    /// right.
    fn default() -> (r: Bundle)
        ensures
            r@.inputs.len() == 0,
            r@.outputs.len() == 0,
    {
        Bundle { inputs: Vec::new(), outputs: Vec::new() }
    }
}

/// Convenience helper to produce an empty bundle.
pub fn empty_bundle() -> (r: Bundle)
    ensures
        r@.inputs.len() == 0,
        r@.outputs.len() == 0,
{
    Bundle::default()
}

/// The character for one decimal digit.
pub open spec fn spec_digit(d: nat) -> char {
    if d == 0 {
        '0'
    } else if d == 1 {
        '1'
    } else if d == 2 {
        '2'
    } else if d == 3 {
        '3'
    } else if d == 4 {
        '4'
    } else if d == 5 {
        '5'
    } else if d == 6 {
        '6'
    } else if d == 7 {
        '7'
    } else if d == 8 {
        '8'
    } else {
        '9'
    }
}

/// The decimal digits of `n`, most significant first.
pub open spec fn spec_decimal(n: nat) -> Seq<char>
    decreases n,
{
    if n < 10 {
        seq![spec_digit(n)]
    } else {
        spec_decimal(n / 10).push(spec_digit(n % 10))
    }
}

/// Appends the decimal rendering of `n` to `out`.
fn push_decimal(out: &mut String, n: u64)
    ensures
        final(out)@ == old(out)@ + spec_decimal(n as nat),
    decreases n,
{
    let ghost start = out@;
    if n >= 10 {
        push_decimal(out, n / 10);
    }
    let d = n % 10;
    let ds: &str = if d == 0 {
        "0"
    } else if d == 1 {
        "1"
    } else if d == 2 {
        "2"
    } else if d == 3 {
        "3"
    } else if d == 4 {
        "4"
    } else if d == 5 {
        "5"
    } else if d == 6 {
        "6"
    } else if d == 7 {
        "7"
    } else if d == 8 {
        "8"
    } else {
        "9"
    };
    proof {
        reveal_strlit("0");
        reveal_strlit("1");
        reveal_strlit("2");
        reveal_strlit("3");
        reveal_strlit("4");
        reveal_strlit("5");
        reveal_strlit("6");
        reveal_strlit("7");
        reveal_strlit("8");
        reveal_strlit("9");
        assert(ds@ =~= seq![spec_digit((n % 10) as nat)]);
    }
    out.append(ds);
    proof {
        assert(out@ =~= start + spec_decimal(n as nat));
    }
}

impl Bundle {
    /// A human-readable summary naming the input and output counts; the
    /// diagnostic counterpart of the wire codec, not part of it.
    pub fn describe(&self) -> (r: String)
        ensures
            r@ == "tze::Bundle { inputs: "@ + spec_decimal(self@.inputs.len())
                + ", outputs: "@ + spec_decimal(self@.outputs.len()) + " }"@,
    {
        let mut r = String::new();
        r.append("tze::Bundle { inputs: ");
        push_decimal(&mut r, self.inputs.len() as u64);
        r.append(", outputs: ");
        push_decimal(&mut r, self.outputs.len() as u64);
        r.append(" }");
        proof {
            assert(r@ =~= "tze::Bundle { inputs: "@ + spec_decimal(self@.inputs.len())
                + ", outputs: "@ + spec_decimal(self@.outputs.len()) + " }"@);
        }
        r
    }
}

/// Round trip for `Data`: the canonical encoding of any well-formed value,
/// followed by anything, decodes back to exactly that value, consuming
/// exactly the encoding.
pub proof fn lemma_data_roundtrip(d: DataV, rest: Seq<u8>)
    requires
        data_wf(d),
    ensures
        dec_data(spec_data_bytes(d) + rest) == Ok::<(DataV, nat), SerializationError>(
            (d, spec_data_bytes(d).len()),
        ),
{
    lemma_pow256_values();
    let e1 = spec_compact_size(d.extension_id);
    let e2 = spec_compact_size(d.mode);
    let e3 = spec_compact_size(d.payload.len());
    let plen = d.payload.len();
    let s = spec_data_bytes(d) + rest;
    assert(s =~= e1 + (e2 + (e3 + (d.payload + rest))));
    lemma_compact_roundtrip(d.extension_id, e2 + (e3 + (d.payload + rest)));
    assert(s.skip(e1.len() as int) =~= e2 + (e3 + (d.payload + rest)));
    lemma_compact_roundtrip(d.mode, e3 + (d.payload + rest));
    assert(s.skip((e1.len() + e2.len()) as int) =~= e3 + (d.payload + rest));
    lemma_compact_roundtrip(plen, d.payload + rest);
    let off = e1.len() + e2.len() + e3.len();
    assert(s.subrange(off as int, (off + plen) as int) =~= d.payload);
    let decoded = dec_data(s)->Ok_0.0;
    assert(decoded =~= d);
}

/// Round trip for `OutPoint`.
pub proof fn lemma_outpoint_roundtrip(o: OutPointV, rest: Seq<u8>)
    requires
        outpoint_wf(o),
    ensures
        dec_outpoint(spec_outpoint_bytes(o) + rest) == Ok::<(OutPointV, nat), SerializationError>(
            (o, 36),
        ),
        spec_outpoint_bytes(o).len() == 36,
{
    let s = spec_outpoint_bytes(o) + rest;
    lemma_le_bytes_len(o.index, 4);
    assert(s.subrange(0, 32) =~= o.hash);
    assert(s.subrange(32, 36) =~= le_bytes(o.index, 4));
    lemma_le_val_of_le_bytes(o.index, 4);
    let decoded = dec_outpoint(s)->Ok_0.0;
    assert(decoded =~= o);
}

/// Round trip for `TzeIn`.
pub proof fn lemma_tzein_roundtrip(t: TzeInV, rest: Seq<u8>)
    requires
        tzein_wf(t),
    ensures
        dec_tzein(spec_tzein_bytes(t) + rest) == Ok::<(TzeInV, nat), SerializationError>(
            (t, spec_tzein_bytes(t).len()),
        ),
{
    let s = spec_tzein_bytes(t) + rest;
    let wrest = spec_data_bytes(t.witness) + rest;
    assert(s =~= spec_outpoint_bytes(t.prevout) + wrest);
    lemma_outpoint_roundtrip(t.prevout, wrest);
    assert(s.skip(36) =~= wrest);
    lemma_data_roundtrip(t.witness, rest);
    let decoded = dec_tzein(s)->Ok_0.0;
    assert(decoded =~= t);
}

/// Round trip for `TzeOut`: in particular, a well-formed (non-negative)
/// value is never rejected as malformed.
pub proof fn lemma_tzeout_roundtrip(t: TzeOutV, rest: Seq<u8>)
    requires
        tzeout_wf(t),
    ensures
        dec_tzeout(spec_tzeout_bytes(t) + rest) == Ok::<(TzeOutV, nat), SerializationError>(
            (t, spec_tzeout_bytes(t).len()),
        ),
{
    lemma_pow256_values();
    let s = spec_tzeout_bytes(t) + rest;
    lemma_le_bytes_len(t.value as nat, 8);
    assert(s.subrange(0, 8) =~= le_bytes(t.value as nat, 8));
    lemma_le_val_of_le_bytes(t.value as nat, 8);
    assert(s.skip(8) =~= spec_data_bytes(t.precondition) + rest);
    lemma_data_roundtrip(t.precondition, rest);
    let decoded = dec_tzeout(s)->Ok_0.0;
    assert(decoded =~= t);
}

/// Round trip for a sequence of `TzeIn`s decoded with its exact count.
#[verifier::rlimit(100)]
pub proof fn lemma_tzein_elems_roundtrip(s: Seq<TzeInV>, rest: Seq<u8>)
    requires
        forall|i: int| 0 <= i < s.len() ==> tzein_wf(#[trigger] s[i]),
    ensures
        dec_tzein_elems(spec_tzein_seq_bytes(s) + rest, s.len()) == Ok::<
            (Seq<TzeInV>, nat),
            SerializationError,
        >((s, spec_tzein_seq_bytes(s).len())),
    decreases s.len(),
{
    let bytes = spec_tzein_seq_bytes(s) + rest;
    if s.len() == 0 {
        assert(spec_tzein_seq_bytes(s) + rest =~= rest);
        assert(s =~= Seq::<TzeInV>::empty());
    } else {
        let hd = s[0];
        let tl = s.skip(1);
        let tlrest = spec_tzein_seq_bytes(tl) + rest;
        assert(bytes =~= spec_tzein_bytes(hd) + tlrest);
        lemma_tzein_roundtrip(hd, tlrest);
        let hdlen = spec_tzein_bytes(hd).len();
        assert(bytes.skip(hdlen as int) =~= tlrest);
        assert(forall|i: int| 0 <= i < tl.len() ==> tzein_wf(#[trigger] tl[i]));
        lemma_tzein_elems_roundtrip(tl, rest);
        assert(seq![hd] + tl =~= s);
    }
}

/// Round trip for a sequence of `TzeOut`s decoded with its exact count.
#[verifier::rlimit(100)]
pub proof fn lemma_tzeout_elems_roundtrip(s: Seq<TzeOutV>, rest: Seq<u8>)
    requires
        forall|i: int| 0 <= i < s.len() ==> tzeout_wf(#[trigger] s[i]),
    ensures
        dec_tzeout_elems(spec_tzeout_seq_bytes(s) + rest, s.len()) == Ok::<
            (Seq<TzeOutV>, nat),
            SerializationError,
        >((s, spec_tzeout_seq_bytes(s).len())),
    decreases s.len(),
{
    let bytes = spec_tzeout_seq_bytes(s) + rest;
    if s.len() == 0 {
        assert(spec_tzeout_seq_bytes(s) + rest =~= rest);
        assert(s =~= Seq::<TzeOutV>::empty());
    } else {
        let hd = s[0];
        let tl = s.skip(1);
        let tlrest = spec_tzeout_seq_bytes(tl) + rest;
        assert(bytes =~= spec_tzeout_bytes(hd) + tlrest);
        lemma_tzeout_roundtrip(hd, tlrest);
        let hdlen = spec_tzeout_bytes(hd).len();
        assert(bytes.skip(hdlen as int) =~= tlrest);
        assert(forall|i: int| 0 <= i < tl.len() ==> tzeout_wf(#[trigger] tl[i]));
        lemma_tzeout_elems_roundtrip(tl, rest);
        assert(seq![hd] + tl =~= s);
    }
}

/// The four decode steps a bundle's encoding splits into; the workhorse
/// behind [`lemma_bundle_roundtrip`].
#[verifier::rlimit(100)]
proof fn lemma_bundle_roundtrip_parts(b: BundleV, rest: Seq<u8>)
    requires
        bundle_wf(b),
    ensures
        ({
            let c1 = spec_compact_size(b.inputs.len());
            let ib = spec_tzein_seq_bytes(b.inputs);
            let c2 = spec_compact_size(b.outputs.len());
            let ob = spec_tzeout_seq_bytes(b.outputs);
            let s = spec_bundle_bytes(b) + rest;
            &&& dec_compact(s) == Ok::<(nat, nat), SerializationError>(
                (b.inputs.len(), c1.len()),
            )
            &&& dec_tzein_elems(s.skip(c1.len() as int), b.inputs.len()) == Ok::<
                (Seq<TzeInV>, nat),
                SerializationError,
            >((b.inputs, ib.len()))
            &&& dec_compact(s.skip((c1.len() + ib.len()) as int)) == Ok::<
                (nat, nat),
                SerializationError,
            >((b.outputs.len(), c2.len()))
            &&& dec_tzeout_elems(
                s.skip((c1.len() + ib.len() + c2.len()) as int),
                b.outputs.len(),
            ) == Ok::<(Seq<TzeOutV>, nat), SerializationError>((b.outputs, ob.len()))
            &&& spec_bundle_bytes(b).len() == c1.len() + ib.len() + c2.len() + ob.len()
        }),
{
    lemma_pow256_values();
    let c1 = spec_compact_size(b.inputs.len());
    let ib = spec_tzein_seq_bytes(b.inputs);
    let c2 = spec_compact_size(b.outputs.len());
    let ob = spec_tzeout_seq_bytes(b.outputs);
    let s = spec_bundle_bytes(b) + rest;
    assert(s =~= c1 + (ib + (c2 + (ob + rest))));
    lemma_compact_roundtrip(b.inputs.len(), ib + (c2 + (ob + rest)));
    assert(s.skip(c1.len() as int) =~= ib + (c2 + (ob + rest)));
    lemma_tzein_elems_roundtrip(b.inputs, c2 + (ob + rest));
    assert(s.skip((c1.len() + ib.len()) as int) =~= c2 + (ob + rest));
    lemma_compact_roundtrip(b.outputs.len(), ob + rest);
    assert(s.skip((c1.len() + ib.len() + c2.len()) as int) =~= ob + rest);
    lemma_tzeout_elems_roundtrip(b.outputs, rest);
}

/// Round trip for `Bundle`: any well-formed bundle whose input and output
/// counts are within their preallocation bounds decodes back from its own
/// encoding, followed by anything, to exactly itself.
#[verifier::rlimit(100)]
pub proof fn lemma_bundle_roundtrip(b: BundleV, rest: Seq<u8>)
    requires
        bundle_wf(b),
        b.inputs.len() <= MAX_BLOCK_BYTES / MIN_TZE_INPUT_SIZE,
        b.outputs.len() <= MAX_BLOCK_BYTES / MIN_TZE_OUTPUT_SIZE,
    ensures
        dec_bundle(spec_bundle_bytes(b) + rest) == Ok::<(BundleV, nat), SerializationError>(
            (b, spec_bundle_bytes(b).len()),
        ),
{
    lemma_bundle_roundtrip_parts(b, rest);
    let s = spec_bundle_bytes(b) + rest;
    let decoded = dec_bundle(s)->Ok_0.0;
    assert(decoded =~= b);
}

/// Bound enforcement: whatever follows the count prefix, a bundle whose
/// input count exceeds the `TzeIn` preallocation bound is rejected with
/// `DisallowedVectorLength`, before any element is even considered.
pub proof fn lemma_bundle_input_bound(s: Seq<u8>)
    requires
        dec_compact(s) matches Ok(p) && p.0 > MAX_BLOCK_BYTES / MIN_TZE_INPUT_SIZE,
    ensures
        dec_bundle(s) == Err::<(BundleV, nat), SerializationError>(
            SerializationError::DisallowedVectorLength,
        ),
{
}

} // verus!
