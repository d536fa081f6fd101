//! The binary wire format for per-node physics updates.
//!
//! A frame is a concatenation of 26-byte records, little-endian throughout:
//! a 16-bit node id, then position x, y, z and velocity x, y, z as 32-bit
//! floats. Coordinates travel as their IEEE-754 bit patterns, so a value is
//! carried bit-exactly.
use vstd::prelude::*;
use vstd::bytes::{
    spec_u16_from_le_bytes, spec_u16_to_le_bytes, spec_u32_from_le_bytes, spec_u32_to_le_bytes,
    u16_from_le_bytes, u16_to_le_bytes, u32_from_le_bytes, u32_to_le_bytes,
    lemma_auto_spec_u16_to_from_le_bytes, lemma_auto_spec_u32_to_from_le_bytes,
};
use vstd::slice::slice_subrange;

verus! {

/// Width in bytes of one node record on the wire.
pub const RECORD_SIZE: usize = 26;

/// Most records a single client frame may carry.
pub const MAX_INBOUND_RECORDS: usize = 2;

/// Three single-precision floats, each held as its IEEE-754 bit pattern.
#[derive(Clone, Copy, Debug, PartialEq, Eq, Structural)]
pub struct Vec3Bits {
    pub x: u32,
    pub y: u32,
    pub z: u32,
}

impl Vec3Bits {
    /// The zero vector (+0.0 in each component).
    pub fn zero() -> (r: Vec3Bits)
        ensures
            r == (Vec3Bits { x: 0, y: 0, z: 0 }),
    {
        Vec3Bits { x: 0, y: 0, z: 0 }
    }
}

/// One node's update as it travels on the wire.
#[derive(Clone, Copy, Debug, PartialEq, Eq, Structural)]
pub struct WireRecord {
    pub id: u16,
    pub position: Vec3Bits,
    pub velocity: Vec3Bits,
}

/// A wire frame that breaks the protocol.
#[derive(Clone, Copy, Debug, PartialEq, Eq, Structural)]
pub enum ProtocolError {
    /// The frame length (carried) is not a multiple of the record size.
    MisalignedFrame(usize),
    /// A client frame carried this many records, more than allowed.
    TooManyRecords(usize),
}

pub open spec fn vec3_bytes(v: Vec3Bits) -> Seq<u8> {
    spec_u32_to_le_bytes(v.x) + spec_u32_to_le_bytes(v.y) + spec_u32_to_le_bytes(v.z)
}

pub open spec fn record_bytes(r: WireRecord) -> Seq<u8> {
    spec_u16_to_le_bytes(r.id) + vec3_bytes(r.position) + vec3_bytes(r.velocity)
}

/// The bytes of a frame carrying `rs`, in order.
pub open spec fn frame_bytes(rs: Seq<WireRecord>) -> Seq<u8>
    decreases rs.len(),
{
    if rs.len() == 0 {
        Seq::empty()
    } else {
        frame_bytes(rs.drop_last()) + record_bytes(rs.last())
    }
}

pub open spec fn vec3_at(b: Seq<u8>, at: int) -> Vec3Bits {
    Vec3Bits {
        x: spec_u32_from_le_bytes(b.subrange(at, at + 4)),
        y: spec_u32_from_le_bytes(b.subrange(at + 4, at + 8)),
        z: spec_u32_from_le_bytes(b.subrange(at + 8, at + 12)),
    }
}

/// The record whose bytes start at offset `at` of `b`.
pub open spec fn record_at(b: Seq<u8>, at: int) -> WireRecord {
    WireRecord {
        id: spec_u16_from_le_bytes(b.subrange(at, at + 2)),
        position: vec3_at(b, at + 2),
        velocity: vec3_at(b, at + 14),
    }
}

/// The records of a frame whose length is a multiple of the record size.
pub open spec fn frame_records(b: Seq<u8>) -> Seq<WireRecord> {
    Seq::new(b.len() / 26, |i: int| record_at(b, 26 * i))
}

/// What decoding a frame of any origin yields.
pub open spec fn frame_decode(b: Seq<u8>) -> Result<Seq<WireRecord>, ProtocolError> {
    if b.len() % 26 != 0 {
        Err(ProtocolError::MisalignedFrame(b.len() as usize))
    } else {
        Ok(frame_records(b))
    }
}

/// A client frame is accepted when it is aligned and carries at most two records.
pub open spec fn inbound_accepted(len: nat) -> bool {
    len % 26 == 0 && len / 26 <= 2
}

/// What decoding a client frame yields.
pub open spec fn inbound_decode(b: Seq<u8>) -> Result<Seq<WireRecord>, ProtocolError> {
    if b.len() % 26 != 0 {
        Err(ProtocolError::MisalignedFrame(b.len() as usize))
    } else if b.len() / 26 > 2 {
        Err(ProtocolError::TooManyRecords((b.len() / 26) as usize))
    } else {
        Ok(frame_records(b))
    }
}

pub open spec fn result_view(r: Result<Vec<WireRecord>, ProtocolError>) -> Result<
    Seq<WireRecord>,
    ProtocolError,
> {
    match r {
        Ok(v) => Ok(v@),
        Err(e) => Err(e),
    }
}

fn append_u32(out: &mut Vec<u8>, x: u32)
    ensures
        final(out)@ == old(out)@ + spec_u32_to_le_bytes(x),
{
    let mut b = u32_to_le_bytes(x);
    out.append(&mut b);
}

fn append_vec3(out: &mut Vec<u8>, v: Vec3Bits)
    ensures
        final(out)@ == old(out)@ + vec3_bytes(v),
{
    append_u32(out, v.x);
    append_u32(out, v.y);
    append_u32(out, v.z);
    assert(final(out)@ =~= old(out)@ + vec3_bytes(v));
}

/// Encodes the records into one frame, keeping their order.
pub fn encode_node_data(records: &Vec<WireRecord>) -> (r: Vec<u8>)
    requires
        26 * records@.len() <= usize::MAX,
    ensures
        r@ == frame_bytes(records@),
        r@.len() == 26 * records@.len(),
{
    let mut out: Vec<u8> = Vec::new();
    let mut i: usize = 0;
    while i < records.len()
        invariant
            i <= records.len(),
            out@ == frame_bytes(records@.take(i as int)),
        decreases records.len() - i,
    {
        let rec = records[i];
        let mut id = u16_to_le_bytes(rec.id);
        out.append(&mut id);
        append_vec3(&mut out, rec.position);
        append_vec3(&mut out, rec.velocity);
        proof {
            assert(records@.take(i + 1).drop_last() =~= records@.take(i as int));
            assert(out@ =~= frame_bytes(records@.take(i as int)) + record_bytes(rec));
        }
        i += 1;
    }
    assert(records@.take(records.len() as int) =~= records@);
    proof {
        lemma_frame_layout(records@);
    }
    out
}

fn read_vec3(data: &[u8], at: usize) -> (r: Vec3Bits)
    requires
        at + 12 <= data@.len(),
    ensures
        r == vec3_at(data@, at as int),
{
    let _n = data.len();
    let x = u32_from_le_bytes(slice_subrange(data, at, at + 4));
    let y = u32_from_le_bytes(slice_subrange(data, at + 4, at + 8));
    let z = u32_from_le_bytes(slice_subrange(data, at + 8, at + 12));
    Vec3Bits { x, y, z }
}

/// Decodes a frame into its records, in order; a length that is not a
/// multiple of the record size is an error.
pub fn decode_node_data(data: &[u8]) -> (r: Result<Vec<WireRecord>, ProtocolError>)
    ensures
        result_view(r) == frame_decode(data@),
{
    let len = data.len();
    if len % RECORD_SIZE != 0 {
        return Err(ProtocolError::MisalignedFrame(len));
    }
    let count = len / RECORD_SIZE;
    let mut out: Vec<WireRecord> = Vec::new();
    let mut i: usize = 0;
    let mut at: usize = 0;
    while i < count
        invariant
            len == data@.len(),
            count == len / 26,
            len % 26 == 0,
            i <= count,
            at == 26 * i,
            out@ == frame_records(data@).take(i as int),
        decreases count - i,
    {
        assert(at + 26 <= len) by (nonlinear_arith)
            requires
                at == 26 * i,
                i < count,
                count == len / 26,
                len % 26 == 0,
        ;
        let id = u16_from_le_bytes(slice_subrange(data, at, at + 2));
        let position = read_vec3(data, at + 2);
        let velocity = read_vec3(data, at + 14);
        out.push(WireRecord { id, position, velocity });
        proof {
            assert(out@ =~= frame_records(data@).take(i + 1));
        }
        i += 1;
        at += 26;
    }
    assert(out@ =~= frame_records(data@));
    Ok(out)
}

/// Decodes a client frame: it must be aligned and carry at most two records.
pub fn decode_inbound(data: &[u8]) -> (r: Result<Vec<WireRecord>, ProtocolError>)
    ensures
        result_view(r) == inbound_decode(data@),
        r is Ok <==> inbound_accepted(data@.len()),
{
    match decode_node_data(data) {
        Ok(v) => {
            if v.len() > MAX_INBOUND_RECORDS {
                Err(ProtocolError::TooManyRecords(v.len()))
            } else {
                Ok(v)
            }
        },
        Err(e) => Err(e),
    }
}

/// The layout of an encoded frame: record `i` occupies bytes `26 i .. 26 i + 26`.
proof fn lemma_frame_layout(rs: Seq<WireRecord>)
    ensures
        frame_bytes(rs).len() == 26 * rs.len(),
        forall|i: int|
            0 <= i < rs.len() ==> #[trigger] frame_bytes(rs).subrange(26 * i, 26 * i + 26)
                == record_bytes(rs[i]),
    decreases rs.len(),
{
    lemma_auto_spec_u16_to_from_le_bytes();
    lemma_auto_spec_u32_to_from_le_bytes();
    if rs.len() > 0 {
        let init = rs.drop_last();
        lemma_frame_layout(init);
        let b = frame_bytes(rs);
        let n = init.len();
        assert(b == frame_bytes(init) + record_bytes(rs.last()));
        assert forall|i: int| 0 <= i < rs.len() implies #[trigger] b.subrange(
            26 * i,
            26 * i + 26,
        ) == record_bytes(rs[i]) by {
            if i < n {
                assert(26 * i + 26 <= 26 * n) by (nonlinear_arith)
                    requires
                        i < n,
                ;
                assert(b.subrange(26 * i, 26 * i + 26) =~= frame_bytes(init).subrange(
                    26 * i,
                    26 * i + 26,
                ));
            } else {
                assert(b.subrange(26 * i, 26 * i + 26) =~= record_bytes(rs.last()));
            }
        }
    }
}

/// Reading a record back from its own bytes gives the record.
proof fn lemma_record_round_trip(r: WireRecord, b: Seq<u8>, at: int)
    requires
        0 <= at,
        at + 26 <= b.len(),
        b.subrange(at, at + 26) == record_bytes(r),
    ensures
        record_at(b, at) == r,
{
    lemma_auto_spec_u16_to_from_le_bytes();
    lemma_auto_spec_u32_to_from_le_bytes();
    let rb = record_bytes(r);
    assert(spec_u16_to_le_bytes(r.id).len() == 2);
    assert(spec_u32_to_le_bytes(r.position.x).len() == 4);
    assert(spec_u32_to_le_bytes(r.position.y).len() == 4);
    assert(spec_u32_to_le_bytes(r.position.z).len() == 4);
    assert(spec_u32_to_le_bytes(r.velocity.x).len() == 4);
    assert(spec_u32_to_le_bytes(r.velocity.y).len() == 4);
    assert(spec_u32_to_le_bytes(r.velocity.z).len() == 4);
    assert(forall|k: int| 0 <= k < 26 ==> b[at + k] == #[trigger] rb[k]) by {
        assert forall|k: int| 0 <= k < 26 implies b[at + k] == #[trigger] rb[k] by {
            assert(b.subrange(at, at + 26)[k] == b[at + k]);
        }
    }
    let p = vec3_bytes(r.position);
    let v = vec3_bytes(r.velocity);
    assert(rb.subrange(0, 2) =~= spec_u16_to_le_bytes(r.id));
    assert(rb.subrange(2, 14) =~= p);
    assert(rb.subrange(14, 26) =~= v);
    assert(b.subrange(at, at + 2) =~= rb.subrange(0, 2));
    assert(b.subrange(at + 2, at + 6) =~= p.subrange(0, 4));
    assert(b.subrange(at + 6, at + 10) =~= p.subrange(4, 8));
    assert(b.subrange(at + 10, at + 14) =~= p.subrange(8, 12));
    assert(b.subrange(at + 14, at + 18) =~= v.subrange(0, 4));
    assert(b.subrange(at + 18, at + 22) =~= v.subrange(4, 8));
    assert(b.subrange(at + 22, at + 26) =~= v.subrange(8, 12));
    assert(p.subrange(0, 4) =~= spec_u32_to_le_bytes(r.position.x));
    assert(p.subrange(4, 8) =~= spec_u32_to_le_bytes(r.position.y));
    assert(p.subrange(8, 12) =~= spec_u32_to_le_bytes(r.position.z));
    assert(v.subrange(0, 4) =~= spec_u32_to_le_bytes(r.velocity.x));
    assert(v.subrange(4, 8) =~= spec_u32_to_le_bytes(r.velocity.y));
    assert(v.subrange(8, 12) =~= spec_u32_to_le_bytes(r.velocity.z));
}

/// Decoding an encoded frame gives back the same records, bit for bit.
pub proof fn lemma_frame_round_trip(rs: Seq<WireRecord>)
    ensures
        frame_decode(frame_bytes(rs)) == Ok::<Seq<WireRecord>, ProtocolError>(rs),
{
    lemma_frame_layout(rs);
    let b = frame_bytes(rs);
    assert(b.len() % 26 == 0 && b.len() / 26 == rs.len()) by (nonlinear_arith)
        requires
            b.len() == 26 * rs.len(),
    ;
    assert forall|i: int| 0 <= i < rs.len() implies record_at(b, 26 * i) == rs[i] by {
        assert(0 <= 26 * i && 26 * i + 26 <= b.len()) by (nonlinear_arith)
            requires
                0 <= i < rs.len(),
                b.len() == 26 * rs.len(),
        ;
        assert(b.subrange(26 * i, 26 * i + 26) == record_bytes(rs[i]));
        lemma_record_round_trip(rs[i], b, 26 * i);
    }
    assert(frame_records(b) =~= rs);
}

/// A client frame of at most two records is accepted, and decodes to exactly
/// the records that were encoded.
pub proof fn lemma_inbound_round_trip(rs: Seq<WireRecord>)
    requires
        rs.len() <= 2,
    ensures
        inbound_accepted(frame_bytes(rs).len()),
        inbound_decode(frame_bytes(rs)) == Ok::<Seq<WireRecord>, ProtocolError>(rs),
{
    lemma_frame_round_trip(rs);
    lemma_frame_layout(rs);
    let b = frame_bytes(rs);
    assert(b.len() % 26 == 0 && b.len() / 26 == rs.len()) by (nonlinear_arith)
        requires
            b.len() == 26 * rs.len(),
    ;
}

} // verus!
