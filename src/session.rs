//! One client's streaming session: its lifecycle, its control messages, and
//! the physics frames it sends, filtered against what it sent last.
//!
//! The deadband test itself compares floating-point distances; the caller
//! makes it and hands in its outcome per candidate node.
use vstd::prelude::*;
use std::collections::HashMap;
use crate::messages::{
    control_view, json_control_of, parse_control_text, ControlFields, ControlView, PingMessage,
    PongMessage, TimestampField,
};
use crate::node::Node;
use crate::text::{chars_eq, chars_of, is_ascii_digit};
use crate::wire::{encode_node_data, frame_bytes, Vec3Bits, WireRecord};

verus! {

broadcast use vstd::std_specs::hash::group_hash_axioms;

/// Frames at most this long are sent uncompressed.
pub const COMPRESSION_THRESHOLD: usize = 100;

/// One debug log line for this many updates.
pub const DEBUG_LOG_SAMPLE_RATE: usize = 10;

/// Interval between the server's heartbeat pings.
pub const HEARTBEAT_INTERVAL_MS: u64 = 5000;

/// Default position deadband, 0.005, as an f32 bit pattern.
pub const POSITION_DEADBAND_BITS: u32 = 0x3ba3d70a;

/// Default velocity deadband, 0.001, as an f32 bit pattern.
pub const VELOCITY_DEADBAND_BITS: u32 = 0x3a83126f;

#[derive(Clone, Copy, Debug, PartialEq, Eq, Structural)]
pub enum SessionPhase {
    /// Upgrade received, handshake pending.
    Opening,
    /// The greeting and the loading status have been sent.
    Established,
    /// The client asked for updates; physics frames flow.
    Streaming,
    /// Either side closed, or the transport failed.
    Closing,
}

/// What the session answers to a text message.
#[derive(Clone, Debug)]
pub enum ControlReply {
    Silent,
    Pong(PongMessage),
    /// Updates have started; `start_timer` when the frame timer is to be started now.
    UpdatesStarted { timestamp: u64, start_timer: bool },
    /// The text is not JSON; the parser's message.
    ParseError(String),
    /// The message type is missing or not known.
    UnknownType(Option<String>),
}

/// A streaming session's state.
pub struct SocketFlowServer {
    pub phase: SessionPhase,
    pub last_ping: Option<u64>,
    pub update_counter: usize,
    pub last_activity_ms: u64,
    pub update_interval_ms: u64,
    pub last_sent_positions: HashMap<u16, Vec3Bits>,
    pub last_sent_velocities: HashMap<u16, Vec3Bits>,
    /// Deadbands as f32 bit patterns.
    pub position_deadband: u32,
    pub velocity_deadband: u32,
    pub last_transfer_size: usize,
    pub total_bytes_sent: usize,
    pub update_count: usize,
    pub nodes_sent_count: usize,
}

/// Milliseconds between frames at `rate` frames per second; no frames at rate 0.
pub open spec fn interval_for(rate: u32) -> u64 {
    if rate == 0 {
        u64::MAX
    } else {
        (1000u32 / rate) as u64
    }
}

pub open spec fn sent_before(pos: Map<u16, Vec3Bits>, vel: Map<u16, Vec3Bits>, id: u16) -> bool {
    pos.contains_key(id) && vel.contains_key(id)
}

/// A node goes into the frame when it was never sent, or when the deadband
/// test against what was sent last passed.
pub open spec fn qualifies(
    pos: Map<u16, Vec3Bits>,
    vel: Map<u16, Vec3Bits>,
    r: WireRecord,
    beyond_deadband: bool,
) -> bool {
    !sent_before(pos, vel, r.id) || beyond_deadband
}

/// The candidates that qualify against the last-sent maps `pos` and `vel`
/// as they stand before the tick, in order. Each candidate comes with the
/// outcome of its deadband test.
pub open spec fn selected(
    pos: Map<u16, Vec3Bits>,
    vel: Map<u16, Vec3Bits>,
    cands: Seq<(WireRecord, bool)>,
) -> Seq<WireRecord>
    decreases cands.len(),
{
    if cands.len() == 0 {
        Seq::empty()
    } else {
        let prev = selected(pos, vel, cands.drop_last());
        if qualifies(pos, vel, cands.last().0, cands.last().1) {
            prev.push(cands.last().0)
        } else {
            prev
        }
    }
}

/// `pos` after recording the position of each of `rs`, in order.
pub open spec fn record_positions(pos: Map<u16, Vec3Bits>, rs: Seq<WireRecord>) -> Map<u16, Vec3Bits>
    decreases rs.len(),
{
    if rs.len() == 0 {
        pos
    } else {
        record_positions(pos, rs.drop_last()).insert(rs.last().id, rs.last().position)
    }
}

/// `vel` after recording the velocity of each of `rs`, in order.
pub open spec fn record_velocities(vel: Map<u16, Vec3Bits>, rs: Seq<WireRecord>) -> Map<u16, Vec3Bits>
    decreases rs.len(),
{
    if rs.len() == 0 {
        vel
    } else {
        record_velocities(vel, rs.drop_last()).insert(rs.last().id, rs.last().velocity)
    }
}

/// The nodes of a tick's frame, and the last-sent maps after recording them.
pub open spec fn select_run(
    pos: Map<u16, Vec3Bits>,
    vel: Map<u16, Vec3Bits>,
    cands: Seq<(WireRecord, bool)>,
) -> (Seq<WireRecord>, Map<u16, Vec3Bits>, Map<u16, Vec3Bits>) {
    let s = selected(pos, vel, cands);
    (s, record_positions(pos, s), record_velocities(vel, s))
}

/// How many of `cands` qualify against the maps `pos` and `vel`.
pub open spec fn count_qualifying(
    pos: Map<u16, Vec3Bits>,
    vel: Map<u16, Vec3Bits>,
    cands: Seq<(WireRecord, bool)>,
) -> nat
    decreases cands.len(),
{
    if cands.len() == 0 {
        0
    } else {
        count_qualifying(pos, vel, cands.drop_last()) + if qualifies(
            pos,
            vel,
            cands.last().0,
            cands.last().1,
        ) {
            1nat
        } else {
            0nat
        }
    }
}

/// The zlib stream that flate2 makes of `data` at its best compression.
pub uninterp spec fn zlib_best(data: Seq<u8>) -> Seq<u8>;

/// Relies on flate2's `ZlibEncoder` at `Compression::best()`: writing all of
/// `data` into a `Vec` and finishing gives the compressed stream. A `Vec`
/// writer never fails, so neither step does.
#[verifier::external_body]
fn zlib_compress(data: &Vec<u8>) -> (r: Option<Vec<u8>>)
    ensures
        r is Some,
        r->0@ == zlib_best(data@),
{
    let mut encoder = flate2::write::ZlibEncoder::new(Vec::new(), flate2::Compression::best());
    if std::io::Write::write_all(&mut encoder, data).is_err() {
        return None;
    }
    encoder.finish().ok()
}

/// The payload sent for the encoded frame `plain`, given what compressing it
/// gave: the compressed form when the frame is over the threshold and the
/// compressed form is strictly shorter, the frame itself otherwise.
pub open spec fn payload_for(plain: Seq<u8>, compressed: Option<Seq<u8>>) -> Seq<u8> {
    match compressed {
        Some(c) => if plain.len() > COMPRESSION_THRESHOLD && c.len() < plain.len() {
            c
        } else {
            plain
        },
        None => plain,
    }
}

/// What is sent for the encoded frame `plain`.
pub open spec fn payload(plain: Seq<u8>) -> Seq<u8> {
    payload_for(plain, Some(zlib_best(plain)))
}

/// Picks the payload for the frame `data` given the outcome of compressing it.
pub fn choose_payload(data: Vec<u8>, compressed: Option<Vec<u8>>) -> (r: Vec<u8>)
    ensures
        r@ == payload_for(
            data@,
            match compressed {
                Some(c) => Some(c@),
                None => None,
            },
        ),
{
    match compressed {
        Some(c) => {
            if data.len() > COMPRESSION_THRESHOLD && c.len() < data.len() {
                c
            } else {
                data
            }
        },
        None => data,
    }
}

pub open spec fn saturating(a: usize, b: nat) -> usize {
    if a + b > usize::MAX {
        usize::MAX
    } else {
        (a + b) as usize
    }
}

fn add_saturating(a: usize, b: usize) -> (r: usize)
    ensures
        r == saturating(a, b as nat),
{
    if a > usize::MAX - b {
        usize::MAX
    } else {
        a + b
    }
}

fn is_literal(t: &String, lit: &str) -> (r: bool)
    ensures
        r == (t@ == lit@),
{
    chars_eq(&chars_of(t.as_str()), &chars_of(lit))
}

/// `a` is `b` but for its last-sent maps.
pub open spec fn only_maps_changed(a: SocketFlowServer, b: SocketFlowServer) -> bool {
    a == (SocketFlowServer {
        last_sent_positions: a.last_sent_positions,
        last_sent_velocities: a.last_sent_velocities,
        ..b
    })
}

impl SocketFlowServer {
    /// A session in `Opening`, with nothing sent yet and the default deadbands.
    pub fn new(binary_update_rate: u32) -> (r: SocketFlowServer)
        ensures
            r.phase == SessionPhase::Opening,
            r.last_ping is None,
            r.update_counter == 0,
            r.last_activity_ms == 0,
            r.update_interval_ms == interval_for(binary_update_rate),
            r.last_sent_positions@ == Map::<u16, Vec3Bits>::empty(),
            r.last_sent_velocities@ == Map::<u16, Vec3Bits>::empty(),
            r.position_deadband == POSITION_DEADBAND_BITS,
            r.velocity_deadband == VELOCITY_DEADBAND_BITS,
            r.last_transfer_size == 0,
            r.total_bytes_sent == 0,
            r.update_count == 0,
            r.nodes_sent_count == 0,
    {
        let update_interval_ms: u64 = if binary_update_rate == 0 {
            u64::MAX
        } else {
            (1000 / binary_update_rate) as u64
        };
        SocketFlowServer {
            phase: SessionPhase::Opening,
            last_ping: None,
            update_counter: 0,
            last_activity_ms: 0,
            update_interval_ms,
            last_sent_positions: HashMap::new(),
            last_sent_velocities: HashMap::new(),
            position_deadband: POSITION_DEADBAND_BITS,
            velocity_deadband: VELOCITY_DEADBAND_BITS,
            last_transfer_size: 0,
            total_bytes_sent: 0,
            update_count: 0,
            nodes_sent_count: 0,
        }
    }

    /// The handshake is done: the greeting and the loading status go out.
    pub fn started(&mut self, now_ms: u64)
        ensures
            *final(self) == (SocketFlowServer {
                phase: SessionPhase::Established,
                last_activity_ms: now_ms,
                ..*old(self)
            }),
    {
        self.phase = SessionPhase::Established;
        self.last_activity_ms = now_ms;
    }

    /// Either side closed, the transport failed or the heartbeat was missed.
    pub fn stopped(&mut self)
        ensures
            *final(self) == (SocketFlowServer { phase: SessionPhase::Closing, ..*old(self) }),
    {
        self.phase = SessionPhase::Closing;
    }

    /// Records a frame received from the client (of any kind) at `now_ms`.
    pub fn note_activity(&mut self, now_ms: u64)
        ensures
            *final(self) == (SocketFlowServer { last_activity_ms: now_ms, ..*old(self) }),
    {
        self.last_activity_ms = now_ms;
    }

    /// Closes the session when nothing was heard for longer than `timeout_ms`.
    pub fn check_heartbeat(&mut self, now_ms: u64, timeout_ms: u64) -> (expired: bool)
        ensures
            expired == (now_ms > old(self).last_activity_ms && now_ms - old(self).last_activity_ms
                > timeout_ms),
            *final(self) == (SocketFlowServer {
                phase: if expired {
                    SessionPhase::Closing
                } else {
                    old(self).phase
                },
                ..*old(self)
            }),
    {
        let expired = now_ms > self.last_activity_ms && now_ms - self.last_activity_ms > timeout_ms;
        if expired {
            self.phase = SessionPhase::Closing;
        }
        expired
    }

    /// Answers a ping, remembering its timestamp.
    pub fn handle_ping(&mut self, msg: PingMessage) -> (r: PongMessage)
        ensures
            r.type_@ == "pong"@,
            r.timestamp == msg.timestamp,
            *final(self) == (SocketFlowServer { last_ping: Some(msg.timestamp), ..*old(self) }),
    {
        self.last_ping = Some(msg.timestamp);
        PongMessage { type_: String::from_str("pong"), timestamp: msg.timestamp }
    }

    /// Advances the log-sampling counter; true once every
    /// `DEBUG_LOG_SAMPLE_RATE` calls.
    pub fn should_log_update(&mut self) -> (r: bool)
        ensures
            *final(self) == (SocketFlowServer {
                update_counter: ((old(self).update_counter as int + 1) % 10) as usize,
                ..*old(self)
            }),
            r == (final(self).update_counter == 0),
    {
        let c = self.update_counter % DEBUG_LOG_SAMPLE_RATE;
        assert((c + 1) % 10 == (self.update_counter as int + 1) % 10) by (nonlinear_arith)
            requires
                c == self.update_counter % 10,
        ;
        self.update_counter = (c + 1) % DEBUG_LOG_SAMPLE_RATE;
        self.update_counter == 0
    }

    /// What was last sent for node `id`: position and velocity, if both are known.
    pub fn last_sent(&self, id: u16) -> (r: Option<(Vec3Bits, Vec3Bits)>)
        ensures
            r == if sent_before(self.last_sent_positions@, self.last_sent_velocities@, id) {
                Some((self.last_sent_positions@[id], self.last_sent_velocities@[id]))
            } else {
                None
            },
    {
        match (self.last_sent_positions.get(&id), self.last_sent_velocities.get(&id)) {
            (Some(p), Some(v)) => Some((*p, *v)),
            _ => None,
        }
    }

    /// Whether `record` goes into the next frame: it was never sent, or the
    /// deadband test against what was last sent passed (`beyond_deadband`).
    /// When it goes, both last-sent values are set to it.
    pub fn has_node_changed_significantly(&mut self, record: &WireRecord, beyond_deadband: bool) -> (r: bool)
        ensures
            r == qualifies(
                old(self).last_sent_positions@,
                old(self).last_sent_velocities@,
                *record,
                beyond_deadband,
            ),
            final(self).last_sent_positions@ == if r {
                old(self).last_sent_positions@.insert(record.id, record.position)
            } else {
                old(self).last_sent_positions@
            },
            final(self).last_sent_velocities@ == if r {
                old(self).last_sent_velocities@.insert(record.id, record.velocity)
            } else {
                old(self).last_sent_velocities@
            },
            only_maps_changed(*final(self), *old(self)),
    {
        let seen = self.last_sent_positions.contains_key(&record.id)
            && self.last_sent_velocities.contains_key(&record.id);
        if !seen || beyond_deadband {
            self.record_sent(record);
            true
        } else {
            false
        }
    }

    fn record_sent(&mut self, record: &WireRecord)
        ensures
            final(self).last_sent_positions@ == old(self).last_sent_positions@.insert(
                record.id,
                record.position,
            ),
            final(self).last_sent_velocities@ == old(self).last_sent_velocities@.insert(
                record.id,
                record.velocity,
            ),
            only_maps_changed(*final(self), *old(self)),
    {
        self.last_sent_positions.insert(record.id, record.position);
        self.last_sent_velocities.insert(record.id, record.velocity);
    }

    /// The candidates that go into the next frame, in order: those that
    /// qualify against the last-sent maps as they stand before the tick. Each
    /// candidate comes with the outcome of its deadband test. All of them
    /// are then recorded as sent.
    pub fn select_changed_nodes(&mut self, candidates: &Vec<(WireRecord, bool)>) -> (r: Vec<WireRecord>)
        ensures
            (r@, final(self).last_sent_positions@, final(self).last_sent_velocities@) == select_run(
                old(self).last_sent_positions@,
                old(self).last_sent_velocities@,
                candidates@,
            ),
            only_maps_changed(*final(self), *old(self)),
    {
        let ghost pos0 = self.last_sent_positions@;
        let ghost vel0 = self.last_sent_velocities@;
        let mut out: Vec<WireRecord> = Vec::new();
        let mut i: usize = 0;
        while i < candidates.len()
            invariant
                i <= candidates@.len(),
                self.last_sent_positions@ == pos0,
                self.last_sent_velocities@ == vel0,
                out@ == selected(pos0, vel0, candidates@.take(i as int)),
            decreases candidates@.len() - i,
        {
            proof {
                assert(candidates@.take(i + 1).drop_last() =~= candidates@.take(i as int));
            }
            let (rec, beyond) = candidates[i];
            let seen = self.last_sent_positions.contains_key(&rec.id)
                && self.last_sent_velocities.contains_key(&rec.id);
            if !seen || beyond {
                out.push(rec);
            }
            i += 1;
        }
        assert(candidates@.take(candidates@.len() as int) =~= candidates@);
        let mut j: usize = 0;
        while j < out.len()
            invariant
                j <= out@.len(),
                out@ == selected(pos0, vel0, candidates@),
                self.last_sent_positions@ == record_positions(pos0, out@.take(j as int)),
                self.last_sent_velocities@ == record_velocities(vel0, out@.take(j as int)),
                only_maps_changed(*self, *old(self)),
            decreases out@.len() - j,
        {
            proof {
                assert(out@.take(j + 1).drop_last() =~= out@.take(j as int));
            }
            let rec = out[j];
            self.record_sent(&rec);
            j += 1;
        }
        assert(out@.take(out@.len() as int) =~= out@);
        out
    }

    /// Compresses a frame over the threshold, keeping the compressed form
    /// only when it is strictly shorter.
    pub fn maybe_compress(&mut self, data: Vec<u8>) -> (r: Vec<u8>)
        ensures
            r@ == payload(data@),
            data@.len() <= COMPRESSION_THRESHOLD ==> r@ == data@,
            data@.len() > COMPRESSION_THRESHOLD && zlib_best(data@).len() < data@.len() ==> r@
                == zlib_best(data@),
            *final(self) == *old(self),
    {
        if data.len() > COMPRESSION_THRESHOLD {
            let compressed = zlib_compress(&data);
            choose_payload(data, compressed)
        } else {
            data
        }
    }

    /// One timer tick while streaming: selects the changed candidates,
    /// records them as sent, and returns the payload of their frame; nothing
    /// when none changed or the session is not streaming.
    pub fn produce_frame(&mut self, candidates: &Vec<(WireRecord, bool)>) -> (r: Option<Vec<u8>>)
        requires
            26 * candidates@.len() <= usize::MAX,
        ensures
            ({
                let run = select_run(
                    old(self).last_sent_positions@,
                    old(self).last_sent_velocities@,
                    candidates@,
                );
                if old(self).phase != SessionPhase::Streaming {
                    r is None && *final(self) == *old(self)
                } else if run.0.len() == 0 {
                    &&& r is None
                    &&& final(self).last_sent_positions@ == old(self).last_sent_positions@
                    &&& final(self).last_sent_velocities@ == old(self).last_sent_velocities@
                    &&& only_maps_changed(*final(self), *old(self))
                } else {
                    &&& r matches Some(b) && b@ == payload(frame_bytes(run.0))
                    &&& final(self).last_sent_positions@ == run.1
                    &&& final(self).last_sent_velocities@ == run.2
                    &&& *final(self) == (SocketFlowServer {
                        last_sent_positions: final(self).last_sent_positions,
                        last_sent_velocities: final(self).last_sent_velocities,
                        last_transfer_size: payload(frame_bytes(run.0)).len() as usize,
                        total_bytes_sent: saturating(
                            old(self).total_bytes_sent,
                            payload(frame_bytes(run.0)).len(),
                        ),
                        update_count: saturating(old(self).update_count, 1),
                        nodes_sent_count: saturating(old(self).nodes_sent_count, run.0.len()),
                        ..*old(self)
                    })
                }
            }),
    {
        if self.phase != SessionPhase::Streaming {
            return None;
        }
        let changed = self.select_changed_nodes(candidates);
        if changed.len() == 0 {
            return None;
        }
        proof {
            lemma_selected_len(
                old(self).last_sent_positions@,
                old(self).last_sent_velocities@,
                candidates@,
            );
        }
        let plain = encode_node_data(&changed);
        let payload = self.maybe_compress(plain);
        self.last_transfer_size = payload.len();
        self.total_bytes_sent = add_saturating(self.total_bytes_sent, payload.len());
        self.update_count = add_saturating(self.update_count, 1);
        self.nodes_sent_count = add_saturating(self.nodes_sent_count, changed.len());
        Some(payload)
    }

    /// Handles a text message received at `now_ms`: reads it as JSON, then
    /// answers as `handle_text` does.
    pub fn handle_text_message(&mut self, text: &str, now_ms: u64) -> (r: ControlReply)
        ensures
            *final(self) == (SocketFlowServer {
                phase: final(self).phase,
                last_ping: final(self).last_ping,
                last_activity_ms: now_ms,
                ..*old(self)
            }),
            control_outcome(*old(self), *final(self), json_control_of(text@), now_ms, r),
    {
        let fields = parse_control_text(text);
        self.handle_text(fields, now_ms)
    }

    /// Handles a text message received at `now_ms`, already read as JSON.
    pub fn handle_text(&mut self, fields: Result<ControlFields, String>, now_ms: u64) -> (r: ControlReply)
        ensures
            *final(self) == (SocketFlowServer {
                phase: final(self).phase,
                last_ping: final(self).last_ping,
                last_activity_ms: now_ms,
                ..*old(self)
            }),
            control_outcome(*old(self), *final(self), control_view(fields), now_ms, r),
    {
        self.last_activity_ms = now_ms;
        let reply = match fields {
            Err(e) => ControlReply::ParseError(e),
            Ok(f) => match f.msg_type {
                None => ControlReply::UnknownType(None),
                Some(t) => {
                    if is_literal(&t, "ping") {
                        match f.timestamp {
                            TimestampField::Valid(n) => ControlReply::Pong(
                                self.handle_ping(PingMessage { type_: t, timestamp: n }),
                            ),
                            TimestampField::Missing => ControlReply::Pong(
                                self.handle_ping(PingMessage { type_: t, timestamp: now_ms }),
                            ),
                            TimestampField::Invalid => ControlReply::Silent,
                        }
                    } else if is_literal(&t, "requestInitialData") {
                        let start_timer = self.phase != SessionPhase::Streaming;
                        self.phase = SessionPhase::Streaming;
                        ControlReply::UpdatesStarted { timestamp: now_ms, start_timer }
                    } else if is_literal(&t, "enableRandomization") {
                        ControlReply::Silent
                    } else {
                        ControlReply::UnknownType(Some(t))
                    }
                },
            },
        };
        reply
    }
}

/// What a control message does: `view` is the message as read, `r` the reply.
pub open spec fn control_outcome(
    before: SocketFlowServer,
    after: SocketFlowServer,
    view: ControlView,
    now_ms: u64,
    r: ControlReply,
) -> bool {
    match view {
        Err(e) => r matches ControlReply::ParseError(m) && m@ == e && after.phase == before.phase
            && after.last_ping == before.last_ping,
        Ok((None, _)) => r matches ControlReply::UnknownType(None) && after.phase == before.phase
            && after.last_ping == before.last_ping,
        Ok((Some(t), ts)) => if t == "ping"@ {
            after.phase == before.phase && match ts {
                Some(Some(n)) => r matches ControlReply::Pong(p) && p.timestamp == n
                    && after.last_ping == Some(n),
                None => r matches ControlReply::Pong(p) && p.timestamp == now_ms && after.last_ping
                    == Some(now_ms),
                Some(None) => r matches ControlReply::Silent && after.last_ping == before.last_ping,
            }
        } else if t == "requestInitialData"@ {
            &&& after.phase == SessionPhase::Streaming
            &&& after.last_ping == before.last_ping
            &&& r matches ControlReply::UpdatesStarted { timestamp, start_timer } && timestamp
                == now_ms && start_timer == (before.phase != SessionPhase::Streaming)
        } else if t == "enableRandomization"@ {
            r matches ControlReply::Silent && after.phase == before.phase && after.last_ping
                == before.last_ping
        } else {
            r matches ControlReply::UnknownType(Some(u)) && u@ == t && after.phase == before.phase
                && after.last_ping == before.last_ping
        },
    }
}

proof fn lemma_selected_len(
    pos: Map<u16, Vec3Bits>,
    vel: Map<u16, Vec3Bits>,
    cands: Seq<(WireRecord, bool)>,
)
    ensures
        selected(pos, vel, cands).len() <= cands.len(),
    decreases cands.len(),
{
    if cands.len() > 0 {
        lemma_selected_len(pos, vel, cands.drop_last());
    }
}

pub open spec fn digit_value(c: char) -> nat {
    (c as u32 - 48) as nat
}

/// The value of a string of decimal digits.
pub open spec fn digits_value(s: Seq<char>) -> nat
    decreases s.len(),
{
    if s.len() == 0 {
        0
    } else {
        10 * digits_value(s.drop_last()) + digit_value(s.last())
    }
}

pub open spec fn all_digits(s: Seq<char>) -> bool {
    forall|i: int| 0 <= i < s.len() ==> is_ascii_digit(#[trigger] s[i])
}

/// The text after an optional leading `+`.
pub open spec fn unsigned_body(s: Seq<char>) -> Seq<char> {
    if s.len() > 0 && s[0] == '+' {
        s.drop_first()
    } else {
        s
    }
}

/// The 16-bit number that `s` writes: an optional `+`, then at least one
/// decimal digit, with a value of at most 65535.
pub open spec fn parse_u16(s: Seq<char>) -> Option<u16> {
    let b = unsigned_body(s);
    if b.len() > 0 && all_digits(b) && digits_value(b) <= 65535 {
        Some(digits_value(b) as u16)
    } else {
        None
    }
}

/// Reads a node's string id as its 16-bit wire id.
pub fn parse_node_id(s: &str) -> (r: Option<u16>)
    ensures
        r == parse_u16(s@),
{
    let cs = chars_of(s);
    let start: usize = if cs.len() > 0 && cs[0] == '+' { 1 } else { 0 };
    let ghost body = unsigned_body(s@);
    assert(body =~= cs@.subrange(start as int, cs@.len() as int));
    if start >= cs.len() {
        return None;
    }
    let mut value: u32 = 0;
    let mut over = false;
    let mut i: usize = start;
    while i < cs.len()
        invariant
            cs@ == s@,
            start <= i <= cs@.len(),
            body == cs@.subrange(start as int, cs@.len() as int),
            body == unsigned_body(s@),
            all_digits(body.take(i - start)),
            !over ==> value == digits_value(body.take(i - start)) && value <= 65535,
            over ==> digits_value(body.take(i - start)) > 65535,
        decreases cs@.len() - i,
    {
        let c = cs[i];
        if !('0' <= c && c <= '9') {
            assert(body[i - start] == c);
            assert(!is_ascii_digit(body[i - start]));
            assert(!all_digits(body));
            return None;
        }
        let ghost prev = body.take(i - start);
        let ghost next = body.take(i - start + 1);
        assert(next.drop_last() =~= prev);
        assert(next.last() == c);
        assert(digits_value(next) == 10 * digits_value(prev) + digit_value(c));
        let d: u32 = (c as u32) - 48;
        if !over {
            let nv: u32 = value * 10 + d;
            if nv > 65535 {
                over = true;
            } else {
                value = nv;
            }
        } else {
            assert(digits_value(next) >= digits_value(prev)) by (nonlinear_arith)
                requires
                    digits_value(next) == 10 * digits_value(prev) + digit_value(c),
            ;
        }
        assert(all_digits(next)) by {
            assert forall|k: int| 0 <= k < next.len() implies is_ascii_digit(#[trigger] next[k]) by {
                if k < prev.len() {
                    assert(next[k] == prev[k]);
                }
            }
        }
        i += 1;
    }
    assert(body.take(cs@.len() - start) =~= body);
    if over {
        None
    } else {
        Some(value as u16)
    }
}

/// The wire records of the nodes whose string id reads as a 16-bit number,
/// in node order.
pub open spec fn candidates_of(nodes: Seq<Node>) -> Seq<WireRecord>
    decreases nodes.len(),
{
    if nodes.len() == 0 {
        Seq::empty()
    } else {
        let prev = candidates_of(nodes.drop_last());
        let n = nodes.last();
        match parse_u16(n.id@) {
            Some(id) => prev.push(
                WireRecord { id, position: n.data.position, velocity: n.data.velocity },
            ),
            None => prev,
        }
    }
}

/// Copies out id, position and velocity of every node whose string id reads
/// as a 16-bit number; the others are left out.
pub fn frame_candidates(nodes: &Vec<Node>) -> (r: Vec<WireRecord>)
    ensures
        r@ == candidates_of(nodes@),
        r@.len() <= nodes@.len(),
{
    let mut out: Vec<WireRecord> = Vec::new();
    let mut i: usize = 0;
    while i < nodes.len()
        invariant
            i <= nodes@.len(),
            out@ == candidates_of(nodes@.take(i as int)),
            out@.len() <= i,
        decreases nodes@.len() - i,
    {
        let n = &nodes[i];
        assert(nodes@.take(i + 1).drop_last() =~= nodes@.take(i as int));
        match parse_node_id(n.id.as_str()) {
            Some(id) => {
                out.push(WireRecord { id, position: n.data.position, velocity: n.data.velocity });
            },
            None => {},
        }
        i += 1;
    }
    assert(nodes@.take(nodes@.len() as int) =~= nodes@);
    out
}

/// The frame of a tick carries exactly as many nodes as qualify against the
/// last-sent maps as they stood before the tick.
pub proof fn lemma_frame_size(
    pos: Map<u16, Vec3Bits>,
    vel: Map<u16, Vec3Bits>,
    cands: Seq<(WireRecord, bool)>,
)
    ensures
        select_run(pos, vel, cands).0.len() == count_qualifying(pos, vel, cands),
    decreases cands.len(),
{
    if cands.len() > 0 {
        lemma_frame_size(pos, vel, cands.drop_last());
    }
}

} // verus!
