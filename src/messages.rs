//! Text control messages exchanged with a streaming client.
use vstd::prelude::*;

verus! {

/// A client's liveness probe.
#[derive(Clone, Debug)]
pub struct PingMessage {
    pub type_: String,
    pub timestamp: u64,
}

/// The answer to a ping, echoing its timestamp.
#[derive(Clone, Debug)]
pub struct PongMessage {
    pub type_: String,
    pub timestamp: u64,
}

/// Liveness messages in their tagged form.
#[derive(Clone, Copy, Debug, PartialEq, Eq, Structural)]
pub enum Message {
    Ping { timestamp: u64 },
    Pong { timestamp: u64 },
}

/// The `timestamp` field of a control message.
#[derive(Clone, Copy, Debug, PartialEq, Eq, Structural)]
pub enum TimestampField {
    Missing,
    Valid(u64),
    /// Present but not an unsigned 64-bit integer.
    Invalid,
}

/// What the session reads from a JSON control message.
#[derive(Clone, Debug)]
pub struct ControlFields {
    /// The `type` field, when it is a string.
    pub msg_type: Option<String>,
    pub timestamp: TimestampField,
}

/// The view of a parsed control message: its type and its timestamp field
/// (`None` when missing, `Some(None)` when not an unsigned integer); or the
/// parser's message when the text is not JSON.
pub type ControlView = Result<(Option<Seq<char>>, Option<Option<u64>>), Seq<char>>;

pub open spec fn timestamp_view(t: TimestampField) -> Option<Option<u64>> {
    match t {
        TimestampField::Missing => None,
        TimestampField::Valid(n) => Some(Some(n)),
        TimestampField::Invalid => Some(None),
    }
}

pub open spec fn control_view(r: Result<ControlFields, String>) -> ControlView {
    match r {
        Ok(f) => Ok(
            (
                match f.msg_type {
                    Some(s) => Some(s@),
                    None => None,
                },
                timestamp_view(f.timestamp),
            ),
        ),
        Err(e) => Err(e@),
    }
}

/// What serde_json makes of a control text: a function of the text alone.
pub uninterp spec fn json_control_of(text: Seq<char>) -> ControlView;

/// Relies on `serde_json::from_str` into a `serde_json::Value`, reading its
/// `type` string (`Value::get`, `Value::as_str`) and its `timestamp`
/// (`Value::as_u64`); on a parse failure, the error's text.
#[verifier::external_body]
pub(crate) fn parse_control_text(text: &str) -> (r: Result<ControlFields, String>)
    ensures
        control_view(r) == json_control_of(text@),
{
    let v: serde_json::Value = match serde_json::from_str(text) {
        Ok(v) => v,
        Err(e) => return Err(e.to_string()),
    };
    let msg_type = v.get("type").and_then(serde_json::Value::as_str).map(String::from);
    let timestamp = match v.get("timestamp") {
        None => TimestampField::Missing,
        Some(t) => match t.as_u64() {
            Some(n) => TimestampField::Valid(n),
            None => TimestampField::Invalid,
        },
    };
    Ok(ControlFields { msg_type, timestamp })
}

} // verus!
