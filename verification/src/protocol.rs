//! The request/response protocol around the codec: envelope classification,
//! the bridge's error taxonomy, and the synchronous request channel's view of
//! one exchange.

use vstd::prelude::*;

use crate::chars::{copy_chars, to_chars};
use crate::codec::json_doc;
use crate::decode::decode_line;
use crate::json::{get_field, Json, JsonV};

verus! {

/// How the streaming and synchronous paths route one envelope, by its
/// `type` field.
#[derive(Debug, PartialEq, Eq, Structural)]
pub enum EnvelopeKind {
    /// `type` is `progress`: an intermediate notification.
    Progress,
    /// `type` is `result`: the successful terminal envelope.
    Outcome,
    /// `type` is `error`: the worker reports a failure.
    Failure,
    /// No `type` field, a non-string one, or an unrecognized tag.
    Unknown,
}

/// The classification of one decoded envelope.
pub open spec fn classify(v: JsonV) -> EnvelopeKind {
    match get_field(v, "type"@) {
        Some(JsonV::Str(t)) => if t == "progress"@ {
            EnvelopeKind::Progress
        } else if t == "result"@ {
            EnvelopeKind::Outcome
        } else if t == "error"@ {
            EnvelopeKind::Failure
        } else {
            EnvelopeKind::Unknown
        },
        _ => EnvelopeKind::Unknown,
    }
}

/// The worker's failure message: its `message` field, or a fixed text when
/// the field is missing or not a string.
pub open spec fn failure_message(v: JsonV) -> Seq<char> {
    match get_field(v, "message"@) {
        Some(JsonV::Str(m)) => m,
        _ => "unknown error"@,
    }
}

impl Json {
    /// Routes one decoded envelope by its `type` field.
    pub fn classify_envelope(&self) -> (k: EnvelopeKind)
        ensures
            k == classify(self@),
    {
        let key = to_chars("type");
        match self.obj_get(&key) {
            Some(f) => match f {
                Json::Str(t) => {
                    let progress = to_chars("progress");
                    if crate::chars::chars_eq(t, &progress) {
                        EnvelopeKind::Progress
                    } else {
                        let result_tag = to_chars("result");
                        if crate::chars::chars_eq(t, &result_tag) {
                            EnvelopeKind::Outcome
                        } else {
                            let error_tag = to_chars("error");
                            if crate::chars::chars_eq(t, &error_tag) {
                                EnvelopeKind::Failure
                            } else {
                                EnvelopeKind::Unknown
                            }
                        }
                    }
                },
                _ => EnvelopeKind::Unknown,
            },
            None => EnvelopeKind::Unknown,
        }
    }

    /// The worker's failure message from an `error` envelope.
    pub fn failure_text(&self) -> (m: Vec<char>)
        ensures
            m@ == failure_message(self@),
    {
        let key = to_chars("message");
        match self.obj_get(&key) {
            Some(f) => match f {
                Json::Str(t) => copy_chars(t),
                _ => to_chars("unknown error"),
            },
            None => to_chars("unknown error"),
        }
    }
}

/// One failure of the bridge, as the caller sees it.
#[derive(Debug, PartialEq, Eq)]
pub enum BridgeError {
    /// The worker executable could not be found or launched.
    Spawn(Vec<char>),
    /// The lock guarding the worker's streams could not be acquired.
    Lock(Vec<char>),
    /// A response line was not valid JSON (synchronous path only).
    Decode,
    /// A read found the worker's output stream closed.
    StreamClosed,
    /// The worker itself reported a failure, with its message.
    Worker(Vec<char>),
    /// A streaming exchange ended without any terminal envelope.
    NoTerminal,
}

/// The spec-level mirror of `BridgeError`.
pub enum BridgeErrorV {
    Spawn(Seq<char>),
    Lock(Seq<char>),
    Decode,
    StreamClosed,
    Worker(Seq<char>),
    NoTerminal,
}

impl View for BridgeError {
    type V = BridgeErrorV;

    open spec fn view(&self) -> BridgeErrorV {
        match self {
            BridgeError::Spawn(m) => BridgeErrorV::Spawn(m@),
            BridgeError::Lock(m) => BridgeErrorV::Lock(m@),
            BridgeError::Decode => BridgeErrorV::Decode,
            BridgeError::StreamClosed => BridgeErrorV::StreamClosed,
            BridgeError::Worker(m) => BridgeErrorV::Worker(m@),
            BridgeError::NoTerminal => BridgeErrorV::NoTerminal,
        }
    }
}

/// The human-readable message of each failure.
pub open spec fn error_text(e: BridgeErrorV) -> Seq<char> {
    match e {
        BridgeErrorV::Spawn(m) => m,
        BridgeErrorV::Lock(m) => m,
        BridgeErrorV::Decode => "backend invalid JSON"@,
        BridgeErrorV::StreamClosed => "backend stream closed"@,
        BridgeErrorV::Worker(m) => m,
        BridgeErrorV::NoTerminal => "backend stream did not return result"@,
    }
}

impl BridgeError {
    /// The message shown to the caller for this failure.
    pub fn message(&self) -> (m: Vec<char>)
        ensures
            m@ == error_text(self@),
    {
        match self {
            BridgeError::Spawn(m) => copy_chars(m),
            BridgeError::Lock(m) => copy_chars(m),
            BridgeError::Decode => to_chars("backend invalid JSON"),
            BridgeError::StreamClosed => to_chars("backend stream closed"),
            BridgeError::Worker(m) => copy_chars(m),
            BridgeError::NoTerminal => to_chars("backend stream did not return result"),
        }
    }
}

/// What one blocking read of the worker's output produced: a line, or the
/// end of the stream.
#[derive(Debug, PartialEq, Eq)]
pub enum ReadEvent {
    Line(Vec<char>),
    Closed,
}

/// The outcome the synchronous channel owes for one read: a closed stream is
/// fatal; a line must be one JSON document; an `error` envelope becomes the
/// worker's reported failure; any other envelope is returned unchanged.
pub open spec fn sync_outcome(r: ReadEvent) -> Result<JsonV, BridgeErrorV> {
    match r {
        ReadEvent::Closed => Err(BridgeErrorV::StreamClosed),
        ReadEvent::Line(line) => match json_doc(line@) {
            None => Err(BridgeErrorV::Decode),
            Some(v) => if classify(v) == EnvelopeKind::Failure {
                Err(BridgeErrorV::Worker(failure_message(v)))
            } else {
                Ok(v)
            },
        },
    }
}

/// Interprets the single response line of one synchronous exchange.
pub fn interpret_sync_response(r: &ReadEvent) -> (out: Result<Json, BridgeError>)
    ensures
        match out {
            Ok(v) => sync_outcome(*r) == Ok::<JsonV, BridgeErrorV>(v@),
            Err(e) => sync_outcome(*r) == Err::<JsonV, BridgeErrorV>(e@),
        },
{
    match r {
        ReadEvent::Closed => Err(BridgeError::StreamClosed),
        ReadEvent::Line(line) => match decode_line(line) {
            None => Err(BridgeError::Decode),
            Some(v) => {
                if v.classify_envelope() == EnvelopeKind::Failure {
                    let m = v.failure_text();
                    Err(BridgeError::Worker(m))
                } else {
                    Ok(v)
                }
            },
        },
    }
}

} // verus!
