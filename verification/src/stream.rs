//! The streaming query engine: one streaming exchange reads response lines
//! until the first terminal envelope, delivering every `progress` envelope to
//! the subscriber in the order the worker emitted it.

use vstd::prelude::*;

use crate::codec::{json_doc, ws_count};
use crate::decode::{decode_line, ws_count_x};
use crate::json::{jval_arr, lemma_jval_arr_snoc, Json, JsonV};
use crate::protocol::{classify, failure_message, BridgeError, BridgeErrorV, EnvelopeKind};

verus! {

/// How one streaming exchange ends.
#[derive(Debug, PartialEq, Eq)]
pub enum StreamEnd {
    /// The worker's `result` envelope.
    Outcome(Json),
    /// The worker's `error` envelope, reduced to its message.
    Failed(Vec<char>),
    /// The stream closed before any terminal envelope.
    NoTerminal,
}

/// The spec-level mirror of `StreamEnd`.
pub enum StreamEndV {
    Outcome(JsonV),
    Failed(Seq<char>),
    NoTerminal,
}

impl View for StreamEnd {
    type V = StreamEndV;

    open spec fn view(&self) -> StreamEndV {
        match self {
            StreamEnd::Outcome(v) => StreamEndV::Outcome(v@),
            StreamEnd::Failed(m) => StreamEndV::Failed(m@),
            StreamEnd::NoTerminal => StreamEndV::NoTerminal,
        }
    }
}

/// What the engine does with one line.
#[derive(Debug, PartialEq, Eq)]
pub enum StreamAction {
    /// Blank, malformed or unrecognized: read on.
    Ignore,
    /// A `progress` envelope: hand it to the subscriber, then read on.
    Emit(Json),
    /// A terminal envelope: stop reading; the exchange is over.
    Finish(StreamEnd),
}

/// The spec-level mirror of `StreamAction`.
pub enum StreamActionV {
    Ignore,
    Emit(JsonV),
    Finish(StreamEndV),
}

impl View for StreamAction {
    type V = StreamActionV;

    open spec fn view(&self) -> StreamActionV {
        match self {
            StreamAction::Ignore => StreamActionV::Ignore,
            StreamAction::Emit(v) => StreamActionV::Emit(v@),
            StreamAction::Finish(e) => StreamActionV::Finish(e@),
        }
    }
}

/// A line of nothing but whitespace.
pub open spec fn is_blank(line: Seq<char>) -> bool {
    ws_count(line, 0) == line.len()
}

/// How the engine handles one line: blank and undecodable lines are
/// tolerated and skipped, `progress` is delivered, the first `result` or
/// `error` envelope ends the exchange, and unrecognized tags are ignored.
pub open spec fn line_action(line: Seq<char>) -> StreamActionV {
    if is_blank(line) {
        StreamActionV::Ignore
    } else {
        match json_doc(line) {
            None => StreamActionV::Ignore,
            Some(v) => match classify(v) {
                EnvelopeKind::Progress => StreamActionV::Emit(v),
                EnvelopeKind::Outcome => StreamActionV::Finish(StreamEndV::Outcome(v)),
                EnvelopeKind::Failure => StreamActionV::Finish(
                    StreamEndV::Failed(failure_message(v)),
                ),
                EnvelopeKind::Unknown => StreamActionV::Ignore,
            },
        }
    }
}

/// Decides what one line of the worker's output means for the streaming
/// exchange in progress.
pub fn handle_stream_line(line: &Vec<char>) -> (a: StreamAction)
    ensures
        a@ == line_action(line@),
{
    let blank = ws_count_x(line, 0);
    if blank == line.len() {
        return StreamAction::Ignore;
    }
    match decode_line(line) {
        None => StreamAction::Ignore,
        Some(v) => match v.classify_envelope() {
            EnvelopeKind::Progress => StreamAction::Emit(v),
            EnvelopeKind::Outcome => StreamAction::Finish(StreamEnd::Outcome(v)),
            EnvelopeKind::Failure => {
                let m = v.failure_text();
                StreamAction::Finish(StreamEnd::Failed(m))
            },
            EnvelopeKind::Unknown => StreamAction::Ignore,
        },
    }
}

/// What a whole streaming exchange delivers and how it ends, given the lines
/// the worker wrote before closing its stream: the progress envelopes before
/// the first terminal envelope, in order, and that terminal envelope's
/// outcome — or `NoTerminal` when the stream ends first.
pub open spec fn stream_fold(lines: Seq<Seq<char>>) -> (Seq<JsonV>, StreamEndV)
    decreases lines.len(),
{
    if lines.len() == 0 {
        (Seq::empty(), StreamEndV::NoTerminal)
    } else {
        match line_action(lines[0]) {
            StreamActionV::Ignore => stream_fold(lines.drop_first()),
            StreamActionV::Emit(v) => {
                let r = stream_fold(lines.drop_first());
                (seq![v] + r.0, r.1)
            },
            StreamActionV::Finish(e) => (Seq::empty(), e),
        }
    }
}

/// Runs one whole streaming exchange over the lines the worker wrote.
/// Delivered progress is exactly the progress prefix before the first
/// terminal envelope, in emission order; lines after the terminal envelope
/// are never inspected.
#[verifier::loop_isolation(false)]
pub fn run_stream(lines: &Vec<Vec<char>>) -> (r: (Vec<Json>, StreamEnd))
    ensures
        jval_arr(r.0@) == stream_fold(lines@.map_values(|l: Vec<char>| l@)).0,
        r.1@ == stream_fold(lines@.map_values(|l: Vec<char>| l@)).1,
{
    let ghost specs = lines@.map_values(|l: Vec<char>| l@);
    let mut delivered: Vec<Json> = Vec::new();
    proof {
        assert(specs.skip(0) =~= specs);
        assert(jval_arr(delivered@) =~= Seq::<JsonV>::empty());
        assert(Seq::<JsonV>::empty() + stream_fold(specs).0 =~= stream_fold(specs).0);
    }
    let mut i: usize = 0;
    while i < lines.len()
        invariant
            i <= lines@.len(),
            stream_fold(specs).0 == jval_arr(delivered@) + stream_fold(specs.skip(i as int)).0,
            stream_fold(specs).1 == stream_fold(specs.skip(i as int)).1,
        decreases lines@.len() - i,
    {
        proof {
            assert(specs.skip(i as int).drop_first() =~= specs.skip(i + 1 as int));
            assert(specs.skip(i as int)[0] == specs[i as int]);
            assert(specs[i as int] == lines@[i as int]@);
        }
        let action = handle_stream_line(&lines[i]);
        match action {
            StreamAction::Ignore => {},
            StreamAction::Emit(v) => {
                proof {
                    lemma_jval_arr_snoc(delivered@, v);
                    assert(jval_arr(delivered@) + (seq![v@] + stream_fold(
                        specs.skip(i + 1 as int),
                    ).0) =~= jval_arr(delivered@.push(v)) + stream_fold(
                        specs.skip(i + 1 as int),
                    ).0);
                }
                delivered.push(v);
            },
            StreamAction::Finish(e) => {
                proof {
                    assert(stream_fold(specs.skip(i as int)).0 =~= Seq::<JsonV>::empty());
                    assert(jval_arr(delivered@) + Seq::<JsonV>::empty() =~= jval_arr(
                        delivered@,
                    ));
                }
                return (delivered, e);
            },
        }
        i = i + 1;
    }
    proof {
        assert(specs.skip(lines@.len() as int) =~= Seq::<Seq<char>>::empty());
        assert(jval_arr(delivered@) + Seq::<JsonV>::empty() =~= jval_arr(delivered@));
    }
    (delivered, StreamEnd::NoTerminal)
}

/// The caller's view of how an exchange ended: the `result` envelope, the
/// worker's reported failure, or the distinct failure that says the stream
/// ended with no terminal envelope at all.
pub open spec fn end_outcome(e: StreamEndV) -> Result<JsonV, BridgeErrorV> {
    match e {
        StreamEndV::Outcome(v) => Ok(v),
        StreamEndV::Failed(m) => Err(BridgeErrorV::Worker(m)),
        StreamEndV::NoTerminal => Err(BridgeErrorV::NoTerminal),
    }
}

/// Turns the end of one streaming exchange into the call's outcome.
pub fn finish_stream(end: StreamEnd) -> (r: Result<Json, BridgeError>)
    ensures
        match r {
            Ok(v) => end_outcome(end@) == Ok::<JsonV, BridgeErrorV>(v@),
            Err(e) => end_outcome(end@) == Err::<JsonV, BridgeErrorV>(e@),
        },
{
    match end {
        StreamEnd::Outcome(v) => Ok(v),
        StreamEnd::Failed(m) => Err(BridgeError::Worker(m)),
        StreamEnd::NoTerminal => Err(BridgeError::NoTerminal),
    }
}

} // verus!
