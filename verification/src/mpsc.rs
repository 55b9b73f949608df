use std::time::{Duration, Instant};

use vstd::prelude::*;

use crate::metrics;
use crate::metrics::{ProtocolMetricCache, StreamMetrics};

verus! {

/// What passes between the two sides of a connection once it stands.
#[derive(Debug)]
pub enum ProtocolEvent {
    Shutdown,
    OpenStream { sid: u64, prio: u8, promises: u8, guaranteed_bandwidth: u64 },
    CloseStream { sid: u64 },
    Message { data: Vec<u8>, mid: u64, sid: u64 },
}

/// What passes between the two sides while a connection is set up.
#[derive(Debug)]
pub enum InitFrame {
    Handshake { magic_number: [u8; 7], version: [u32; 3] },
    Init { pid: u128, secret: u128 },
    Raw(Vec<u8>),
}

/// Why a protocol cannot go on.
#[derive(Clone, Copy, Debug, PartialEq, Eq, Structural)]
pub enum ProtocolError {
    Closed,
    Violated,
}

/// used for implementing your own MPSC `Sink` and `Drain`
#[derive(Debug)]
pub enum MpscMsg {
    Event(ProtocolEvent),
    InitFrame(InitFrame),
}

/// The sending side, over a drain that takes `MpscMsg`s.
#[derive(Debug)]
pub struct MpscSendProtocol<D> {
    pub drain: D,
    pub last: Instant,
    pub metrics: ProtocolMetricCache,
}

/// The receiving side, over a sink that gives `MpscMsg`s.
#[derive(Debug)]
pub struct MpscRecvProtocol<S> {
    pub sink: S,
    pub metrics: ProtocolMetricCache,
}

/// `std::time::Instant` is a point in time; it is carried along and never read.
#[verifier::external_type_specification]
#[verifier::external_body]
pub struct ExInstant(Instant);

/// `Instant::now` gives the present time; nothing is claimed of it.
pub assume_specification[ Instant::now ]() -> Instant
;

/// The stream and the number of bytes of a message.
pub open spec fn message_size(event: ProtocolEvent) -> Option<(u64, u64)> {
    match event {
        ProtocolEvent::Message { data, mid: _, sid } => Some((sid, data@.len() as u64)),
        _ => None,
    }
}

fn size_of_message(event: &ProtocolEvent) -> (size: Option<(u64, u64)>)
    ensures
        size == message_size(*event),
{
    match event {
        ProtocolEvent::Message { data, mid: _, sid } => {
            let bytes: u64 = data.len() as u64;
            Some((*sid, bytes))
        },
        _ => None,
    }
}

/// The counters once a message of this size, if it is one, came in to be sent.
pub open spec fn send_begun(
    lines: Map<u64, StreamMetrics>,
    size: Option<(u64, u64)>,
) -> Map<u64, StreamMetrics> {
    match size {
        Some((sid, bytes)) => lines.insert(
            sid,
            metrics::line_of(lines, sid).send_begun(bytes),
        ),
        None => lines,
    }
}

/// The counters once a message of this size, if it is one, was sent.
pub open spec fn send_finished(
    lines: Map<u64, StreamMetrics>,
    size: Option<(u64, u64)>,
) -> Map<u64, StreamMetrics> {
    match size {
        Some((sid, bytes)) => lines.insert(
            sid,
            metrics::line_of(lines, sid).send_finished(bytes),
        ),
        None => lines,
    }
}

/// The counters once a message of this size, if it is one, was received.
pub open spec fn received(
    lines: Map<u64, StreamMetrics>,
    size: Option<(u64, u64)>,
) -> Map<u64, StreamMetrics> {
    match size {
        Some((sid, bytes)) => lines.insert(
            sid,
            metrics::line_of(lines, sid).received(bytes),
        ),
        None => lines,
    }
}

/// What is still to be counted of an event when it has been handed to the drain: the stream and
/// the bytes of a message.
#[derive(Clone, Copy, Debug)]
pub struct Pending {
    pub message: Option<(u64, u64)>,
}

impl<D> MpscSendProtocol<D> {
    pub fn new(drain: D, metrics: ProtocolMetricCache) -> (protocol: MpscSendProtocol<D>)
        ensures
            protocol.drain == drain,
            protocol.metrics == metrics,
    {
        MpscSendProtocol { drain, last: Instant::now(), metrics }
    }

    /// Does nothing: the sending side takes no notice of what is received.
    pub fn notify_from_recv(&mut self, _event: ProtocolEvent)
        ensures
            *final(self) == *old(self),
    {
    }

    /// Begins to send an event: gives what is to be handed to the drain. `sent` is to be called
    /// with the reply of the drain.
    pub fn send(&mut self, event: ProtocolEvent) -> (msg: (MpscMsg, Pending))
        ensures
            msg.0 == MpscMsg::Event(event),
            msg.1.message == message_size(event),
            final(self).metrics@ == send_begun(old(self).metrics@, message_size(event)),
            final(self).drain == old(self).drain,
            final(self).last == old(self).last,
    {
        let size: Option<(u64, u64)> = size_of_message(&event);
        if let Some((sid, bytes)) = size {
            self.metrics.begin_send(sid, bytes);
        }
        (MpscMsg::Event(event), Pending { message: size })
    }

    /// Finishes to send an event, whatever the drain replied, and hands the reply on.
    pub fn sent(&mut self, pending: Pending, reply: Result<(), ProtocolError>) -> (result: Result<
        (),
        ProtocolError,
    >)
        ensures
            result == reply,
            final(self).metrics@ == send_finished(old(self).metrics@, pending.message),
            final(self).drain == old(self).drain,
            final(self).last == old(self).last,
    {
        if let Some((sid, bytes)) = pending.message {
            self.metrics.finish_send(sid, bytes);
        }
        reply
    }

    /// Does nothing: what is sent is never held back.
    pub fn flush(&mut self, _bandwidth: u64, _dt: Duration) -> (result: Result<(), ProtocolError>)
        ensures
            result is Ok,
            *final(self) == *old(self),
    {
        Ok(())
    }

    /// What is to be handed to the drain to send a frame while the connection is set up.
    pub fn send_init(&mut self, frame: InitFrame) -> (msg: MpscMsg)
        ensures
            msg == MpscMsg::InitFrame(frame),
            *final(self) == *old(self),
    {
        MpscMsg::InitFrame(frame)
    }
}

/// What the receiving side makes of what the sink gave: a frame has no place on a connection
/// that stands.
pub open spec fn event_of(reply: Result<MpscMsg, ProtocolError>) -> Result<
    ProtocolEvent,
    ProtocolError,
> {
    match reply {
        Ok(MpscMsg::Event(event)) => Ok(event),
        Ok(MpscMsg::InitFrame(_)) => Err(ProtocolError::Closed),
        Err(error) => Err(error),
    }
}

/// What the receiving side makes of what the sink gave while the connection is set up: an event
/// has no place there.
pub open spec fn frame_of(reply: Result<MpscMsg, ProtocolError>) -> Result<
    InitFrame,
    ProtocolError,
> {
    match reply {
        Ok(MpscMsg::InitFrame(frame)) => Ok(frame),
        Ok(MpscMsg::Event(_)) => Err(ProtocolError::Closed),
        Err(error) => Err(error),
    }
}

impl<S> MpscRecvProtocol<S> {
    pub fn new(sink: S, metrics: ProtocolMetricCache) -> (protocol: MpscRecvProtocol<S>)
        ensures
            protocol.sink == sink,
            protocol.metrics == metrics,
    {
        MpscRecvProtocol { sink, metrics }
    }

    /// Receives an event: takes what the sink gave.
    pub fn recv(&mut self, reply: Result<MpscMsg, ProtocolError>) -> (event: Result<
        ProtocolEvent,
        ProtocolError,
    >)
        ensures
            event == event_of(reply),
            final(self).metrics@ == (match event_of(reply) {
                Ok(e) => received(old(self).metrics@, message_size(e)),
                Err(_) => old(self).metrics@,
            }),
            final(self).sink == old(self).sink,
    {
        match reply {
            Ok(MpscMsg::Event(e)) => {
                if let Some((sid, bytes)) = size_of_message(&e) {
                    self.metrics.receive(sid, bytes);
                }
                Ok(e)
            },
            Ok(MpscMsg::InitFrame(_)) => Err(ProtocolError::Closed),
            Err(error) => Err(error),
        }
    }

    /// Receives a frame while the connection is set up: takes what the sink gave.
    pub fn recv_init(&mut self, reply: Result<MpscMsg, ProtocolError>) -> (frame: Result<
        InitFrame,
        ProtocolError,
    >)
        ensures
            frame == frame_of(reply),
            *final(self) == *old(self),
    {
        match reply {
            Ok(MpscMsg::InitFrame(frame)) => Ok(frame),
            Ok(MpscMsg::Event(_)) => Err(ProtocolError::Closed),
            Err(error) => Err(error),
        }
    }
}

/// What one side sends, the other receives: an event arrives as it was handed over.
pub proof fn law_event_arrives(event: ProtocolEvent)
    ensures
        event_of(Ok(MpscMsg::Event(event))) == Ok::<ProtocolEvent, ProtocolError>(event),
{
}

/// A frame arrives as it was handed over.
pub proof fn law_frame_arrives(frame: InitFrame)
    ensures
        frame_of(Ok(MpscMsg::InitFrame(frame))) == Ok::<InitFrame, ProtocolError>(frame),
{
}

/// A message that is out of place closes the connection: a frame where an event is awaited, an
/// event where a frame is awaited.
pub proof fn law_out_of_place_closes(event: ProtocolEvent, frame: InitFrame)
    ensures
        event_of(Ok(MpscMsg::InitFrame(frame))) == Err::<ProtocolEvent, ProtocolError>(
            ProtocolError::Closed,
        ),
        frame_of(Ok(MpscMsg::Event(event))) == Err::<InitFrame, ProtocolError>(
            ProtocolError::Closed,
        ),
{
}

/// All the streams of `lines` are balanced.
pub open spec fn all_balanced(lines: Map<u64, StreamMetrics>) -> bool {
    forall|sid: u64| #[trigger] lines.contains_key(sid) ==> lines[sid].balanced()
}

/// Where every message that came in went out finished, that still holds once an event has been
/// sent, and once one has been received.
pub proof fn law_counters_stay_balanced(
    lines: Map<u64, StreamMetrics>,
    event: ProtocolEvent,
)
    requires
        all_balanced(lines),
    ensures
        all_balanced(send_finished(send_begun(lines, message_size(event)), message_size(event))),
        all_balanced(received(lines, message_size(event))),
{
}

/// Sending or receiving an event leaves the counters of every other stream as they are.
pub proof fn law_other_streams_keep_their_counters(
    lines: Map<u64, StreamMetrics>,
    event: ProtocolEvent,
    sid: u64,
)
    requires
        message_size(event) matches Some((stream, _)) ==> stream != sid,
    ensures
        ({
            let size = message_size(event);
            let sent = send_finished(send_begun(lines, size), size);
            &&& metrics::line_of(sent, sid) == metrics::line_of(lines, sid)
            &&& metrics::line_of(received(lines, size), sid) == metrics::line_of(lines, sid)
        }),
{
}

/// A message is counted on its stream with its bytes; nothing else is counted.
pub proof fn law_only_messages_are_counted(event: ProtocolEvent)
    ensures
        match event {
            ProtocolEvent::Message { data, mid, sid } => message_size(event) == Some(
                (sid, data@.len() as u64),
            ),
            _ => message_size(event) is None,
        },
{
}

/// Handing a message over counts one message and its bytes as come in to be sent on its stream,
/// the reply of the drain counts them as sent, and receiving one counts both; no other counter
/// of that stream changes, and without a message none changes at all.
pub proof fn law_each_step_counts_its_own(
    lines: Map<u64, StreamMetrics>,
    sid: u64,
    bytes: u64,
)
    ensures
        ({
            let size = Some((sid, bytes));
            let old = metrics::line_of(lines, sid);
            let begun = metrics::line_of(send_begun(lines, size), sid);
            let done = metrics::line_of(send_finished(lines, size), sid);
            let got = metrics::line_of(received(lines, size), sid);
            let wrap = 0x1_0000_0000_0000_0000int;
            &&& begun.smsg_it == (old.smsg_it + 1) % wrap
            &&& begun.smsg_ib == (old.smsg_ib + bytes) % wrap
            &&& begun.smsg_ot == old.smsg_ot && begun.smsg_ob == old.smsg_ob
            &&& begun.rmsg_it == old.rmsg_it && begun.rmsg_ib == old.rmsg_ib
            &&& begun.rmsg_ot == old.rmsg_ot && begun.rmsg_ob == old.rmsg_ob
            &&& done.smsg_ot == (old.smsg_ot + 1) % wrap
            &&& done.smsg_ob == (old.smsg_ob + bytes) % wrap
            &&& done.smsg_it == old.smsg_it && done.smsg_ib == old.smsg_ib
            &&& done.rmsg_it == old.rmsg_it && done.rmsg_ib == old.rmsg_ib
            &&& done.rmsg_ot == old.rmsg_ot && done.rmsg_ob == old.rmsg_ob
            &&& got.rmsg_it == (old.rmsg_it + 1) % wrap
            &&& got.rmsg_ib == (old.rmsg_ib + bytes) % wrap
            &&& got.rmsg_ot == (old.rmsg_ot + 1) % wrap
            &&& got.rmsg_ob == (old.rmsg_ob + bytes) % wrap
            &&& got.smsg_it == old.smsg_it && got.smsg_ib == old.smsg_ib
            &&& got.smsg_ot == old.smsg_ot && got.smsg_ob == old.smsg_ob
        }),
        send_begun(lines, None) == lines,
        send_finished(lines, None) == lines,
        received(lines, None) == lines,
        lines.contains_key(sid) ==> metrics::line_of(lines, sid) == lines[sid],
        !lines.contains_key(sid) ==> metrics::line_of(lines, sid).smsg_it == 0
            && metrics::line_of(lines, sid).smsg_ib == 0 && metrics::line_of(lines, sid).smsg_ot
            == 0 && metrics::line_of(lines, sid).smsg_ob == 0 && metrics::line_of(
            lines,
            sid,
        ).rmsg_it == 0 && metrics::line_of(lines, sid).rmsg_ib == 0 && metrics::line_of(
            lines,
            sid,
        ).rmsg_ot == 0 && metrics::line_of(lines, sid).rmsg_ob == 0,
{
}

/// An error of the sink is handed on as it is.
pub proof fn law_errors_are_handed_on(error: ProtocolError)
    ensures
        event_of(Err(error)) == Err::<ProtocolEvent, ProtocolError>(error),
        frame_of(Err(error)) == Err::<InitFrame, ProtocolError>(error),
{
}

} // verus!
