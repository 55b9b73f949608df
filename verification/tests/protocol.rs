use std::time::Duration;

use voxygen::metrics::ProtocolMetricCache;
use voxygen::mpsc::{
    InitFrame, MpscMsg, MpscRecvProtocol, MpscSendProtocol, ProtocolError, ProtocolEvent,
};

fn message(sid: u64, bytes: usize) -> ProtocolEvent {
    ProtocolEvent::Message { data: vec![7; bytes], mid: 1, sid }
}

#[test]
fn a_message_is_counted_in_and_out() {
    let mut p = MpscSendProtocol::new("drain", ProtocolMetricCache::new());
    assert_eq!(p.drain, "drain");
    let (msg, pending) = p.send(message(4, 10));
    assert!(matches!(
        msg,
        MpscMsg::Event(ProtocolEvent::Message { data, mid: 1, sid: 4 }) if data == vec![7; 10]
    ));
    let line = p.metrics.line(4);
    assert_eq!((line.smsg_it, line.smsg_ib, line.smsg_ot, line.smsg_ob), (1, 10, 0, 0));
    // Whatever the drain replies
    assert_eq!(p.sent(pending, Err(ProtocolError::Violated)), Err(ProtocolError::Violated));
    let line = p.metrics.line(4);
    assert_eq!((line.smsg_it, line.smsg_ib, line.smsg_ot, line.smsg_ob), (1, 10, 1, 10));
    assert_eq!((line.rmsg_it, line.rmsg_ib, line.rmsg_ot, line.rmsg_ob), (0, 0, 0, 0));
    assert_eq!(p.metrics.line(5), ProtocolMetricCache::new().line(5));
}

#[test]
fn other_events_are_not_counted() {
    let mut p = MpscSendProtocol::new((), ProtocolMetricCache::new());
    let (msg, pending) = p.send(ProtocolEvent::CloseStream { sid: 4 });
    assert!(matches!(msg, MpscMsg::Event(ProtocolEvent::CloseStream { sid: 4 })));
    assert_eq!(p.sent(pending, Ok(())), Ok(()));
    p.notify_from_recv(ProtocolEvent::Shutdown);
    assert_eq!(p.flush(1000, Duration::from_secs(1)), Ok(()));
    assert!(p.metrics.lines.is_empty());
}

#[test]
fn counters_wrap_around() {
    let mut p = MpscSendProtocol::new((), ProtocolMetricCache::new());
    let mut line = p.metrics.line(1);
    line.smsg_ib = u64::MAX;
    p.metrics.lines.insert(1, line);
    let _ = p.send(message(1, 3));
    assert_eq!(p.metrics.line(1).smsg_ib, 2);
}

#[test]
fn an_event_arrives() {
    let mut s = MpscSendProtocol::new((), ProtocolMetricCache::new());
    let mut r = MpscRecvProtocol::new("sink", ProtocolMetricCache::new());
    assert_eq!(r.sink, "sink");
    let (msg, _) = s.send(message(2, 5));
    match r.recv(Ok(msg)) {
        Ok(ProtocolEvent::Message { data, mid, sid }) => {
            assert_eq!((data.len(), mid, sid), (5, 1, 2))
        },
        other => panic!("{:?}", other),
    }
    let line = r.metrics.line(2);
    assert_eq!((line.rmsg_it, line.rmsg_ib, line.rmsg_ot, line.rmsg_ob), (1, 5, 1, 5));
    assert_eq!(line.smsg_it, 0);
    assert!(matches!(
        r.recv(Ok(MpscMsg::Event(ProtocolEvent::Shutdown))),
        Ok(ProtocolEvent::Shutdown)
    ));
    assert_eq!(r.metrics.lines.len(), 1);
}

#[test]
fn a_frame_arrives() {
    let mut s = MpscSendProtocol::new((), ProtocolMetricCache::new());
    let mut r = MpscRecvProtocol::new((), ProtocolMetricCache::new());
    let msg = s.send_init(InitFrame::Init { pid: 2, secret: 1337 });
    assert!(matches!(r.recv_init(Ok(msg)), Ok(InitFrame::Init { pid: 2, secret: 1337 })));
}

#[test]
fn what_is_out_of_place_closes() {
    let mut r = MpscRecvProtocol::new((), ProtocolMetricCache::new());
    let frame = MpscMsg::InitFrame(InitFrame::Raw(vec![1]));
    assert!(matches!(r.recv(Ok(frame)), Err(ProtocolError::Closed)));
    let event = MpscMsg::Event(message(1, 1));
    assert!(matches!(r.recv_init(Ok(event)), Err(ProtocolError::Closed)));
    assert!(matches!(r.recv(Err(ProtocolError::Violated)), Err(ProtocolError::Violated)));
    assert!(matches!(r.recv_init(Err(ProtocolError::Violated)), Err(ProtocolError::Violated)));
    assert!(r.metrics.lines.is_empty());
}
