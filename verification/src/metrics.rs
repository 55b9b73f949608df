use std::collections::HashMap;

use vstd::prelude::*;

verus! {

/// The counters of one stream. They wrap around.
#[derive(Clone, Copy, Debug, PartialEq, Eq, Structural)]
pub struct StreamMetrics {
    /// Messages that came in to be sent.
    pub smsg_it: u64,
    /// Their bytes.
    pub smsg_ib: u64,
    /// Messages to be sent that went out finished.
    pub smsg_ot: u64,
    /// Their bytes.
    pub smsg_ob: u64,
    /// Messages that came in from the other side.
    pub rmsg_it: u64,
    /// Their bytes.
    pub rmsg_ib: u64,
    /// Messages from the other side that went out finished.
    pub rmsg_ot: u64,
    /// Their bytes.
    pub rmsg_ob: u64,
}

/// A counter that has been increased by `n`.
pub open spec fn counted(counter: u64, n: u64) -> u64 {
    if counter + n > u64::MAX {
        (counter + n - 0x1_0000_0000_0000_0000) as u64
    } else {
        (counter + n) as u64
    }
}

fn count(counter: u64, n: u64) -> (sum: u64)
    ensures
        sum == counted(counter, n),
{
    counter.wrapping_add(n)
}

/// The counters of a stream that nothing has been counted on.
pub open spec fn fresh() -> StreamMetrics {
    StreamMetrics {
        smsg_it: 0,
        smsg_ib: 0,
        smsg_ot: 0,
        smsg_ob: 0,
        rmsg_it: 0,
        rmsg_ib: 0,
        rmsg_ot: 0,
        rmsg_ob: 0,
    }
}

impl StreamMetrics {
    /// With one more message of so many bytes that came in to be sent.
    pub open spec fn send_begun(self, bytes: u64) -> StreamMetrics {
        StreamMetrics {
            smsg_it: counted(self.smsg_it, 1),
            smsg_ib: counted(self.smsg_ib, bytes),
            ..self
        }
    }

    /// With one more message of so many bytes that was sent.
    pub open spec fn send_finished(self, bytes: u64) -> StreamMetrics {
        StreamMetrics {
            smsg_ot: counted(self.smsg_ot, 1),
            smsg_ob: counted(self.smsg_ob, bytes),
            ..self
        }
    }

    /// With one more message of so many bytes that was received.
    pub open spec fn received(self, bytes: u64) -> StreamMetrics {
        StreamMetrics {
            rmsg_it: counted(self.rmsg_it, 1),
            rmsg_ib: counted(self.rmsg_ib, bytes),
            rmsg_ot: counted(self.rmsg_ot, 1),
            rmsg_ob: counted(self.rmsg_ob, bytes),
            ..self
        }
    }

    /// Every message that came in went out finished.
    pub open spec fn balanced(self) -> bool {
        &&& self.smsg_it == self.smsg_ot
        &&& self.smsg_ib == self.smsg_ob
        &&& self.rmsg_it == self.rmsg_ot
        &&& self.rmsg_ib == self.rmsg_ob
    }
}

/// The counters of the streams, by their stream ids.
#[derive(Debug)]
pub struct ProtocolMetricCache {
    pub lines: HashMap<u64, StreamMetrics>,
}

impl View for ProtocolMetricCache {
    type V = Map<u64, StreamMetrics>;

    open spec fn view(&self) -> Map<u64, StreamMetrics> {
        self.lines@
    }
}

/// The counters of the stream `sid`.
pub open spec fn line_of(lines: Map<u64, StreamMetrics>, sid: u64) -> StreamMetrics {
    if lines.contains_key(sid) {
        lines[sid]
    } else {
        fresh()
    }
}

impl ProtocolMetricCache {
    /// Counters for no stream yet.
    pub fn new() -> (cache: ProtocolMetricCache)
        ensures
            cache@ == Map::<u64, StreamMetrics>::empty(),
    {
        ProtocolMetricCache { lines: HashMap::new() }
    }

    /// The counters of the stream `sid`.
    pub fn line(&self, sid: u64) -> (line: StreamMetrics)
        ensures
            line == line_of(self@, sid),
    {
        match self.lines.get(&sid) {
            Some(line) => *line,
            None => StreamMetrics {
                smsg_it: 0,
                smsg_ib: 0,
                smsg_ot: 0,
                smsg_ob: 0,
                rmsg_it: 0,
                rmsg_ib: 0,
                rmsg_ot: 0,
                rmsg_ob: 0,
            },
        }
    }

    /// Counts a message that came in to be sent.
    pub fn begin_send(&mut self, sid: u64, bytes: u64)
        ensures
            final(self)@ == old(self)@.insert(sid, line_of(old(self)@, sid).send_begun(bytes)),
    {
        let mut line: StreamMetrics = self.line(sid);
        line.smsg_it = count(line.smsg_it, 1);
        line.smsg_ib = count(line.smsg_ib, bytes);
        let _ = self.lines.insert(sid, line);
    }

    /// Counts a message that was sent.
    pub fn finish_send(&mut self, sid: u64, bytes: u64)
        ensures
            final(self)@ == old(self)@.insert(sid, line_of(old(self)@, sid).send_finished(bytes)),
    {
        let mut line: StreamMetrics = self.line(sid);
        line.smsg_ot = count(line.smsg_ot, 1);
        line.smsg_ob = count(line.smsg_ob, bytes);
        let _ = self.lines.insert(sid, line);
    }

    /// Counts a message that was received.
    pub fn receive(&mut self, sid: u64, bytes: u64)
        ensures
            final(self)@ == old(self)@.insert(sid, line_of(old(self)@, sid).received(bytes)),
    {
        let mut line: StreamMetrics = self.line(sid);
        line.rmsg_it = count(line.rmsg_it, 1);
        line.rmsg_ib = count(line.rmsg_ib, bytes);
        line.rmsg_ot = count(line.rmsg_ot, 1);
        line.rmsg_ob = count(line.rmsg_ob, bytes);
        let _ = self.lines.insert(sid, line);
    }
}

/// What is said of the counters is said of those that are held.
pub proof fn law_view_of_the_counters(cache: ProtocolMetricCache)
    ensures
        cache@ == cache.lines@,
{
}

} // verus!
