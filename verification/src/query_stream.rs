//! The streamed query surface's driver: what it sends for each thing the
//! execution yields, so that a result without batches still carries its
//! schema.

use vstd::prelude::*;

verus! {

/// What the execution yields next.
#[derive(Debug, Clone, Copy, PartialEq, Eq, Structural)]
pub enum StreamEvent {
    /// A batch; `encoded` tells whether it encoded as Arrow IPC.
    Batch { encoded: bool },
    /// Planning or execution failed.
    Failed,
    /// The batches ran out.
    Exhausted,
    /// The receiving side is gone.
    Undelivered,
}

/// What the driver does next.
#[derive(Debug, Clone, Copy, PartialEq, Eq, Structural)]
pub enum StreamAction {
    /// Send the encoded batch and go on.
    SendBatch,
    /// Send the encoding error and stop.
    SendEncodeError,
    /// Send the execution error and stop.
    SendError,
    /// Send a schema-only frame and stop: the result had no batch.
    SendSchemaOnly,
    /// Stop.
    Stop,
}

/// The driver's state: whether a batch went out, and whether it stopped.
#[derive(Debug, Clone, Copy, PartialEq, Eq, Structural)]
pub struct QueryStream {
    pub sent_any: bool,
    pub stopped: bool,
}

/// One step of the driver.
pub open spec fn stream_step(s: QueryStream, e: StreamEvent) -> (QueryStream, StreamAction) {
    if s.stopped {
        (s, StreamAction::Stop)
    } else {
        match e {
            StreamEvent::Batch { encoded } => if encoded {
                (QueryStream { sent_any: true, stopped: false }, StreamAction::SendBatch)
            } else {
                (QueryStream { sent_any: s.sent_any, stopped: true }, StreamAction::SendEncodeError)
            },
            StreamEvent::Failed => (
                QueryStream { sent_any: s.sent_any, stopped: true },
                StreamAction::SendError,
            ),
            StreamEvent::Exhausted => (
                QueryStream { sent_any: s.sent_any, stopped: true },
                if s.sent_any {
                    StreamAction::Stop
                } else {
                    StreamAction::SendSchemaOnly
                },
            ),
            StreamEvent::Undelivered => (
                QueryStream { sent_any: s.sent_any, stopped: true },
                StreamAction::Stop,
            ),
        }
    }
}

/// The state and the actions after a run of events from `s`.
pub open spec fn stream_run(s: QueryStream, events: Seq<StreamEvent>) -> (QueryStream, Seq<StreamAction>)
    decreases events.len(),
{
    if events.len() == 0 {
        (s, Seq::empty())
    } else {
        let (s1, acts) = stream_run(s, events.drop_last());
        let (s2, a) = stream_step(s1, events.last());
        (s2, acts.push(a))
    }
}

/// Whether an action puts a frame with the result's schema on the wire.
pub open spec fn carries_schema(a: StreamAction) -> bool {
    a == StreamAction::SendBatch || a == StreamAction::SendSchemaOnly
}

impl QueryStream {
    /// A driver that has sent nothing.
    pub fn new() -> (r: Self)
        ensures
            !r.sent_any && !r.stopped,
    {
        QueryStream { sent_any: false, stopped: false }
    }

    /// Take one event and say what to send.
    pub fn on_event(&mut self, e: StreamEvent) -> (a: StreamAction)
        ensures
            (*final(self), a) == stream_step(*old(self), e),
    {
        if self.stopped {
            return StreamAction::Stop;
        }
        match e {
            StreamEvent::Batch { encoded } => if encoded {
                self.sent_any = true;
                StreamAction::SendBatch
            } else {
                self.stopped = true;
                StreamAction::SendEncodeError
            },
            StreamEvent::Failed => {
                self.stopped = true;
                StreamAction::SendError
            },
            StreamEvent::Exhausted => {
                self.stopped = true;
                if self.sent_any {
                    StreamAction::Stop
                } else {
                    StreamAction::SendSchemaOnly
                }
            },
            StreamEvent::Undelivered => {
                self.stopped = true;
                StreamAction::Stop
            },
        }
    }
}

/// A run that ends with the batches running out, with no failure or loss of
/// the receiver on the way, puts at least one frame with the result's schema
/// on the wire: its batches, or a schema-only frame when there were none.
pub proof fn lemma_result_always_carries_schema(events: Seq<StreamEvent>)
    requires
        events.len() > 0,
        events.last() == StreamEvent::Exhausted,
        forall|k: int|
            0 <= k < events.len() - 1 ==> (#[trigger] events[k]) matches StreamEvent::Batch {
                encoded: true,
            },
    ensures
        exists|k: int|
            0 <= k < events.len() && carries_schema(
                #[trigger] stream_run(QueryStream { sent_any: false, stopped: false }, events).1[k],
            ),
{
    let s0 = QueryStream { sent_any: false, stopped: false };
    let n = events.len() - 1;
    lemma_batches_run(events.drop_last());
    let (s1, acts) = stream_run(s0, events.drop_last());
    assert(!s1.stopped);
    assert(events.drop_last().len() == n);
    let all = stream_run(s0, events).1;
    if n == 0 {
        assert(all[0] == StreamAction::SendSchemaOnly);
    } else {
        assert(acts[0] == StreamAction::SendBatch);
        assert(all[0] == acts[0]);
    }
}

/// A run of encoded batches keeps the driver going, sends every batch, and
/// records that one went out when there was one.
proof fn lemma_batches_run(events: Seq<StreamEvent>)
    requires
        forall|k: int|
            0 <= k < events.len() ==> (#[trigger] events[k]) matches StreamEvent::Batch {
                encoded: true,
            },
    ensures
        !stream_run(QueryStream { sent_any: false, stopped: false }, events).0.stopped,
        stream_run(QueryStream { sent_any: false, stopped: false }, events).0.sent_any == (
        events.len() > 0),
        stream_run(QueryStream { sent_any: false, stopped: false }, events).1.len() == events.len(),
        forall|k: int|
            0 <= k < events.len() ==> stream_run(
                QueryStream { sent_any: false, stopped: false },
                events,
            ).1[k] == StreamAction::SendBatch,
    decreases events.len(),
{
    if events.len() > 0 {
        let d = events.drop_last();
        assert forall|k: int| 0 <= k < d.len() implies (#[trigger] d[k]) matches StreamEvent::Batch {
            encoded: true,
        } by {
            assert(d[k] == events[k]);
        }
        lemma_batches_run(d);
        assert(events[events.len() - 1] == events.last());
    }
}

/// A failure is always reported: a driver that has not stopped answers a
/// failure with the error, whether or not batches went out, and stops.
pub proof fn lemma_failure_sends_error(s: QueryStream)
    requires
        !s.stopped,
    ensures
        stream_step(s, StreamEvent::Failed).1 == StreamAction::SendError,
        stream_step(s, StreamEvent::Failed).0.stopped,
{
}

/// Any number of delivered batches followed by a failure ends with the error
/// sent: the client never takes a truncated result for a complete one.
pub proof fn lemma_failure_after_batches_sends_error(events: Seq<StreamEvent>)
    requires
        events.len() > 0,
        events.last() == StreamEvent::Failed,
        forall|k: int|
            0 <= k < events.len() - 1 ==> (#[trigger] events[k]) matches StreamEvent::Batch {
                encoded: true,
            },
    ensures
        stream_run(QueryStream { sent_any: false, stopped: false }, events).1.last() == StreamAction::SendError,
        stream_run(QueryStream { sent_any: false, stopped: false }, events).1.len() == events.len(),
{
    let d = events.drop_last();
    assert forall|k: int| 0 <= k < d.len() implies (#[trigger] d[k]) matches StreamEvent::Batch {
        encoded: true,
    } by {
        assert(d[k] == events[k]);
    }
    lemma_batches_run(d);
}

} // verus!
