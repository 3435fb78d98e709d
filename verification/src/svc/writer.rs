//! The buffered writer's flush policy: events accumulate until the buffer
//! reaches its size (flush, and restart the interval), the interval elapses
//! (flush what is there), or ingestion closes (drain). The task that owns
//! the channel and the sinks performs each step's action.

use vstd::prelude::*;

use crate::svc::config::WriterConfig;
use crate::text::owned;

verus! {

/// Tuning of the buffered writer.
#[derive(Debug, Clone, Copy)]
pub struct BufferedWriterConfig {
    pub buffer_size: usize,
    /// Flush at least this often, in milliseconds.
    pub flush_interval_ms: u64,
    pub channel_capacity: usize,
}

impl Default for BufferedWriterConfig {
    fn default() -> (r: Self)
        ensures
            r.buffer_size == 100,
            r.flush_interval_ms == 500,
            r.channel_capacity == 1000,
    {
        BufferedWriterConfig { buffer_size: 100, flush_interval_ms: 500, channel_capacity: 1000 }
    }
}

/// The writer tuning of the service configuration.
pub fn writer_config(cfg: &WriterConfig) -> (r: BufferedWriterConfig)
    ensures
        r.buffer_size == cfg.buffer_size,
        r.flush_interval_ms == cfg.flush_interval_ms,
        r.channel_capacity == cfg.channel_capacity,
{
    BufferedWriterConfig {
        buffer_size: cfg.buffer_size,
        flush_interval_ms: cfg.flush_interval_ms,
        channel_capacity: cfg.channel_capacity,
    }
}

/// What the writer task does after one step.
#[derive(Debug)]
pub enum FlushAction<E> {
    /// Nothing to write.
    Idle,
    /// Write these events to every sink; restart the interval if asked.
    Flush { events: Vec<E>, reset_interval: bool },
    /// Write these (possibly no) events and stop.
    Drain { events: Vec<E> },
}

/// The events a step hands to the sinks.
pub open spec fn flushed<E>(a: FlushAction<E>) -> Seq<E> {
    match a {
        FlushAction::Idle => Seq::empty(),
        FlushAction::Flush { events, .. } => events@,
        FlushAction::Drain { events } => events@,
    }
}

/// The writer's buffer.
#[derive(Debug)]
pub struct FlushBuffer<E> {
    buf: Vec<E>,
    buffer_size: usize,
}

/// One input of the writer task.
pub enum WriterInput<E> {
    Event(E),
    Tick,
    Closed,
}

/// The buffer after one input, and the events that input flushed.
pub open spec fn step_spec<E>(buf: Seq<E>, size: usize, input: WriterInput<E>) -> (Seq<E>, Seq<E>) {
    match input {
        WriterInput::Event(e) => if buf.len() + 1 >= size {
            (Seq::empty(), buf.push(e))
        } else {
            (buf.push(e), Seq::empty())
        },
        WriterInput::Tick => (Seq::empty(), buf),
        WriterInput::Closed => (Seq::empty(), buf),
    }
}

/// Run the inputs from `buf`: the final buffer and every event flushed, in
/// order.
pub open spec fn run_spec<E>(buf: Seq<E>, size: usize, inputs: Seq<WriterInput<E>>) -> (Seq<E>, Seq<E>)
    decreases inputs.len(),
{
    if inputs.len() == 0 {
        (buf, Seq::empty())
    } else {
        let (b, f) = run_spec(buf, size, inputs.drop_last());
        let (b2, f2) = step_spec(b, size, inputs.last());
        (b2, f + f2)
    }
}

/// The events among the inputs, in order.
pub open spec fn received<E>(inputs: Seq<WriterInput<E>>) -> Seq<E>
    decreases inputs.len(),
{
    if inputs.len() == 0 {
        Seq::empty()
    } else {
        match inputs.last() {
            WriterInput::Event(e) => received(inputs.drop_last()).push(e),
            _ => received(inputs.drop_last()),
        }
    }
}

/// No event is lost or reordered: whatever inputs arrive, the events flushed
/// so far followed by those still buffered are exactly the events received,
/// in arrival order; after `Closed`, every received event has been flushed.
pub proof fn lemma_flush_conserves_events<E>(size: usize, inputs: Seq<WriterInput<E>>)
    ensures
        run_spec(Seq::empty(), size, inputs).1 + run_spec(Seq::empty(), size, inputs).0 == received(
            inputs,
        ),
        inputs.len() > 0 && inputs.last() is Closed ==> run_spec(Seq::empty(), size, inputs).1
            == received(inputs),
    decreases inputs.len(),
{
    if inputs.len() > 0 {
        lemma_flush_conserves_events(size, inputs.drop_last());
        let (b, f) = run_spec(Seq::<E>::empty(), size, inputs.drop_last());
        match inputs.last() {
            WriterInput::Event(e) => {
                assert(f + b.push(e) =~= (f + b).push(e));
                assert(f + Seq::<E>::empty() + b.push(e) =~= (f + b).push(e));
                assert(f + b.push(e) + Seq::<E>::empty() =~= (f + b).push(e));
            },
            _ => {
                assert(f + b + Seq::<E>::empty() =~= f + b);
            },
        }
    }
}

/// The buffer never holds a full batch between steps: reaching the size
/// flushes it.
pub proof fn lemma_buffer_stays_below_size<E>(size: usize, inputs: Seq<WriterInput<E>>)
    requires
        size > 0,
    ensures
        run_spec(Seq::empty(), size, inputs).0.len() < size,
    decreases inputs.len(),
{
    if inputs.len() > 0 {
        lemma_buffer_stays_below_size(size, inputs.drop_last());
    }
}

impl<E> FlushBuffer<E> {
    pub closed spec fn spec_buf(&self) -> Seq<E> {
        self.buf@
    }

    pub closed spec fn spec_size(&self) -> usize {
        self.buffer_size
    }

    /// An empty buffer flushing at `buffer_size` events.
    pub fn new(buffer_size: usize) -> (r: Self)
        ensures
            r.spec_buf() == Seq::<E>::empty(),
            r.spec_size() == buffer_size,
    {
        FlushBuffer { buf: Vec::new(), buffer_size }
    }

    /// The number of buffered events.
    pub fn len(&self) -> (n: usize)
        ensures
            n == self.spec_buf().len(),
    {
        self.buf.len()
    }

    fn take_all(&mut self) -> (events: Vec<E>)
        ensures
            events@ == old(self).spec_buf(),
            final(self).spec_buf() == Seq::<E>::empty(),
            final(self).spec_size() == old(self).spec_size(),
    {
        let mut events: Vec<E> = Vec::new();
        std::mem::swap(&mut events, &mut self.buf);
        events
    }

    /// An event arrives: buffer it; a full buffer is flushed and the
    /// interval restarted.
    pub fn on_event(&mut self, e: E) -> (a: FlushAction<E>)
        ensures
            (final(self).spec_buf(), flushed(a)) == step_spec(
                old(self).spec_buf(),
                old(self).spec_size(),
                WriterInput::Event(e),
            ),
            final(self).spec_size() == old(self).spec_size(),
            a is Idle || a matches FlushAction::Flush { reset_interval: true, .. },
    {
        self.buf.push(e);
        if self.buf.len() >= self.buffer_size {
            let events = self.take_all();
            FlushAction::Flush { events, reset_interval: true }
        } else {
            FlushAction::Idle
        }
    }

    /// The interval elapses: flush whatever is buffered.
    pub fn on_tick(&mut self) -> (a: FlushAction<E>)
        ensures
            (final(self).spec_buf(), flushed(a)) == step_spec(
                old(self).spec_buf(),
                old(self).spec_size(),
                WriterInput::Tick,
            ),
            final(self).spec_size() == old(self).spec_size(),
            a is Idle <==> old(self).spec_buf().len() == 0,
            a matches FlushAction::Flush { reset_interval, .. } ==> !reset_interval,
            !(a is Drain),
    {
        if self.buf.len() == 0 {
            FlushAction::Idle
        } else {
            let events = self.take_all();
            FlushAction::Flush { events, reset_interval: false }
        }
    }

    /// Ingestion closed: drain the buffer and stop.
    pub fn on_close(&mut self) -> (a: FlushAction<E>)
        ensures
            (final(self).spec_buf(), flushed(a)) == step_spec(
                old(self).spec_buf(),
                old(self).spec_size(),
                WriterInput::Closed,
            ),
            final(self).spec_size() == old(self).spec_size(),
            a is Drain,
    {
        let events = self.take_all();
        FlushAction::Drain { events }
    }
}

/// Ensure a table location ends with `/` so it joins cleanly as a prefix.
pub fn ensure_trailing_slash(s: &str) -> (r: String)
    ensures
        r@ == (if s@.len() > 0 && s@.last() == '/' {
            s@
        } else {
            s@.push('/')
        }),
{
    let v = crate::text::chars_of(s);
    let mut r = owned(s);
    if v.len() > 0 && v[v.len() - 1] == '/' {
        r
    } else {
        crate::text::push_char(&mut r, '/');
        r
    }
}

} // verus!
