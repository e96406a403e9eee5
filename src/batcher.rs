use vstd::prelude::*;
use crate::events::{
    completed_count, envelope_of, SynchronizationEvent, SynchronizationEventJson,
};

verus! {

/// The least time, in milliseconds, between two deliveries of one task.
pub const FLUSH_INTERVAL_MS: u64 = 500;

/// The latest instant, in milliseconds, that the batcher accepts as a reading
/// of its clock: a flush interval later must still fit in a `u64`.
pub const LATEST_INSTANT_MS: u64 = 0xffff_ffff_ffff_ffff - FLUSH_INTERVAL_MS;

/// Where a batcher stands in its run: it receives events, then waits for the
/// terminal delivery once the producer has closed its stream, then is done.
#[derive(PartialEq, Eq, Structural, Clone, Copy)]
pub enum BatcherStage {
    Running,
    Draining,
    Completed,
}

/// Turns the event stream of one task into batches, delivered no more often
/// than once per flush interval and closed by a single `Completed` marker.
///
/// The batcher reads no clock: each step is told the current instant in
/// milliseconds, and the caller delivers the batches that it hands back.
pub struct EventBatcher {
    buffer: Vec<SynchronizationEventJson>,
    last_flush: u64,
    terminal_at: u64,
    stage: BatcherStage,
    started_at: Ghost<u64>,
    received: Ghost<Seq<SynchronizationEventJson>>,
    delivered: Ghost<Seq<Seq<SynchronizationEventJson>>>,
    flush_times: Ghost<Seq<u64>>,
}

/// Each delivery comes at least a flush interval after the start and after
/// the delivery before it.
pub open spec fn spaced(start: u64, times: Seq<u64>) -> bool {
    &&& times.len() > 0 ==> times[0] >= start + FLUSH_INTERVAL_MS
    &&& forall|i: int|
        0 < i < times.len() ==> #[trigger] times[i] >= times[i - 1] + FLUSH_INTERVAL_MS
}

proof fn lemma_spaced_push(start: u64, times: Seq<u64>, t: u64)
    requires
        spaced(start, times),
        t >= if times.len() == 0 {
            start
        } else {
            times.last()
        } + FLUSH_INTERVAL_MS,
    ensures
        spaced(start, times.push(t)),
{
    let next = times.push(t);
    assert forall|i: int| 0 < i < next.len() implies #[trigger] next[i] >= next[i - 1]
        + FLUSH_INTERVAL_MS by {
        if i < times.len() {
            assert(next[i] == times[i] && next[i - 1] == times[i - 1]);
        }
    }
}

impl EventBatcher {
    /// The instant at which the batcher started.
    pub closed spec fn started_at(&self) -> u64 {
        self.started_at@
    }

    /// The envelopes of all events received so far, in order of arrival.
    pub closed spec fn received(&self) -> Seq<SynchronizationEventJson> {
        self.received@
    }

    /// The batches handed out for delivery so far, in order.
    pub closed spec fn delivered(&self) -> Seq<Seq<SynchronizationEventJson>> {
        self.delivered@
    }

    /// The instant of each delivery so far.
    pub closed spec fn flush_times(&self) -> Seq<u64> {
        self.flush_times@
    }

    /// The envelopes waiting for the next delivery.
    pub closed spec fn buffered(&self) -> Seq<SynchronizationEventJson> {
        self.buffer@
    }

    /// The instant of the last delivery, or of the start when there was none.
    pub closed spec fn last_flush(&self) -> u64 {
        self.last_flush
    }

    /// Once draining, the instant of the terminal delivery.
    pub closed spec fn terminal_at(&self) -> u64 {
        self.terminal_at
    }

    pub closed spec fn stage(&self) -> BatcherStage {
        self.stage
    }

    pub closed spec fn wf(&self) -> bool {
        &&& completed_count(self.received@) == 0
        &&& self.flush_times@.len() == self.delivered@.len()
        &&& spaced(self.started_at@, self.flush_times@)
        &&& self.last_flush == if self.flush_times@.len() == 0 {
            self.started_at@
        } else {
            self.flush_times@.last()
        }
        &&& !(self.stage is Completed) ==> self.last_flush <= LATEST_INSTANT_MS
        &&& self.stage is Completed ==> {
            &&& self.delivered@.flatten() == self.received@.push(SynchronizationEventJson::Completed)
            &&& self.buffer@.len() == 0
            &&& self.delivered@.len() > 0
            &&& self.delivered@.last().len() > 0
            &&& self.delivered@.last().last() is Completed
        }
        &&& !(self.stage is Completed) ==> self.delivered@.flatten() + self.buffer@
            == self.received@
        &&& self.stage is Draining ==> self.terminal_at >= self.last_flush + FLUSH_INTERVAL_MS
    }

    /// A batcher that starts at instant `now` with nothing received.
    pub fn new(now: u64) -> (b: Self)
        requires
            now <= LATEST_INSTANT_MS,
        ensures
            b.wf(),
            b.stage() is Running,
            b.started_at() == now,
            b.last_flush() == now,
            b.received() == Seq::<SynchronizationEventJson>::empty(),
            b.delivered() == Seq::<Seq<SynchronizationEventJson>>::empty(),
            b.buffered() == Seq::<SynchronizationEventJson>::empty(),
    {
        let b = EventBatcher {
            buffer: Vec::new(),
            last_flush: now,
            terminal_at: now,
            stage: BatcherStage::Running,
            started_at: Ghost(now),
            received: Ghost(Seq::empty()),
            delivered: Ghost(Seq::empty()),
            flush_times: Ghost(Seq::empty()),
        };
        assert(b.delivered@.flatten() + b.buffer@ =~= b.received@);
        b
    }

    /// Takes one event received at instant `now`. When a flush interval has
    /// passed since the last delivery, hands back the batch to deliver now:
    /// everything buffered, this event last.
    pub fn on_event(&mut self, event: SynchronizationEvent, now: u64) -> (r: Option<
        Vec<SynchronizationEventJson>,
    >)
        requires
            old(self).wf(),
            old(self).stage() is Running,
            now <= LATEST_INSTANT_MS,
        ensures
            final(self).wf(),
            final(self).stage() is Running,
            final(self).started_at() == old(self).started_at(),
            final(self).received() == old(self).received().push(envelope_of(event)),
            now >= old(self).last_flush() + FLUSH_INTERVAL_MS ==> {
                &&& r matches Some(batch)
                &&& batch@ == old(self).buffered().push(envelope_of(event))
                &&& final(self).delivered() == old(self).delivered().push(batch@)
                &&& final(self).flush_times() == old(self).flush_times().push(now)
                &&& final(self).last_flush() == now
                &&& final(self).buffered().len() == 0
            },
            now < old(self).last_flush() + FLUSH_INTERVAL_MS ==> {
                &&& r is None
                &&& final(self).delivered() == old(self).delivered()
                &&& final(self).flush_times() == old(self).flush_times()
                &&& final(self).last_flush() == old(self).last_flush()
                &&& final(self).buffered() == old(self).buffered().push(envelope_of(event))
            },
    {
        let ghost env = envelope_of(event);
        proof {
            crate::events::lemma_envelope_not_completed(event);
        }
        self.buffer.push(SynchronizationEventJson::from(event));
        self.received = Ghost(self.received@.push(env));
        assert(self.received@.drop_last() =~= old(self).received@);
        assert(self.delivered@.flatten() + self.buffer@ =~= self.received@);
        if now >= self.last_flush && now - self.last_flush >= FLUSH_INTERVAL_MS {
            let mut batch: Vec<SynchronizationEventJson> = Vec::new();
            std::mem::swap(&mut batch, &mut self.buffer);
            proof {
                self.delivered@.lemma_flatten_push(batch@);
                lemma_spaced_push(self.started_at@, self.flush_times@, now);
            }
            self.delivered = Ghost(self.delivered@.push(batch@));
            self.flush_times = Ghost(self.flush_times@.push(now));
            self.last_flush = now;
            assert(self.delivered@.flatten() + self.buffer@ =~= self.received@);
            assert(self.flush_times@.last() == now);
            Some(batch)
        } else {
            None
        }
    }

    /// The producer closed its stream at instant `now`. Returns how many
    /// milliseconds to wait before the terminal delivery, so that it too comes
    /// a flush interval after the last one.
    pub fn close(&mut self, now: u64) -> (delay: u64)
        requires
            old(self).wf(),
            old(self).stage() is Running,
            now <= LATEST_INSTANT_MS,
        ensures
            final(self).wf(),
            final(self).stage() is Draining,
            final(self).started_at() == old(self).started_at(),
            final(self).received() == old(self).received(),
            final(self).delivered() == old(self).delivered(),
            final(self).flush_times() == old(self).flush_times(),
            final(self).buffered() == old(self).buffered(),
            final(self).last_flush() == old(self).last_flush(),
            delay == if now >= old(self).last_flush() + FLUSH_INTERVAL_MS {
                0
            } else {
                old(self).last_flush() + FLUSH_INTERVAL_MS - now
            },
            final(self).terminal_at() == now + delay,
    {
        let due = self.last_flush + FLUSH_INTERVAL_MS;
        let delay = if now >= due {
            0
        } else {
            due - now
        };
        self.terminal_at = now + delay;
        self.stage = BatcherStage::Draining;
        delay
    }

    /// The terminal delivery: everything still buffered, then `Completed`.
    pub fn finish(&mut self) -> (batch: Vec<SynchronizationEventJson>)
        requires
            old(self).wf(),
            old(self).stage() is Draining,
        ensures
            final(self).wf(),
            final(self).stage() is Completed,
            final(self).started_at() == old(self).started_at(),
            final(self).received() == old(self).received(),
            batch@ == old(self).buffered().push(SynchronizationEventJson::Completed),
            final(self).delivered() == old(self).delivered().push(batch@),
            final(self).flush_times() == old(self).flush_times().push(old(self).terminal_at()),
    {
        let mut batch: Vec<SynchronizationEventJson> = Vec::new();
        std::mem::swap(&mut batch, &mut self.buffer);
        batch.push(SynchronizationEventJson::Completed);
        proof {
            self.delivered@.lemma_flatten_push(batch@);
            lemma_spaced_push(self.started_at@, self.flush_times@, self.terminal_at);
        }
        self.delivered = Ghost(self.delivered@.push(batch@));
        self.flush_times = Ghost(self.flush_times@.push(self.terminal_at));
        self.last_flush = self.terminal_at;
        self.stage = BatcherStage::Completed;
        assert(self.delivered@.flatten() =~= self.received@.push(SynchronizationEventJson::Completed));
        assert(self.flush_times@.last() == self.terminal_at);
        assert(self.delivered@.last() == batch@);
        batch
    }
}

/// Deliveries of one task come at least a flush interval apart, the first a
/// flush interval after the start and the terminal one a flush interval after
/// the one before it.
pub proof fn lemma_deliveries_spaced(b: EventBatcher)
    requires
        b.wf(),
    ensures
        b.flush_times().len() == b.delivered().len(),
        b.flush_times().len() > 0 ==> b.flush_times()[0] >= b.started_at() + FLUSH_INTERVAL_MS,
        forall|i: int|
            0 < i < b.flush_times().len() ==> #[trigger] b.flush_times()[i] >= b.flush_times()[i
                - 1] + FLUSH_INTERVAL_MS,
{
}

/// Every received event is delivered in exactly one batch, in the order of
/// arrival: until the end, the batches delivered and then the buffer spell out
/// what was received; at the end the batches spell it out followed by
/// `Completed`.
pub proof fn lemma_events_delivered_in_order(b: EventBatcher)
    requires
        b.wf(),
    ensures
        !(b.stage() is Completed) ==> b.delivered().flatten() + b.buffered() == b.received(),
        b.stage() is Completed ==> b.delivered().flatten() == b.received().push(
            SynchronizationEventJson::Completed,
        ),
{
}

/// A completed run has delivered exactly one `Completed` marker, as the last
/// element of its last batch.
pub proof fn lemma_single_terminal_marker(b: EventBatcher)
    requires
        b.wf(),
        b.stage() is Completed,
    ensures
        completed_count(b.delivered().flatten()) == 1,
        b.delivered().len() > 0,
        b.delivered().last().len() > 0,
        b.delivered().last().last() is Completed,
{
    let all = b.received().push(SynchronizationEventJson::Completed);
    assert(all.drop_last() =~= b.received());
}

/// An event that the producer hands over at instant `at`.
pub struct TimedEvent {
    pub at: u64,
    pub event: SynchronizationEvent,
}

/// A batch together with the instant at which it is delivered.
pub struct DeliveredBatch {
    pub at: u64,
    pub events: Vec<SynchronizationEventJson>,
}

pub open spec fn timed_envelopes(events: Seq<TimedEvent>) -> Seq<SynchronizationEventJson> {
    events.map_values(|t: TimedEvent| envelope_of(t.event))
}

pub open spec fn batch_contents(batches: Seq<DeliveredBatch>) -> Seq<Seq<SynchronizationEventJson>> {
    batches.map_values(|d: DeliveredBatch| d.events@)
}

pub open spec fn batch_times(batches: Seq<DeliveredBatch>) -> Seq<u64> {
    batches.map_values(|d: DeliveredBatch| d.at)
}

fn deliver_event(b: &mut EventBatcher, out: &mut Vec<DeliveredBatch>, timed: TimedEvent)
    requires
        old(b).wf(),
        old(b).stage() is Running,
        timed.at <= LATEST_INSTANT_MS,
        old(b).delivered() == batch_contents(old(out)@),
        old(b).flush_times() == batch_times(old(out)@),
    ensures
        final(b).wf(),
        final(b).stage() is Running,
        final(b).started_at() == old(b).started_at(),
        final(b).received() == old(b).received().push(envelope_of(timed.event)),
        final(b).delivered() == batch_contents(final(out)@),
        final(b).flush_times() == batch_times(final(out)@),
{
    let TimedEvent { at, event } = timed;
    let ghost out_before = out@;
    match b.on_event(event, at) {
        Some(batch) => {
            out.push(DeliveredBatch { at, events: batch });
            assert(batch_contents(out@) =~= batch_contents(out_before).push(out@.last().events@));
            assert(batch_times(out@) =~= batch_times(out_before).push(at));
        },
        None => {},
    }
}

/// Runs a batcher started at `start` over a producer that hands over `events`
/// at their instants and closes its stream at `closed_at`, and returns the
/// deliveries it makes.
pub fn simulate_batches(start: u64, events: Vec<TimedEvent>, closed_at: u64) -> (r: Vec<
    DeliveredBatch,
>)
    requires
        start <= LATEST_INSTANT_MS,
        closed_at <= LATEST_INSTANT_MS,
        forall|i: int| 0 <= i < events@.len() ==> #[trigger] events@[i].at <= LATEST_INSTANT_MS,
    ensures
        batch_contents(r@).flatten() == timed_envelopes(events@).push(
            SynchronizationEventJson::Completed,
        ),
        spaced(start, batch_times(r@)),
        r@.len() > 0,
        r@.last().at >= closed_at,
        r@.last().events@.len() > 0,
        r@.last().events@.last() is Completed,
        completed_count(batch_contents(r@).flatten()) == 1,
{
    let ghost evs = events@;
    let mut b = EventBatcher::new(start);
    let mut out: Vec<DeliveredBatch> = Vec::new();
    let mut rest = events;
    let n: usize = rest.len();
    let mut i: usize = 0;
    while rest.len() > 0
        invariant
            0 <= i <= evs.len(),
            evs.len() == n,
            rest@ == evs.subrange(i as int, evs.len() as int),
            rest@.len() == evs.len() - i,
            forall|j: int| 0 <= j < evs.len() ==> #[trigger] evs[j].at <= LATEST_INSTANT_MS,
            b.wf(),
            b.stage() is Running,
            b.started_at() == start,
            b.received() == timed_envelopes(evs.take(i as int)),
            b.delivered() == batch_contents(out@),
            b.flush_times() == batch_times(out@),
        decreases rest@.len(),
    {
        let timed = rest.remove(0);
        assert(timed == evs[i as int]);
        deliver_event(&mut b, &mut out, timed);
        assert(timed_envelopes(evs.take(i + 1)) =~= timed_envelopes(evs.take(i as int)).push(
            envelope_of(evs[i as int].event),
        ));
        i = i + 1;
    }
    assert(evs.take(i as int) =~= evs);
    let delay = b.close(closed_at);
    let ghost at = b.terminal_at();
    let ghost out_before = out@;
    let final_batch = b.finish();
    out.push(DeliveredBatch { at: closed_at + delay, events: final_batch });
    assert(batch_contents(out@) =~= batch_contents(out_before).push(out@.last().events@));
    assert(batch_times(out@) =~= batch_times(out_before).push(at));
    proof {
        lemma_single_terminal_marker(b);
        lemma_events_delivered_in_order(b);
    }
    out
}

} // verus!
