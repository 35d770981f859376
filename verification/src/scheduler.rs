//! The future-event set: a binary min-heap keyed by wake time, with arrival
//! numbers that make equal wake times leave in the order of their arrival.

use vstd::prelude::*;
use vstd::seq_lib::{to_multiset_update, to_multiset_remove, to_multiset_build, to_multiset_contains};
use crate::values::Transact;

verus! {

/// A resumption that is due at `wake_time`.
#[derive(Clone, Copy, Debug, PartialEq, Eq)]
pub struct Event {
    /// The instruction that is resumed.
    pub instruction_id: u32,
    /// When the event is due, in milliseconds.
    pub wake_time: u64,
    /// The transact that waits, if one does.
    pub transact: Option<Transact>,
}

/// A pending event with its arrival number.
#[derive(Clone, Copy)]
struct Entry {
    event: Event,
    arrival: u128,
}

/// The entry `a` leaves before `b`: it is due earlier, or due at the same
/// time and arrived earlier.
spec fn leaves_before(a: Entry, b: Entry) -> bool {
    a.event.wake_time < b.event.wake_time || (a.event.wake_time == b.event.wake_time && a.arrival
        < b.arrival)
}

/// The index above `i` in the heap.
spec fn parent(i: int) -> int {
    (i - 1) / 2
}

/// Every entry but the root leaves no earlier than the one above it.
spec fn is_heap(h: Seq<Entry>) -> bool {
    forall|j: int| 1 <= j < h.len() ==> !leaves_before(#[trigger] h[j], h[parent(j)])
}

/// The heap order holds between every entry other than `at` and the one
/// above it, and between the entry above `at` and those below `at`.
spec fn is_heap_but_above(h: Seq<Entry>, at: int) -> bool {
    &&& forall|j: int| 1 <= j < h.len() && j != at ==> !leaves_before(#[trigger] h[j], h[parent(j)])
    &&& forall|j: int|
        1 <= j < h.len() && parent(j) == at && at > 0 ==> !leaves_before(
            #[trigger] h[j],
            h[parent(at)],
        )
}

/// The heap order holds between every entry that is not directly below `at`
/// and the one above it, and between the entry above `at` and those below `at`.
spec fn is_heap_but_below(h: Seq<Entry>, at: int) -> bool {
    &&& forall|j: int|
        1 <= j < h.len() && parent(j) != at ==> !leaves_before(#[trigger] h[j], h[parent(j)])
    &&& forall|j: int|
        1 <= j < h.len() && parent(j) == at && at > 0 ==> !leaves_before(
            #[trigger] h[j],
            h[parent(at)],
        )
}

fn entry_before(a: &Entry, b: &Entry) -> (r: bool)
    ensures
        r == leaves_before(*a, *b),
{
    a.event.wake_time < b.event.wake_time || (a.event.wake_time == b.event.wake_time && a.arrival
        < b.arrival)
}

fn exchange(heap: &mut Vec<Entry>, i: usize, j: usize)
    requires
        i < old(heap)@.len(),
        j < old(heap)@.len(),
    ensures
        final(heap)@ == old(heap)@.update(i as int, old(heap)@[j as int]).update(
            j as int,
            old(heap)@[i as int],
        ),
        final(heap)@.to_multiset() == old(heap)@.to_multiset(),
{
    let a = heap[i];
    let b = heap[j];
    proof {
        to_multiset_update(heap@, i as int, b);
        to_multiset_update(heap@.update(i as int, b), j as int, a);
        to_multiset_contains(heap@, a);
        to_multiset_contains(heap@, b);
    }
    heap.set(i, b);
    heap.set(j, a);
    assert(heap@.to_multiset() =~= old(heap)@.to_multiset());
}

fn sift_up(heap: &mut Vec<Entry>, start: usize)
    requires
        start < old(heap)@.len(),
        is_heap_but_above(old(heap)@, start as int),
    ensures
        is_heap(final(heap)@),
        final(heap)@.to_multiset() == old(heap)@.to_multiset(),
        final(heap)@.len() == old(heap)@.len(),
{
    let mut i: usize = start;
    while i > 0
        invariant
            i < heap@.len(),
            heap@.len() == old(heap)@.len(),
            is_heap_but_above(heap@, i as int),
            heap@.to_multiset() == old(heap)@.to_multiset(),
        ensures
            is_heap(heap@),
            heap@.len() == old(heap)@.len(),
            heap@.to_multiset() == old(heap)@.to_multiset(),
        decreases i,
    {
        let above: usize = (i - 1) / 2;
        if entry_before(&heap[i], &heap[above]) {
            exchange(heap, i, above);
            i = above;
        } else {
            break ;
        }
    }
}

fn sift_down(heap: &mut Vec<Entry>, start: usize)
    requires
        start < old(heap)@.len(),
        is_heap_but_below(old(heap)@, start as int),
    ensures
        is_heap(final(heap)@),
        final(heap)@.to_multiset() == old(heap)@.to_multiset(),
        final(heap)@.len() == old(heap)@.len(),
{
    let mut i: usize = start;
    let len: usize = heap.len();
    while i < len / 2
        invariant
            i < heap@.len(),
            len == heap@.len(),
            heap@.len() == old(heap)@.len(),
            is_heap_but_below(heap@, i as int),
            heap@.to_multiset() == old(heap)@.to_multiset(),
        ensures
            is_heap(heap@),
            heap@.len() == old(heap)@.len(),
            heap@.to_multiset() == old(heap)@.to_multiset(),
        decreases len - i,
    {
        let left: usize = 2 * i + 1;
        let right: usize = left + 1;
        let below: usize = if right < len && entry_before(&heap[right], &heap[left]) {
            right
        } else {
            left
        };
        if entry_before(&heap[below], &heap[i]) {
            exchange(heap, i, below);
            i = below;
        } else {
            break ;
        }
    }
}

/// The events of a sequence of entries, in the same order.
spec fn events_of(entries: Seq<Entry>) -> Seq<Event> {
    Seq::new(entries.len(), |i: int| entries[i].event)
}

/// No event of the sequence is due before one that stands earlier in it.
pub open spec fn time_ordered(events: Seq<Event>) -> bool {
    forall|i: int, j: int|
        0 <= i < j < events.len() ==> (#[trigger] events[i]).wake_time <= (
        #[trigger] events[j]).wake_time
}

/// Where an event due at `wake_time` joins a time-ordered line: behind every
/// event that is due no later, before every event that is due later.
pub open spec fn arrival_position(events: Seq<Event>, wake_time: u64) -> int
    decreases events.len(),
{
    if events.len() == 0 || events[0].wake_time > wake_time {
        0
    } else {
        1 + arrival_position(events.drop_first(), wake_time)
    }
}

/// The line after `event` has joined it.
pub open spec fn stable_insert(events: Seq<Event>, event: Event) -> Seq<Event> {
    events.insert(arrival_position(events, event.wake_time), event)
}

/// The arrival position splits a time-ordered line into the events due no
/// later than `wake_time` and those due later.
pub proof fn lemma_arrival_position(events: Seq<Event>, wake_time: u64)
    requires
        time_ordered(events),
    ensures
        0 <= arrival_position(events, wake_time) <= events.len(),
        forall|i: int|
            0 <= i < arrival_position(events, wake_time) ==> (#[trigger] events[i]).wake_time
                <= wake_time,
        forall|i: int|
            arrival_position(events, wake_time) <= i < events.len() ==> (
            #[trigger] events[i]).wake_time > wake_time,
    decreases events.len(),
{
    if events.len() == 0 || events[0].wake_time > wake_time {
    } else {
        let rest = events.drop_first();
        assert forall|i: int, j: int| 0 <= i < j < rest.len() implies (#[trigger] rest[i]).wake_time
            <= (#[trigger] rest[j]).wake_time by {
            assert(rest[i] == events[i + 1]);
            assert(rest[j] == events[j + 1]);
        }
        lemma_arrival_position(rest, wake_time);
        let p = arrival_position(rest, wake_time);
        assert forall|i: int| 0 <= i < p + 1 implies (#[trigger] events[i]).wake_time
            <= wake_time by {
            if i > 0 {
                assert(events[i] == rest[i - 1]);
            }
        }
        assert forall|i: int| p + 1 <= i < events.len() implies (#[trigger] events[i]).wake_time
            > wake_time by {
            assert(events[i] == rest[i - 1]);
        }
    }
}

/// The arrival position lies within the line.
pub proof fn lemma_arrival_position_bounds(events: Seq<Event>, wake_time: u64)
    ensures
        0 <= arrival_position(events, wake_time) <= events.len(),
    decreases events.len(),
{
    if events.len() == 0 || events[0].wake_time > wake_time {
    } else {
        lemma_arrival_position_bounds(events.drop_first(), wake_time);
    }
}

/// A line stays time-ordered when an event joins it.
pub proof fn lemma_stable_insert_ordered(events: Seq<Event>, event: Event)
    requires
        time_ordered(events),
    ensures
        time_ordered(stable_insert(events, event)),
{
    lemma_arrival_position(events, event.wake_time);
}

proof fn lemma_root_leaves_first(h: Seq<Entry>, j: int)
    requires
        is_heap(h),
        0 <= j < h.len(),
    ensures
        !leaves_before(h[j], h[0]),
    decreases j,
{
    if j > 0 {
        lemma_root_leaves_first(h, parent(j));
    }
}

/// The pending events of a simulation.
pub struct EventQueue {
    heap: Vec<Entry>,
    next_arrival: u128,
    line: Ghost<Seq<Entry>>,
}

impl View for EventQueue {
    type V = Seq<Event>;

    /// The pending events in the order in which they will leave.
    closed spec fn view(&self) -> Seq<Event> {
        events_of(self.line@)
    }
}

impl EventQueue {
    /// The heap holds the entries of the line, the line is in leaving order,
    /// and every arrival number in it has been given out.
    pub closed spec fn wf(&self) -> bool {
        &&& is_heap(self.heap@)
        &&& self.heap@.to_multiset() == self.line@.to_multiset()
        &&& self.heap@.len() == self.line@.len()
        &&& forall|i: int, j: int|
            0 <= i < j < self.line@.len() ==> leaves_before(
                #[trigger] self.line@[i],
                #[trigger] self.line@[j],
            )
        &&& forall|i: int|
            0 <= i < self.line@.len() ==> (#[trigger] self.line@[i]).arrival < self.next_arrival
    }

    /// The events of a well-formed queue are in time order.
    pub proof fn lemma_time_ordered(&self)
        requires
            self.wf(),
        ensures
            time_ordered(self@),
    {
        assert forall|i: int, j: int| 0 <= i < j < self@.len() implies (#[trigger] self@[i]).wake_time
            <= (#[trigger] self@[j]).wake_time by {
            assert(leaves_before(self.line@[i], self.line@[j]));
        }
    }

    /// An empty queue.
    pub fn new() -> (q: EventQueue)
        ensures
            q.wf(),
            q@ == Seq::<Event>::empty(),
    {
        let q = EventQueue { heap: Vec::new(), next_arrival: 0, line: Ghost(Seq::empty()) };
        assert(q@ =~= Seq::<Event>::empty());
        q
    }

    /// How many events are pending.
    pub fn len(&self) -> (n: usize)
        requires
            self.wf(),
        ensures
            n == self@.len(),
    {
        self.heap.len()
    }

    /// Whether no event is pending.
    pub fn is_empty(&self) -> (b: bool)
        requires
            self.wf(),
        ensures
            b == (self@.len() == 0),
    {
        self.heap.len() == 0
    }

    /// The event that leaves next, if one is pending.
    pub fn peek(&self) -> (r: Option<Event>)
        requires
            self.wf(),
        ensures
            r == (if self@.len() == 0 {
                None::<Event>
            } else {
                Some(self@[0])
            }),
    {
        if self.heap.len() == 0 {
            None
        } else {
            proof {
                self.lemma_root_is_first();
            }
            Some(self.heap[0].event)
        }
    }

    proof fn lemma_root_is_first(&self)
        requires
            self.wf(),
            self.heap@.len() > 0,
        ensures
            self.heap@[0] == self.line@[0],
    {
        let h = self.heap@;
        let l = self.line@;
        to_multiset_contains(h, h[0]);
        to_multiset_contains(l, h[0]);
        to_multiset_contains(h, l[0]);
        to_multiset_contains(l, l[0]);
        assert(h.contains(h[0]));
        assert(l.contains(l[0]));
        let m = choose|m: int| 0 <= m < l.len() && l[m] == h[0];
        let k = choose|k: int| 0 <= k < h.len() && h[k] == l[0];
        lemma_root_leaves_first(h, k);
        if m > 0 {
            assert(leaves_before(l[0], l[m]));
        }
    }

    fn pop_entry(&mut self) -> (r: Option<Entry>)
        requires
            old(self).wf(),
        ensures
            final(self).wf(),
            final(self).next_arrival == old(self).next_arrival,
            old(self).line@.len() == 0 ==> r.is_none() && final(self).line@ == old(self).line@,
            old(self).line@.len() > 0 ==> r == Some(old(self).line@[0]) && final(self).line@ == old(
                self,
            ).line@.drop_first(),
    {
        if self.heap.len() == 0 {
            return None;
        }
        proof {
            self.lemma_root_is_first();
        }
        let ghost before = self.heap@;
        let top = self.heap[0];
        let last = self.heap.pop().unwrap();
        proof {
            assert(self.heap@ == before.remove(before.len() - 1));
            to_multiset_remove(before, before.len() - 1);
            to_multiset_remove(self.line@, 0);
            assert(self.line@.remove(0) == self.line@.drop_first());
        }
        if self.heap.len() > 0 {
            proof {
                to_multiset_update(self.heap@, 0, last);
                to_multiset_contains(before, top);
                to_multiset_contains(before, last);
            }
            self.heap.set(0, last);
            assert(self.heap@.to_multiset() =~= before.to_multiset().remove(top));
            sift_down(&mut self.heap, 0);
        } else {
            assert(self.heap@.to_multiset() =~= before.to_multiset().remove(top));
        }
        self.line = Ghost(self.line@.drop_first());
        Some(top)
    }

    /// Removes the event that leaves next and returns it.
    pub fn pop_next(&mut self) -> (r: Option<Event>)
        requires
            old(self).wf(),
        ensures
            final(self).wf(),
            old(self)@.len() == 0 ==> r.is_none() && final(self)@ == old(self)@,
            old(self)@.len() > 0 ==> r == Some(old(self)@[0]) && final(self)@ == old(
                self,
            )@.drop_first(),
    {
        match self.pop_entry() {
            None => None,
            Some(entry) => {
                assert(self@ =~= old(self)@.drop_first());
                Some(entry.event)
            },
        }
    }

    /// Gives the pending entries the arrival numbers 0, 1, 2, ... in their
    /// leaving order, so that numbers are free again above them.
    fn renumber(&mut self)
        requires
            old(self).wf(),
        ensures
            final(self).wf(),
            final(self)@ == old(self)@,
            final(self).next_arrival == final(self).heap@.len(),
    {
        let ghost start = self.line@;
        let mut sorted: Vec<Entry> = Vec::new();
        assert(start.skip(0) =~= start);
        while self.heap.len() > 0
            invariant
                self.wf(),
                sorted@.len() + self.line@.len() == start.len(),
                self.line@ == start.skip(sorted@.len() as int),
                forall|i: int|
                    0 <= i < sorted@.len() ==> (#[trigger] sorted@[i]).event == start[i].event
                        && sorted@[i].arrival == i,
            decreases self.heap@.len(),
        {
            let ghost line = self.line@;
            let entry = self.pop_entry().unwrap();
            assert(entry == start[sorted@.len() as int]);
            assert(line.drop_first() =~= start.skip(sorted@.len() as int + 1));
            let number: u128 = sorted.len() as u128;
            sorted.push(Entry { event: entry.event, arrival: number });
        }
        assert forall|i: int, j: int| 0 <= i < j < sorted@.len() implies leaves_before(
            #[trigger] sorted@[i],
            #[trigger] sorted@[j],
        ) by {
            assert(leaves_before(start[i], start[j]));
        }
        assert forall|j: int| 1 <= j < sorted@.len() implies !leaves_before(
            #[trigger] sorted@[j],
            sorted@[parent(j)],
        ) by {
            if parent(j) < j {
                assert(leaves_before(sorted@[parent(j)], sorted@[j]));
            }
        }
        self.next_arrival = sorted.len() as u128;
        self.line = Ghost(sorted@);
        self.heap = sorted;
        assert(self@ =~= old(self)@);
    }

    /// Adds an event that is due at `wake_time`. It will leave after every
    /// pending event that is due no later, and before the others.
    pub fn schedule(&mut self, instruction_id: u32, wake_time: u64, transact: Option<Transact>)
        requires
            old(self).wf(),
        ensures
            final(self).wf(),
            final(self)@ == stable_insert(
                old(self)@,
                (Event { instruction_id, wake_time, transact }),
            ),
    {
        if self.next_arrival == u128::MAX {
            self.renumber();
        }
        let event = Event { instruction_id, wake_time, transact };
        let entry = Entry { event, arrival: self.next_arrival };
        let ghost line = self.line@;
        let ghost events = self@;
        let ghost at = arrival_position(events, wake_time);
        proof {
            self.lemma_time_ordered();
            lemma_arrival_position(events, wake_time);
            to_multiset_build(self.heap@, entry);
            vstd::seq_lib::to_multiset_insert(line, at, entry);
        }
        self.heap.push(entry);
        let last: usize = self.heap.len() - 1;
        sift_up(&mut self.heap, last);
        self.next_arrival = self.next_arrival + 1;
        self.line = Ghost(line.insert(at, entry));
        proof {
            let after = line.insert(at, entry);
            assert forall|i: int, j: int| 0 <= i < j < after.len() implies leaves_before(
                #[trigger] after[i],
                #[trigger] after[j],
            ) by {
                if j < at {
                    assert(after[i] == line[i] && after[j] == line[j]);
                } else if j == at {
                    assert(after[i] == line[i]);
                    assert(events[i].wake_time <= wake_time);
                } else if i < at {
                    assert(after[i] == line[i] && after[j] == line[j - 1]);
                } else if i == at {
                    assert(after[j] == line[j - 1]);
                    assert(events[j - 1].wake_time > wake_time);
                } else {
                    assert(after[i] == line[i - 1] && after[j] == line[j - 1]);
                }
            }
            assert forall|i: int| 0 <= i < after.len() implies (#[trigger] after[i]).arrival
                < self.next_arrival by {
                if i < at {
                    assert(after[i] == line[i]);
                } else if i > at {
                    assert(after[i] == line[i - 1]);
                }
            }
            assert(self@ =~= stable_insert(events, event));
        }
    }
}

/// An event joins behind every pending event that is due at the same time,
/// and the events that were pending keep their order.
pub proof fn lemma_joins_behind_equal_times(events: Seq<Event>, event: Event)
    requires
        time_ordered(events),
    ensures
        forall|i: int|
            0 <= i < events.len() && (#[trigger] events[i]).wake_time == event.wake_time ==> i
                < arrival_position(events, event.wake_time),
        stable_insert(events, event).remove(arrival_position(events, event.wake_time)) == events,
{
    lemma_arrival_position(events, event.wake_time);
    assert(stable_insert(events, event).remove(arrival_position(events, event.wake_time))
        =~= events);
}

/// What a client does to a queue.
pub enum QueueOp {
    /// It schedules an event.
    Schedule(Event),
    /// It takes the next event, if one is pending.
    PopNext,
}

/// An event with the number of the operation that scheduled it.
pub struct Stamped {
    pub event: Event,
    pub arrival: nat,
}

/// The pending events and the events that have left, each in its order.
pub struct Replay {
    pub pending: Seq<Stamped>,
    pub left: Seq<Stamped>,
}

/// The events of a stamped sequence.
pub open spec fn unstamped(entries: Seq<Stamped>) -> Seq<Event> {
    Seq::new(entries.len(), |i: int| entries[i].event)
}

/// A queue that starts empty, after the operations `ops`: what is pending
/// and what has left, each event with the number of its `Schedule`.
pub open spec fn replay(ops: Seq<QueueOp>) -> Replay
    decreases ops.len(),
{
    if ops.len() == 0 {
        Replay { pending: Seq::empty(), left: Seq::empty() }
    } else {
        let before = replay(ops.drop_last());
        match ops.last() {
            QueueOp::Schedule(event) => Replay {
                pending: before.pending.insert(
                    arrival_position(unstamped(before.pending), event.wake_time),
                    Stamped { event, arrival: (ops.len() - 1) as nat },
                ),
                left: before.left,
            },
            QueueOp::PopNext => if before.pending.len() == 0 {
                before
            } else {
                Replay {
                    pending: before.pending.drop_first(),
                    left: before.left.push(before.pending[0]),
                }
            },
        }
    }
}

/// The stamps of a replay are those of the queue: without them, scheduling
/// is the stable insertion and taking removes the first.
pub proof fn lemma_replay_is_queue(ops: Seq<QueueOp>)
    requires
        ops.len() > 0,
    ensures
        ops.last() matches QueueOp::Schedule(event) ==> unstamped(replay(ops).pending)
            == stable_insert(unstamped(replay(ops.drop_last()).pending), event),
        ops.last() is PopNext && replay(ops.drop_last()).pending.len() > 0 ==> unstamped(
            replay(ops).pending,
        ) == unstamped(replay(ops.drop_last()).pending).drop_first() && replay(ops).left.last().event
            == unstamped(replay(ops.drop_last()).pending)[0],
{
    let before = replay(ops.drop_last());
    match ops.last() {
        QueueOp::Schedule(event) => {
            lemma_arrival_position_bounds(unstamped(before.pending), event.wake_time);
            assert(unstamped(replay(ops).pending) =~= stable_insert(
                unstamped(before.pending),
                event,
            ));
        },
        QueueOp::PopNext => {
            if before.pending.len() > 0 {
                assert(unstamped(replay(ops).pending) =~= unstamped(before.pending).drop_first());
            }
        },
    }
}

/// `a` stands before `b` in leaving order: due earlier, or due at the same
/// time and scheduled earlier.
pub open spec fn stamped_before(a: Stamped, b: Stamped) -> bool {
    a.event.wake_time < b.event.wake_time || (a.event.wake_time == b.event.wake_time && a.arrival
        < b.arrival)
}

spec fn replay_inv(ops: Seq<QueueOp>) -> bool {
    let r = replay(ops);
    &&& forall|i: int, j: int|
        0 <= i < j < r.pending.len() ==> stamped_before(
            #[trigger] r.pending[i],
            #[trigger] r.pending[j],
        )
    &&& forall|i: int| 0 <= i < r.pending.len() ==> (#[trigger] r.pending[i]).arrival < ops.len()
    &&& forall|i: int| 0 <= i < r.left.len() ==> (#[trigger] r.left[i]).arrival < ops.len()
    &&& forall|i: int, j: int|
        0 <= i < r.left.len() && 0 <= j < r.pending.len() && (#[trigger] r.left[i]).event.wake_time
            == (#[trigger] r.pending[j]).event.wake_time ==> r.left[i].arrival
            < r.pending[j].arrival
    &&& forall|i: int, j: int|
        0 <= i < j < r.left.len() && (#[trigger] r.left[i]).event.wake_time == (
        #[trigger] r.left[j]).event.wake_time ==> r.left[i].arrival < r.left[j].arrival
}

proof fn lemma_replay_inv(ops: Seq<QueueOp>)
    ensures
        replay_inv(ops),
    decreases ops.len(),
{
    if ops.len() > 0 {
        lemma_replay_inv(ops.drop_last());
        let before = replay(ops.drop_last());
        let after = replay(ops);
        match ops.last() {
            QueueOp::Schedule(event) => {
                let events = unstamped(before.pending);
                assert forall|i: int, j: int| 0 <= i < j < events.len() implies (
                #[trigger] events[i]).wake_time <= (#[trigger] events[j]).wake_time by {
                    assert(stamped_before(before.pending[i], before.pending[j]));
                }
                lemma_arrival_position(events, event.wake_time);
                let at = arrival_position(events, event.wake_time);
                let line = before.pending;
                assert forall|i: int, j: int| 0 <= i < j < after.pending.len() implies stamped_before(
                    #[trigger] after.pending[i],
                    #[trigger] after.pending[j],
                ) by {
                    if j < at {
                        assert(after.pending[i] == line[i] && after.pending[j] == line[j]);
                    } else if j == at {
                        assert(after.pending[i] == line[i]);
                        assert(events[i].wake_time <= event.wake_time);
                    } else if i < at {
                        assert(after.pending[i] == line[i] && after.pending[j] == line[j - 1]);
                    } else if i == at {
                        assert(after.pending[j] == line[j - 1]);
                        assert(events[j - 1].wake_time > event.wake_time);
                    } else {
                        assert(after.pending[i] == line[i - 1] && after.pending[j] == line[j - 1]);
                    }
                }
                assert forall|i: int| 0 <= i < after.pending.len() implies (
                #[trigger] after.pending[i]).arrival < ops.len() by {
                    if i < at {
                        assert(after.pending[i] == line[i]);
                    } else if i > at {
                        assert(after.pending[i] == line[i - 1]);
                    }
                }
                assert forall|i: int, j: int|
                    0 <= i < after.left.len() && 0 <= j < after.pending.len() && (
                    #[trigger] after.left[i]).event.wake_time == (
                    #[trigger] after.pending[j]).event.wake_time implies after.left[i].arrival
                    < after.pending[j].arrival by {
                    if j < at {
                        assert(after.pending[j] == line[j]);
                    } else if j > at {
                        assert(after.pending[j] == line[j - 1]);
                    }
                }
            },
            QueueOp::PopNext => {
                if before.pending.len() > 0 {
                    let line = before.pending;
                    assert forall|i: int, j: int| 0 <= i < j < after.pending.len() implies stamped_before(
                        #[trigger] after.pending[i],
                        #[trigger] after.pending[j],
                    ) by {
                        assert(after.pending[i] == line[i + 1] && after.pending[j] == line[j + 1]);
                    }
                    assert forall|i: int| 0 <= i < after.pending.len() implies (
                    #[trigger] after.pending[i]).arrival < ops.len() by {
                        assert(after.pending[i] == line[i + 1]);
                    }
                    assert forall|i: int, j: int|
                        0 <= i < after.left.len() && 0 <= j < after.pending.len() && (
                        #[trigger] after.left[i]).event.wake_time == (
                        #[trigger] after.pending[j]).event.wake_time implies after.left[i].arrival
                        < after.pending[j].arrival by {
                        assert(after.pending[j] == line[j + 1]);
                        if i == before.left.len() {
                            assert(stamped_before(line[0], line[j + 1]));
                        } else {
                            assert(after.left[i] == before.left[i]);
                        }
                    }
                    assert forall|i: int, j: int|
                        0 <= i < j < after.left.len() && (#[trigger] after.left[i]).event.wake_time
                            == (#[trigger] after.left[j]).event.wake_time implies after.left[i].arrival
                        < after.left[j].arrival by {
                        assert(after.left[i] == before.left[i]);
                        if j < before.left.len() {
                            assert(after.left[j] == before.left[j]);
                        }
                    }
                }
            },
        }
    }
}

/// First in, first out among equal wake times: whatever is done to a queue,
/// of two events that are due at the same time the one that was scheduled
/// first leaves first; and events leave in time order as far as they were
/// pending together.
pub proof fn lemma_fifo(ops: Seq<QueueOp>)
    ensures
        forall|i: int, j: int|
            0 <= i < j < replay(ops).left.len() && (#[trigger] replay(ops).left[i]).event.wake_time
                == (#[trigger] replay(ops).left[j]).event.wake_time ==> replay(ops).left[i].arrival
                < replay(ops).left[j].arrival,
        forall|i: int, j: int|
            0 <= i < j < replay(ops).pending.len() ==> stamped_before(
                #[trigger] replay(ops).pending[i],
                #[trigger] replay(ops).pending[j],
            ),
{
    lemma_replay_inv(ops);
}

} // verus!
