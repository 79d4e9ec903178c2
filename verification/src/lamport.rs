//! Lamport logical clocks.
use crate::proto::{Lt, NodeMessage};
use crate::time::LogicalTimeProvider;
use vstd::prelude::*;

verus! {

/// A Lamport timestamp: the logical time and the id of the process that
/// issued it. Timestamps are ordered by logical time first, then by process id.
#[derive(Clone, Copy, Debug, Default, Eq, PartialOrd, Ord)]
pub struct LamportClockUnit(pub (u64, u32));

impl PartialEq for LamportClockUnit {
    fn eq(&self, other: &Self) -> (r: bool) {
        self.0.0 == other.0.0 && self.0.1 == other.0.1
    }
}

impl vstd::std_specs::cmp::PartialEqSpecImpl for LamportClockUnit {
    open spec fn obeys_eq_spec() -> bool {
        true
    }

    open spec fn eq_spec(&self, other: &Self) -> bool {
        self.0.0 == other.0.0 && self.0.1 == other.0.1
    }
}

impl LamportClockUnit {
    /// The logical time of the timestamp.
    pub open spec fn lt(self) -> u64 {
        self.0.0
    }

    /// The id of the process that issued the timestamp.
    pub open spec fn proc_id(self) -> u32 {
        self.0.1
    }

    /// The order of timestamps: lexicographic on (logical time, process id).
    pub open spec fn precedes(self, other: Self) -> bool {
        ||| self.lt() < other.lt()
        ||| (self.lt() == other.lt() && self.proc_id() < other.proc_id())
    }

    /// Whether `self` comes strictly before `other`.
    pub fn is_before(&self, other: &Self) -> (r: bool)
        ensures
            r == self.precedes(*other),
    {
        self.0.0 < other.0.0 || (self.0.0 == other.0.0 && self.0.1 < other.0.1)
    }
}

/// The state of a Lamport clock: the owning process and its counter.
pub struct ClockState {
    pub id: u32,
    pub counter: u64,
}

impl ClockState {
    /// The timestamp that the next tick issues.
    pub open spec fn next_unit(self) -> LamportClockUnit {
        LamportClockUnit((self.counter, self.id))
    }

    /// The state after a tick: the counter moves on by one, wrapping at the
    /// top of `u64`.
    pub open spec fn ticked(self) -> ClockState {
        ClockState {
            id: self.id,
            counter: if self.counter == u64::MAX { 0 } else { (self.counter + 1) as u64 },
        }
    }

    /// The state after seeing logical time `lt`: the counter becomes the
    /// larger of itself and `lt`.
    pub open spec fn adjusted(self, lt: u64) -> ClockState {
        ClockState { id: self.id, counter: if lt > self.counter { lt } else { self.counter } }
    }
}

/// A Lamport clock owned by one process. The process id must be unique among
/// the processes for the timestamps to be totally ordered.
pub struct LamportClock {
    id: u32,
    counter: u64,
}

impl View for LamportClock {
    type V = ClockState;

    closed spec fn view(&self) -> ClockState {
        ClockState { id: self.id, counter: self.counter }
    }
}

impl LamportClock {
    /// A fresh clock for process `id`, at logical time 0.
    pub fn new(id: u32) -> (c: Self)
        ensures
            c@ == (ClockState { id, counter: 0 }),
    {
        LamportClock { id, counter: 0 }
    }

    /// Issues the next timestamp and moves the clock on.
    pub fn next_timestamp(&mut self) -> (unit: LamportClockUnit)
        ensures
            unit == old(self)@.next_unit(),
            final(self)@ == old(self)@.ticked(),
    {
        let lt = self.counter;
        self.counter = self.counter.wrapping_add(1);
        LamportClockUnit((lt, self.id))
    }

    /// Moves the clock forward to the logical time of `ts` if that is ahead.
    pub fn adjust_timestamp(&mut self, ts: LamportClockUnit)
        ensures
            final(self)@ == old(self)@.adjusted(ts.lt()),
    {
        let ts_lt = ts.0.0;
        if ts_lt > self.counter {
            self.counter = ts_lt;
        }
    }
}

} // verus!

verus! {

impl LogicalTimeProvider for LamportClock {
    type Unit = LamportClockUnit;

    fn new_with_id(id: u32) -> (c: Self)
        ensures
            c@ == (ClockState { id, counter: 0 }),
    {
        LamportClock::new(id)
    }

    fn tick(&mut self) -> (unit: LamportClockUnit)
        ensures
            unit == old(self)@.next_unit(),
            final(self)@ == old(self)@.ticked(),
    {
        self.next_timestamp()
    }

    fn adjust_from_message(&mut self, message: &NodeMessage)
        ensures
            final(self)@ == match message.lt {
                Some(Lt::LamportClock(u)) => old(self)@.adjusted(u.lt),
                None => old(self)@,
            },
    {
        if let Some(Lt::LamportClock(u)) = message.lt {
            self.adjust_timestamp(LamportClockUnit((u.lt, u.proc_id)));
        }
    }
}

} // verus!

verus! {

/// One thing that happens to a clock: it issues a timestamp, or it sees the
/// logical time of a message from elsewhere.
pub enum ClockEvent {
    Tick,
    Observe(u64),
}

/// The state of a clock that started in `s` and went through `events`.
pub open spec fn run(s: ClockState, events: Seq<ClockEvent>) -> ClockState
    decreases events.len(),
{
    if events.len() == 0 {
        s
    } else {
        let before = run(s, events.drop_last());
        match events.last() {
            ClockEvent::Tick => before.ticked(),
            ClockEvent::Observe(lt) => before.adjusted(lt),
        }
    }
}

/// The timestamps, in order, that a clock started in `s` issues while going
/// through `events`.
pub open spec fn issued(s: ClockState, events: Seq<ClockEvent>) -> Seq<LamportClockUnit>
    decreases events.len(),
{
    if events.len() == 0 {
        Seq::empty()
    } else {
        let before = issued(s, events.drop_last());
        match events.last() {
            ClockEvent::Tick => before.push(run(s, events.drop_last()).next_unit()),
            ClockEvent::Observe(_) => before,
        }
    }
}

/// Whether no tick in `events` starts from the top of the counter's range,
/// where the counter would wrap around to 0.
pub open spec fn never_wraps(s: ClockState, events: Seq<ClockEvent>) -> bool {
    forall|i: int|
        0 <= i < events.len() && #[trigger] events[i] is Tick ==> run(s, events.take(i)).counter
            < u64::MAX
}

proof fn lemma_issued_below_counter(s: ClockState, events: Seq<ClockEvent>)
    requires
        never_wraps(s, events),
    ensures
        run(s, events).id == s.id,
        run(s, events).counter >= s.counter,
        forall|k: int|
            0 <= k < issued(s, events).len() ==> {
                &&& (#[trigger] issued(s, events)[k]).lt() < run(s, events).counter
                &&& issued(s, events)[k].proc_id() == s.id
            },
        forall|i: int, j: int|
            0 <= i < j < issued(s, events).len() ==> (#[trigger] issued(s, events)[i]).precedes(
                #[trigger] issued(s, events)[j],
            ),
    decreases events.len(),
{
    if events.len() > 0 {
        let prefix = events.drop_last();
        assert forall|i: int| 0 <= i < prefix.len() && #[trigger] prefix[i] is Tick implies run(
            s,
            prefix.take(i),
        ).counter < u64::MAX by {
            assert(prefix.take(i) =~= events.take(i));
            assert(events[i] is Tick);
        }
        lemma_issued_below_counter(s, prefix);
        let last = events.len() - 1;
        assert(events.take(last) =~= prefix);
        let before = run(s, prefix);
        let prev = issued(s, prefix);
        let all = issued(s, events);
        match events.last() {
            ClockEvent::Tick => {
                assert(events[last] is Tick);
                assert(before.counter < u64::MAX);
                assert(all == prev.push(before.next_unit()));
                assert forall|k: int| 0 <= k < all.len() implies (#[trigger] all[k]).lt()
                    < run(s, events).counter && all[k].proc_id() == s.id by {
                    if k < prev.len() {
                        assert(all[k] == prev[k]);
                    }
                }
                assert forall|i: int, j: int| 0 <= i < j < all.len() implies (
                #[trigger] all[i]).precedes(#[trigger] all[j]) by {
                    assert(all[i] == prev[i]);
                    if j < prev.len() {
                        assert(all[j] == prev[j]);
                    }
                }
            },
            ClockEvent::Observe(lt) => {
                assert(all == prev);
            },
        }
    }
}

/// The timestamps that a clock issues strictly increase, whatever messages it
/// sees in between, as long as its counter never wraps around: logical time
/// never goes backwards. All of them carry the clock's process id.
pub proof fn lemma_issued_timestamps_increase(s: ClockState, events: Seq<ClockEvent>)
    requires
        never_wraps(s, events),
    ensures
        forall|i: int, j: int|
            0 <= i < j < issued(s, events).len() ==> (#[trigger] issued(s, events)[i]).precedes(
                #[trigger] issued(s, events)[j],
            ),
        forall|k: int|
            0 <= k < issued(s, events).len() ==> (#[trigger] issued(s, events)[k]).proc_id()
                == s.id,
{
    lemma_issued_below_counter(s, events);
}

/// After a clock has seen logical time `lt`, the timestamp it issues next is
/// at least `lt`, and it still comes after every timestamp the clock issued
/// before.
pub proof fn lemma_observed_time_is_passed(s: ClockState, lt: u64)
    requires
        s.counter < u64::MAX,
    ensures
        s.adjusted(lt).next_unit().lt() >= lt,
        s.next_unit().precedes(s.ticked().adjusted(lt).next_unit()),
{
}

} // verus!

verus! {

/// Clocks of different processes never issue the same timestamp, so the
/// timestamps of all processes together are totally ordered.
pub proof fn lemma_processes_never_share_timestamps(
    s1: ClockState,
    e1: Seq<ClockEvent>,
    s2: ClockState,
    e2: Seq<ClockEvent>,
    i: int,
    j: int,
)
    requires
        s1.id != s2.id,
        never_wraps(s1, e1),
        never_wraps(s2, e2),
        0 <= i < issued(s1, e1).len(),
        0 <= j < issued(s2, e2).len(),
    ensures
        issued(s1, e1)[i] != issued(s2, e2)[j],
        issued(s1, e1)[i].precedes(issued(s2, e2)[j]) || issued(s2, e2)[j].precedes(
            issued(s1, e1)[i],
        ),
{
    lemma_issued_below_counter(s1, e1);
    lemma_issued_below_counter(s2, e2);
}

} // verus!

verus! {

/// `n` ticks in a row.
pub open spec fn ticks(n: nat) -> Seq<ClockEvent> {
    Seq::new(n, |i: int| ClockEvent::Tick)
}

/// Ticking `n` times in a row issues the logical times `v`, `v + 1`, ...,
/// `v + n - 1` from a clock at `v`, all with the clock's process id, and
/// leaves the clock at `v + n`, as long as that stays within `u64`.
pub proof fn lemma_ticks_are_consecutive(s: ClockState, n: nat)
    requires
        s.counter + n <= u64::MAX,
    ensures
        issued(s, ticks(n)).len() == n,
        forall|k: int|
            0 <= k < n ==> #[trigger] issued(s, ticks(n))[k] == LamportClockUnit(
                ((s.counter + k) as u64, s.id),
            ),
        run(s, ticks(n)) == (ClockState { id: s.id, counter: (s.counter + n) as u64 }),
    decreases n,
{
    if n > 0 {
        lemma_ticks_are_consecutive(s, (n - 1) as nat);
        assert(ticks(n).drop_last() =~= ticks((n - 1) as nat));
        assert(ticks(n).last() is Tick);
    }
}

/// A timestamp issued by a clock comes before every timestamp the clock
/// issues later, whatever it sees in between, as long as the counter does
/// not wrap; all of them carry the clock's process id.
pub proof fn lemma_later_stamps_follow(s: ClockState, between: Seq<ClockEvent>)
    requires
        s.counter < u64::MAX,
        never_wraps(s.ticked(), between),
    ensures
        s.next_unit().precedes(run(s.ticked(), between).next_unit()),
        run(s.ticked(), between).next_unit().proc_id() == s.id,
{
    lemma_issued_below_counter(s.ticked(), between);
}

} // verus!
