//! Wall-clock time as seen by a node.
use crate::proto::{Lt, NodeMessage};
use vstd::prelude::*;

verus! {

/// Milliseconds since the Unix epoch.
#[derive(Clone, Copy, Debug, PartialEq, Eq, Structural, PartialOrd, Ord)]
pub struct Millis(pub u128);

impl From<u128> for Millis {
    fn from(val: u128) -> (r: Self) {
        Millis(val)
    }
}

impl vstd::std_specs::convert::FromSpecImpl<u128> for Millis {
    open spec fn obeys_from_spec() -> bool {
        true
    }

    open spec fn from_spec(v: u128) -> Self {
        Millis(v)
    }
}
} // verus!

verus! {

/// A source of wall-clock time for a node.
pub trait SystemTimeProvider {
    /// The current time in milliseconds since the Unix epoch.
    fn now_millis(&self) -> Millis;
}

/// A logical clock that stamps the messages of a node.
pub trait LogicalTimeProvider: Sized {
    /// The timestamps that the clock issues.
    type Unit: Ord + Into<Lt>;

    /// A clock for the process with id `id`.
    fn new_with_id(id: u32) -> Self;

    /// Issues the next timestamp.
    fn tick(&mut self) -> Self::Unit;

    /// Takes into account the logical time that `message` carries.
    fn adjust_from_message(&mut self, message: &NodeMessage);
}
} // verus!

verus! {

/// The reading of a deliberately unreliable wall clock. `elapsed` is the
/// real time since the clock started and `last` the reading it last gave.
/// A clock that has fallen behind its last reading repeats it. Otherwise it
/// either runs ahead by 0.1 to 1 s (`jump` picks how far), or falls back to
/// a point between its last reading and the real time (`draw` picks where),
/// or reads the real time.
pub open spec fn broken_reading(
    elapsed: u64,
    last: u64,
    run_faster: bool,
    run_slower: bool,
    jump: u64,
    draw: u64,
) -> int {
    if elapsed < last {
        last as int
    } else if run_faster {
        elapsed + 100 + jump % 901
    } else if run_slower && elapsed - last > 0 {
        last + draw % ((elapsed - last) as u64)
    } else {
        elapsed as int
    }
}

/// Whether a clock whose last reading is `last` can run ahead as `jump`
/// asks without its reading leaving `u64`.
pub open spec fn reading_fits(elapsed: u64, last: u64, run_faster: bool, jump: u64) -> bool {
    elapsed < last || !run_faster || elapsed + 100 + jump % 901 <= u64::MAX
}

/// One reading of a deliberately unreliable wall clock; see
/// `broken_reading`. The reading never goes back behind `last`.
pub fn broken_clock_reading(
    elapsed: u64,
    last: u64,
    run_faster: bool,
    run_slower: bool,
    jump: u64,
    draw: u64,
) -> (r: u64)
    requires
        reading_fits(elapsed, last, run_faster, jump),
    ensures
        r == broken_reading(elapsed, last, run_faster, run_slower, jump, draw),
        r >= last,
{
    let mut now = elapsed;
    if now < last {
        return last;
    }
    if run_faster {
        now = now + 100 + (jump % 901);
    } else if run_slower {
        let diff = now - last;
        if diff > 0 {
            now = last + (draw % diff);
        }
    }
    now
}

/// What one reading of the unreliable clock is made of: the real time
/// elapsed and the random draws.
pub struct ClockDraw {
    pub elapsed: u64,
    pub run_faster: bool,
    pub run_slower: bool,
    pub jump: u64,
    pub draw: u64,
}

/// The reading that the unreliable clock gives for `d` after last reading
/// `last`.
pub open spec fn reading_for(last: u64, d: ClockDraw) -> int {
    broken_reading(d.elapsed, last, d.run_faster, d.run_slower, d.jump, d.draw)
}

/// The last reading of an unreliable clock that started at `start` and was
/// read once for each of `draws`, in order.
pub open spec fn last_after(start: u64, draws: Seq<ClockDraw>) -> u64
    decreases draws.len(),
{
    if draws.len() == 0 {
        start
    } else {
        reading_for(last_after(start, draws.drop_last()), draws.last()) as u64
    }
}

/// Whether no reading along `draws` leaves `u64`.
pub open spec fn all_readings_fit(start: u64, draws: Seq<ClockDraw>) -> bool {
    forall|i: int|
        0 <= i < draws.len() ==> reading_fits(
            (#[trigger] draws[i]).elapsed,
            last_after(start, draws.take(i)),
            draws[i].run_faster,
            draws[i].jump,
        )
}

proof fn lemma_reading_step(start: u64, draws: Seq<ClockDraw>, k: int)
    requires
        all_readings_fit(start, draws),
        0 <= k < draws.len(),
    ensures
        last_after(start, draws.take(k + 1)) as int == reading_for(
            last_after(start, draws.take(k)),
            draws[k],
        ),
        last_after(start, draws.take(k)) <= last_after(start, draws.take(k + 1)),
{
    assert(draws.take(k + 1).drop_last() =~= draws.take(k));
    assert(draws.take(k + 1).last() == draws[k]);
    assert(reading_fits(
        draws[k].elapsed,
        last_after(start, draws.take(k)),
        draws[k].run_faster,
        draws[k].jump,
    ));
}

/// The unreliable clock never goes backwards: read again and again, with any
/// draws that keep its readings within `u64`, each reading is at least the
/// one before, and none is below where it started.
pub proof fn lemma_readings_never_go_back(start: u64, draws: Seq<ClockDraw>, i: int, j: int)
    requires
        all_readings_fit(start, draws),
        0 <= i <= j <= draws.len(),
    ensures
        start <= last_after(start, draws.take(i)) <= last_after(start, draws.take(j)),
    decreases j,
{
    if j == 0 {
        assert(draws.take(0) =~= Seq::<ClockDraw>::empty());
    } else {
        let i0 = if i < j { i } else { j - 1 };
        lemma_readings_never_go_back(start, draws, i0, j - 1);
        lemma_reading_step(start, draws, j - 1);
    }
}

/// The state of an unreliable clock: its last reading.
pub struct BrokenClock {
    last: u64,
}

impl BrokenClock {
    /// The last reading the clock gave.
    pub closed spec fn last_reading(&self) -> u64 {
        self.last
    }

    /// A clock that has given no reading yet; it counts as having read 0.
    pub fn new() -> (c: Self)
        ensures
            c.last_reading() == 0,
    {
        BrokenClock { last: 0 }
    }

    /// The last reading the clock gave.
    pub fn last(&self) -> (r: u64)
        ensures
            r == self.last_reading(),
    {
        self.last
    }

    /// Reads the clock with the real time `elapsed` and the draws given, and
    /// remembers the reading.
    pub fn read(&mut self, elapsed: u64, run_faster: bool, run_slower: bool, jump: u64, draw: u64) -> (r:
        u64)
        requires
            reading_fits(elapsed, old(self).last_reading(), run_faster, jump),
        ensures
            r == broken_reading(elapsed, old(self).last_reading(), run_faster, run_slower, jump, draw),
            r >= old(self).last_reading(),
            final(self).last_reading() == r,
    {
        let r = broken_clock_reading(elapsed, self.last, run_faster, run_slower, jump, draw);
        self.last = r;
        r
    }
}

} // verus!
