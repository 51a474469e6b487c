//! Monotonic logical time over a bounded, strictly increasing schedule.

use vstd::prelude::*;

verus! {

/// The sampling frequency a schedule was built at.
#[derive(Clone, Copy, Debug, PartialEq, Eq, Structural)]
pub enum Frequency {
    Second,
    Daily,
    Fixed,
    Minute,
}

/// Stable wire encoding of a [`Frequency`] tag.
pub open spec fn frequency_code(f: Frequency) -> u8 {
    match f {
        Frequency::Second => 0,
        Frequency::Daily => 1,
        Frequency::Fixed => 2,
        Frequency::Minute => 3,
    }
}

impl Frequency {
    /// The wire encoding of this tag.
    pub fn code(&self) -> (r: u8)
        ensures
            r == frequency_code(*self),
    {
        match self {
            Frequency::Second => 0,
            Frequency::Daily => 1,
            Frequency::Fixed => 2,
            Frequency::Minute => 3,
        }
    }
}

/// Mathematical state of a [`Clock`]: the whole schedule, the current
/// position in it, and the frequency tag.
#[verifier::ext_equal]
pub ghost struct ClockV {
    pub schedule: Seq<i64>,
    pub pos: int,
    pub frequency: Frequency,
}

impl ClockV {
    /// The position addresses a slot of a strictly increasing schedule.
    pub open spec fn wf(self) -> bool {
        &&& 0 <= self.pos < self.schedule.len()
        &&& forall|i: int, j: int|
            0 <= i < j < self.schedule.len() ==> self.schedule[i] < self.schedule[j]
    }

    /// The current timestamp.
    pub open spec fn now(self) -> i64 {
        self.schedule[self.pos]
    }

    /// Whether the schedule holds a timestamp after the current one.
    pub open spec fn has_next(self) -> bool {
        self.pos + 1 < self.schedule.len()
    }

    /// The state after one tick.
    pub open spec fn ticked(self) -> ClockV {
        ClockV { pos: self.pos + 1, ..self }
    }
}

/// A finite, strictly increasing sequence of timestamps at a fixed
/// frequency, together with a cursor that only ever moves forward.
#[derive(Debug)]
pub struct Clock {
    schedule: Vec<i64>,
    pos: usize,
    frequency: Frequency,
}

impl View for Clock {
    type V = ClockV;

    closed spec fn view(&self) -> ClockV {
        ClockV { schedule: self.schedule@, pos: self.pos as int, frequency: self.frequency }
    }
}

impl Clone for Clock {
    fn clone(&self) -> (r: Self)
        ensures
            r@ == self@,
    {
        let schedule = self.schedule.clone();
        proof {
            assert(schedule@ =~= self.schedule@);
            assert(
                (ClockV {
                    schedule: schedule@,
                    pos: self.pos as int,
                    frequency: self.frequency,
                }) =~= self@
            );
        }
        Clock { schedule, pos: self.pos, frequency: self.frequency }
    }
}

impl Clock {
    /// A clock at the start of the given schedule.
    pub fn new(schedule: Vec<i64>, frequency: Frequency) -> (r: Clock)
        requires
            schedule@.len() > 0,
            forall|i: int, j: int|
                0 <= i < j < schedule@.len() ==> schedule@[i] < schedule@[j],
        ensures
            r@.wf(),
            r@.schedule == schedule@,
            r@.pos == 0,
            r@.frequency == frequency,
    {
        Clock { schedule, pos: 0, frequency }
    }

    /// The current timestamp.
    pub fn now(&self) -> (r: i64)
        requires
            self@.wf(),
        ensures
            r == self@.now(),
    {
        self.schedule[self.pos]
    }

    /// Whether another tick is possible.
    pub fn has_next(&self) -> (r: bool)
        requires
            self@.wf(),
        ensures
            r == self@.has_next(),
    {
        let n = self.schedule.len();
        self.pos + 1 < n
    }

    /// Advance to the next timestamp of the schedule. Time only moves
    /// forward: the new `now` is strictly greater than the old one.
    pub fn tick(&mut self)
        requires
            old(self)@.wf(),
            old(self)@.has_next(),
        ensures
            final(self)@ == old(self)@.ticked(),
            final(self)@.wf(),
            final(self)@.now() > old(self)@.now(),
    {
        let n = self.schedule.len();
        proof {
            assert(self.pos + 1 < n);
        }
        self.pos = self.pos + 1;
    }

    /// The frequency tag the schedule was built at.
    pub fn frequency(&self) -> (r: Frequency)
        ensures
            r == self@.frequency,
    {
        self.frequency
    }

    /// The remaining schedule, the current timestamp included.
    pub fn peek(&self) -> (r: Vec<i64>)
        requires
            self@.wf(),
        ensures
            r@ == self@.schedule.skip(self@.pos),
    {
        let mut out: Vec<i64> = Vec::new();
        let mut i: usize = self.pos;
        while i < self.schedule.len()
            invariant
                self@.pos <= i <= self@.schedule.len(),
                out@ == self@.schedule.subrange(self@.pos, i as int),
            decreases self@.schedule.len() - i,
        {
            out.push(self.schedule[i]);
            proof {
                assert(out@ =~= self@.schedule.subrange(self@.pos, i + 1 as int));
            }
            i = i + 1;
        }
        proof {
            assert(out@ =~= self@.schedule.skip(self@.pos));
        }
        out
    }
}

} // verus!
