use vstd::prelude::*;

verus! {

// The bounded concurrent fetcher's admission control, as a state machine.
// The driver asks `step` what to do next: launch the next item's fetch task,
// wait for some in-flight task to complete, or declare the run done. It
// reports completions with `task_completed`. The machine launches the items
// 1..=latest each exactly once, in ascending order, and never admits more
// than `cap` tasks at a time; it is done only once every launched task has
// completed.

/// What the driver must do next.
#[derive(Clone, Copy, Debug, PartialEq, Eq, Structural)]
pub enum Action {
    /// Launch the fetch task for this item index.
    Launch(u32),
    /// The cap is reached, or every item is submitted and some are still
    /// running: wait (without busy-spinning) for a completion.
    Wait,
    /// Every item has been submitted and every task has completed.
    Done,
}

/// The scheduler of the bounded concurrent fetcher. It tracks only counts:
/// tasks share no state, so their identities do not matter to admission.
pub struct Scheduler {
    /// The upper bound of the work range [1, latest].
    pub latest: u32,
    /// The concurrency cap: at most this many tasks in flight.
    pub cap: usize,
    /// The next index to submit; all of [1, next) have been submitted.
    pub next: u64,
    /// How many launched tasks have not yet completed.
    pub in_flight: usize,
}

impl Scheduler {
    /// How many items have been submitted so far.
    pub open spec fn submitted(&self) -> int {
        self.next - 1
    }

    /// The size of the in-flight set.
    pub open spec fn in_flight_count(&self) -> int {
        self.in_flight as int
    }

    /// The concurrency cap.
    pub open spec fn capacity(&self) -> int {
        self.cap as int
    }

    /// The upper bound of the work range.
    pub open spec fn latest_index(&self) -> int {
        self.latest as int
    }

    /// Every reachable state keeps the in-flight set within the cap, and
    /// never holds more in-flight tasks than items submitted.
    pub open spec fn wf(&self) -> bool {
        &&& self.cap >= 1
        &&& self.latest >= 1
        &&& 1 <= self.next <= self.latest as int + 1
        &&& self.in_flight as int <= self.submitted()
        &&& self.in_flight <= self.cap
    }

    /// A fresh run over [1, latest] with concurrency cap `cap`: nothing
    /// submitted, nothing in flight.
    pub fn new(latest: u32, cap: usize) -> (s: Self)
        requires
            latest >= 1,
            cap >= 1,
        ensures
            s.wf(),
            s.latest_index() == latest,
            s.capacity() == cap,
            s.submitted() == 0,
            s.in_flight_count() == 0,
    {
        Scheduler { latest, cap, next: 1u64, in_flight: 0 }
    }

    /// Decides the next action. Submission is admitted exactly while the cap
    /// has room and items remain, each launch carries the next index in
    /// ascending order, and `Done` comes exactly when all work is finished.
    pub fn step(&mut self) -> (a: Action)
        requires
            old(self).wf(),
        ensures
            final(self).wf(),
            final(self).capacity() == old(self).capacity(),
            final(self).latest_index() == old(self).latest_index(),
            final(self).in_flight_count() <= final(self).capacity(),
            match a {
                Action::Launch(i) => old(self).in_flight_count() < old(self).capacity()
                    && old(self).submitted() < old(self).latest_index()
                    && i as int == old(self).submitted() + 1
                    && final(self).submitted() == old(self).submitted() + 1
                    && final(self).in_flight_count() == old(self).in_flight_count() + 1,
                Action::Wait => (old(self).in_flight_count() == old(self).capacity()
                    || old(self).submitted() == old(self).latest_index())
                    && old(self).in_flight_count() > 0
                    && *final(self) == *old(self),
                Action::Done => old(self).submitted() == old(self).latest_index()
                    && old(self).in_flight_count() == 0
                    && *final(self) == *old(self),
            },
    {
        if self.in_flight < self.cap && self.next <= self.latest as u64 {
            let i: u32 = self.next as u32;
            self.next = self.next + 1;
            self.in_flight = self.in_flight + 1;
            Action::Launch(i)
        } else if self.in_flight > 0 {
            Action::Wait
        } else {
            Action::Done
        }
    }

    /// Records that one in-flight task reached its terminal outcome, freeing
    /// one admission slot. Which task finished does not matter: completion
    /// order is unordered.
    pub fn task_completed(&mut self)
        requires
            old(self).wf(),
            old(self).in_flight_count() > 0,
        ensures
            final(self).wf(),
            final(self).capacity() == old(self).capacity(),
            final(self).latest_index() == old(self).latest_index(),
            final(self).submitted() == old(self).submitted(),
            final(self).in_flight_count() == old(self).in_flight_count() - 1,
    {
        self.in_flight = self.in_flight - 1;
    }

    /// How many tasks are in flight, for the driver's throttling check.
    pub fn in_flight_now(&self) -> (c: usize)
        ensures
            c as int == self.in_flight_count(),
    {
        self.in_flight
    }

    /// At no point during a run does the in-flight set exceed the cap: every
    /// operation preserves `wf`, and `wf` bounds the in-flight count.
    pub proof fn lemma_in_flight_bounded(self)
        requires
            self.wf(),
        ensures
            self.in_flight_count() <= self.capacity(),
    {
    }
}

} // verus!
