//! Time-bounded retrieval over a feed that can only be asked "is there a
//! message right now?".
//!
//! Each primitive is a small machine. Its driver owns the clock, the feed and
//! the pause between two looks at the feed, and does what the machine says:
//!
//! * on [`Step::Poll`] it asks the feed once and hands the answer to `offer`;
//! * on [`Step::Rest`] it pauses for one polling grain, reads the clock and
//!   hands the reading to `tick`;
//! * on [`Step::Finish`] it stops and calls `finish`.
//!
//! Time is a count of ticks of a monotonic clock since an origin the driver
//! picks; a driver that rests for [`POLL_GRAIN_NANOS`] counts nanoseconds.
//! The machines never read a clock themselves, so what they decide is a
//! function of the readings and of the feed's answers alone; the `run`
//! functions of the models below say what a whole sequence of turns leads to.
use vstd::prelude::*;

verus! {

/// How long a driver rests between two looks at the feed, in nanoseconds: a
/// millisecond. A wait overshoots its deadline by less than one rest and the
/// time that the rest itself overshoots.
pub const POLL_GRAIN_NANOS: u64 = 1_000_000;

/// What the driver of a timed primitive does next.
#[derive(Clone, Copy, Debug, PartialEq, Eq)]
pub enum Step {
    /// Ask the feed for one message, without blocking.
    Poll,
    /// Pause for one polling grain, then read the clock.
    Rest,
    /// Stop: the result is ready.
    Finish,
}

/// One turn of a polling loop: the clock reading at the top of the turn and
/// what the feed yields if it is asked during that turn.
pub struct Turn {
    pub at: u64,
    pub taken: Option<Seq<char>>,
}

/// Clock readings never go backwards.
pub open spec fn steady(turns: Seq<Turn>) -> bool {
    forall|i: int, j: int| 0 <= i <= j < turns.len() ==> turns[i].at <= turns[j].at
}

/// The payloads that the feed yields in turns strictly before `deadline`, in
/// the order of the turns.
pub open spec fn delivered_before(turns: Seq<Turn>, deadline: int) -> Seq<Seq<char>>
    decreases turns.len(),
{
    if turns.len() == 0 {
        Seq::empty()
    } else {
        let rest = delivered_before(turns.drop_first(), deadline);
        match turns[0].taken {
            Some(payload) if turns[0].at < deadline => seq![payload] + rest,
            _ => rest,
        }
    }
}

/// A point in time that bounds a polling loop.
#[derive(Clone, Copy, Debug, PartialEq, Eq)]
pub struct Deadline {
    at: u64,
}

impl Deadline {
    /// The clock reading at which the deadline falls.
    pub closed spec fn at(self) -> int {
        self.at as int
    }

    /// The deadline `duration` ticks after `now`.
    pub fn after(now: u64, duration: u64) -> (deadline: Deadline)
        requires
            now + duration <= u64::MAX,
        ensures
            deadline.at() == now + duration,
    {
        Deadline { at: now + duration }
    }

    /// Whether the clock reading `now` is at or past the deadline.
    pub fn reached(&self, now: u64) -> (reached: bool)
        ensures
            reached <==> now >= self.at(),
    {
        now >= self.at
    }
}

/// The state of a collection in progress, as contracts see it.
pub struct Collecting {
    /// The clock reading at which the collection ends.
    pub deadline: int,
    /// The payloads gathered so far, oldest first.
    pub gathered: Seq<Seq<char>>,
}

impl Collecting {
    /// A collection that starts at `now` and lasts `duration` ticks.
    pub open spec fn started(now: u64, duration: u64) -> Collecting {
        Collecting { deadline: now + duration, gathered: Seq::empty() }
    }

    /// What the clock reading `now` leads to.
    pub open spec fn tick(self, now: u64) -> Step {
        if now < self.deadline {
            Step::Poll
        } else {
            Step::Finish
        }
    }

    /// The state after the feed answered `taken`.
    pub open spec fn offer(self, taken: Option<Seq<char>>) -> Collecting {
        match taken {
            Some(payload) => Collecting { gathered: self.gathered.push(payload), ..self },
            None => self,
        }
    }

    /// The state in which a driver that follows the steps leaves the machine
    /// when its turns are `turns`: it stops at the first turn whose clock
    /// reading is at or past the deadline, and does not ask the feed then.
    pub open spec fn run(self, turns: Seq<Turn>) -> Collecting
        decreases turns.len(),
    {
        if turns.len() == 0 {
            self
        } else if self.tick(turns[0].at) is Finish {
            self
        } else {
            self.offer(turns[0].taken).run(turns.drop_first())
        }
    }
}

/// Gathers every message that the feed yields before a deadline.
pub struct Collector {
    deadline: Deadline,
    messages: Vec<String>,
}

impl View for Collector {
    type V = Collecting;

    closed spec fn view(&self) -> Collecting {
        Collecting { deadline: self.deadline.at(), gathered: self.messages.deep_view() }
    }
}

impl Collector {
    /// Starts a fresh collection at clock reading `now`. Nothing of an
    /// earlier collection is carried over.
    pub fn start(now: u64, duration: u64) -> (collector: Collector)
        requires
            now + duration <= u64::MAX,
        ensures
            collector@ == Collecting::started(now, duration),
    {
        let collector = Collector { deadline: Deadline::after(now, duration), messages: Vec::new() };
        assert(collector.messages.deep_view() =~= Seq::<Seq<char>>::empty());
        collector
    }

    /// Decides on the clock reading `now`: ask the feed while the deadline
    /// lies ahead, stop once it is reached.
    pub fn tick(&self, now: u64) -> (step: Step)
        ensures
            step == self@.tick(now),
    {
        if self.deadline.reached(now) {
            Step::Finish
        } else {
            Step::Poll
        }
    }

    /// Takes the feed's answer: a message is appended, an empty answer
    /// changes nothing. The driver rests afterwards.
    pub fn offer(&mut self, taken: Option<String>) -> (step: Step)
        ensures
            final(self)@ == old(self)@.offer(taken.deep_view()),
            step is Rest,
    {
        match taken {
            Some(payload) => {
                let ghost before = self.messages.deep_view();
                self.messages.push(payload);
                assert(self.messages.deep_view() =~= before.push(payload.deep_view()));
            },
            None => {},
        }
        Step::Rest
    }

    /// The messages gathered, in arrival order.
    pub fn finish(self) -> (messages: Vec<String>)
        ensures
            messages.deep_view() == self@.gathered,
    {
        self.messages
    }
}

/// A collection that starts at `now` and runs for `duration` ticks on a
/// steady clock ends with exactly the payloads that the feed yielded before
/// the deadline, in arrival order. So each entry of the result is a payload
/// that the feed yielded within the window, and each payload that the feed
/// yielded within the window is an entry: with `n` deliveries in the window
/// the result has `n` entries.
pub proof fn lemma_collect_gathers_the_window(now: u64, duration: u64, turns: Seq<Turn>)
    requires
        steady(turns),
        forall|i: int| 0 <= i < turns.len() ==> now <= turns[i].at,
    ensures
        ({
            let gathered = Collecting::started(now, duration).run(turns).gathered;
            &&& gathered == delivered_before(turns, now + duration)
            &&& forall|k: int|
                0 <= k < gathered.len() ==> exists|i: int|
                    0 <= i < turns.len() && now <= turns[i].at < now + duration
                        && turns[i].taken == Some(#[trigger] gathered[k])
            &&& forall|i: int|
                0 <= i < turns.len() && turns[i].at < now + duration && turns[i].taken is Some
                    ==> gathered.contains(#[trigger] turns[i].taken->0)
        }),
{
    let state = Collecting::started(now, duration);
    lemma_collect_exact(state, turns);
    assert(state.gathered + delivered_before(turns, now + duration) =~= delivered_before(
        turns,
        now + duration,
    ));
    lemma_delivered_before_members(turns, now + duration);
}

/// What `delivered_before` holds, entry by entry.
proof fn lemma_delivered_before_members(turns: Seq<Turn>, deadline: int)
    ensures
        forall|k: int|
            0 <= k < delivered_before(turns, deadline).len() ==> exists|i: int|
                0 <= i < turns.len() && turns[i].at < deadline && turns[i].taken == Some(
                    #[trigger] delivered_before(turns, deadline)[k],
                ),
        forall|i: int|
            0 <= i < turns.len() && turns[i].at < deadline && turns[i].taken is Some
                ==> delivered_before(turns, deadline).contains(#[trigger] turns[i].taken->0),
    decreases turns.len(),
{
    let all = delivered_before(turns, deadline);
    if turns.len() > 0 {
        let rest = turns.drop_first();
        let tail = delivered_before(rest, deadline);
        lemma_delivered_before_members(rest, deadline);
        let counted = turns[0].taken is Some && turns[0].at < deadline;
        let shift: int = if counted { 1 } else { 0 };
        assert(all.len() == tail.len() + shift);
        assert forall|k: int| 0 <= k < all.len() implies exists|i: int|
            0 <= i < turns.len() && turns[i].at < deadline && turns[i].taken == Some(
                #[trigger] all[k],
            ) by {
            if counted && k == 0 {
                assert(turns[0].taken == Some(all[0]));
            } else {
                assert(all[k] == tail[k - shift]);
                let i = choose|i: int|
                    0 <= i < rest.len() && rest[i].at < deadline && rest[i].taken == Some(
                        tail[k - shift],
                    );
                assert(rest[i] == turns[i + 1]);
            }
        }
        assert forall|i: int|
            0 <= i < turns.len() && turns[i].at < deadline
                && turns[i].taken is Some implies all.contains(#[trigger] turns[i].taken->0) by {
            if i == 0 {
                assert(all[0] == turns[0].taken->0);
            } else {
                assert(rest[i - 1] == turns[i]);
                assert(tail.contains(rest[i - 1].taken->0));
                let k = choose|k: int| 0 <= k < tail.len() && tail[k] == rest[i - 1].taken->0;
                assert(all[k + shift] == tail[k]);
            }
        }
    }
}

/// From any state and on a steady clock, a run adds to what was gathered
/// exactly what the feed yields before the deadline.
proof fn lemma_collect_exact(state: Collecting, turns: Seq<Turn>)
    requires
        steady(turns),
    ensures
        state.run(turns).deadline == state.deadline,
        state.run(turns).gathered == state.gathered + delivered_before(turns, state.deadline),
    decreases turns.len(),
{
    if turns.len() == 0 {
        assert(state.gathered + Seq::<Seq<char>>::empty() =~= state.gathered);
    } else if state.tick(turns[0].at) is Finish {
        lemma_none_delivered_late(turns, state.deadline);
        assert(state.gathered + Seq::<Seq<char>>::empty() =~= state.gathered);
    } else {
        let rest = turns.drop_first();
        lemma_rest_is_steady(turns);
        let next = state.offer(turns[0].taken);
        lemma_collect_exact(next, rest);
        match turns[0].taken {
            Some(payload) => {
                assert(state.gathered.push(payload) + delivered_before(rest, state.deadline)
                    =~= state.gathered + (seq![payload] + delivered_before(
                    rest,
                    state.deadline,
                )));
            },
            None => {},
        }
    }
}

/// What follows the first turn of a steady clock has a steady clock.
proof fn lemma_rest_is_steady(turns: Seq<Turn>)
    requires
        steady(turns),
        turns.len() > 0,
    ensures
        steady(turns.drop_first()),
{
    let rest = turns.drop_first();
    assert forall|i: int, j: int| 0 <= i <= j < rest.len() implies rest[i].at <= rest[j].at by {
        assert(rest[i] == turns[i + 1]);
        assert(rest[j] == turns[j + 1]);
    }
}

/// With a steady clock, once a turn is at or past the deadline nothing that
/// follows counts as delivered in time.
proof fn lemma_none_delivered_late(turns: Seq<Turn>, deadline: int)
    requires
        steady(turns),
        turns.len() > 0 ==> turns[0].at >= deadline,
    ensures
        delivered_before(turns, deadline) == Seq::<Seq<char>>::empty(),
    decreases turns.len(),
{
    if turns.len() > 0 {
        let rest = turns.drop_first();
        lemma_rest_is_steady(turns);
        if rest.len() > 0 {
            assert(rest[0] == turns[1]);
            assert(turns[0].at <= turns[1].at);
        }
        lemma_none_delivered_late(rest, deadline);
    }
}

/// The state of a wait for the first message, as contracts see it.
pub struct Waiting {
    /// The clock reading at which the wait gives up.
    pub deadline: int,
    /// The first payload that the feed yielded, once there is one.
    pub found: Option<Seq<char>>,
}

impl Waiting {
    /// A wait that starts at `now` and lasts `duration` ticks.
    pub open spec fn started(now: u64, duration: u64) -> Waiting {
        Waiting { deadline: now + duration, found: None }
    }

    /// What the clock reading `now` leads to.
    pub open spec fn tick(self, now: u64) -> Step {
        if self.found is None && now < self.deadline {
            Step::Poll
        } else {
            Step::Finish
        }
    }

    /// The state after the feed answered `taken`: the first payload stays.
    pub open spec fn offer(self, taken: Option<Seq<char>>) -> Waiting {
        if self.found is None {
            Waiting { found: taken, ..self }
        } else {
            self
        }
    }

    /// What the driver does after an answer of the feed.
    pub open spec fn after_offer(self) -> Step {
        if self.found is Some {
            Step::Finish
        } else {
            Step::Rest
        }
    }

    /// The state in which a driver that follows the steps leaves the machine
    /// when its turns are `turns`.
    pub open spec fn run(self, turns: Seq<Turn>) -> Waiting
        decreases turns.len(),
    {
        if turns.len() == 0 {
            self
        } else if self.tick(turns[0].at) is Finish {
            self
        } else if self.offer(turns[0].taken).after_offer() is Finish {
            self.offer(turns[0].taken)
        } else {
            self.offer(turns[0].taken).run(turns.drop_first())
        }
    }
}

/// Waits for the first message that the feed yields before a deadline.
pub struct FirstWaiter {
    deadline: Deadline,
    found: Option<String>,
}

impl View for FirstWaiter {
    type V = Waiting;

    closed spec fn view(&self) -> Waiting {
        Waiting { deadline: self.deadline.at(), found: self.found.deep_view() }
    }
}

impl FirstWaiter {
    /// Starts a wait at clock reading `now`.
    pub fn start(now: u64, duration: u64) -> (waiter: FirstWaiter)
        requires
            now + duration <= u64::MAX,
        ensures
            waiter@ == Waiting::started(now, duration),
    {
        FirstWaiter { deadline: Deadline::after(now, duration), found: None }
    }

    /// Decides on the clock reading `now`: ask the feed while nothing was
    /// found and the deadline lies ahead.
    pub fn tick(&self, now: u64) -> (step: Step)
        ensures
            step == self@.tick(now),
    {
        if self.found.is_none() && !self.deadline.reached(now) {
            Step::Poll
        } else {
            Step::Finish
        }
    }

    /// Takes the feed's answer: the first message ends the wait, an empty
    /// answer lets the driver rest.
    pub fn offer(&mut self, taken: Option<String>) -> (step: Step)
        ensures
            final(self)@ == old(self)@.offer(taken.deep_view()),
            step == final(self)@.after_offer(),
    {
        if self.found.is_none() {
            self.found = taken;
        }
        if self.found.is_some() {
            Step::Finish
        } else {
            Step::Rest
        }
    }

    /// The first message, or `None` when the deadline came first.
    pub fn finish(self) -> (found: Option<String>)
        ensures
            found.deep_view() == self@.found,
    {
        self.found
    }
}

/// If the feed yields nothing in any turn before the deadline, the wait ends
/// with nothing.
pub proof fn lemma_wait_without_message(now: u64, duration: u64, turns: Seq<Turn>)
    requires
        forall|i: int|
            0 <= i < turns.len() && turns[i].at < now + duration ==> turns[i].taken is None,
    ensures
        Waiting::started(now, duration).run(turns).found is None,
    decreases turns.len(),
{
    let state = Waiting::started(now, duration);
    if turns.len() > 0 && state.tick(turns[0].at) is Poll {
        let rest = turns.drop_first();
        assert forall|i: int| 0 <= i < rest.len() && rest[i].at < now + duration implies rest[i].taken
            is None by {
            assert(rest[i] == turns[i + 1]);
        }
        assert(state.offer(turns[0].taken) == state);
        lemma_wait_without_message(now, duration, rest);
    }
}

/// If turn `first` lies before the deadline and is the first in which the
/// feed yields a message, the wait ends with the payload of that message. In
/// particular a single message that arrives in time is the result.
pub proof fn lemma_wait_returns_first_message(
    now: u64,
    duration: u64,
    turns: Seq<Turn>,
    first: int,
)
    requires
        steady(turns),
        0 <= first < turns.len(),
        turns[first].at < now + duration,
        turns[first].taken is Some,
        forall|j: int| 0 <= j < first ==> turns[j].taken is None,
    ensures
        Waiting::started(now, duration).run(turns).found == turns[first].taken,
    decreases first,
{
    let state = Waiting::started(now, duration);
    assert(turns[0].at <= turns[first].at);
    if first > 0 {
        let rest = turns.drop_first();
        lemma_rest_is_steady(turns);
        assert(rest[first - 1] == turns[first]);
        assert forall|j: int| 0 <= j < first - 1 implies rest[j].taken is None by {
            assert(rest[j] == turns[j + 1]);
        }
        assert(state.offer(turns[0].taken) == state);
        lemma_wait_returns_first_message(now, duration, rest, first - 1);
    }
}

/// The state of a rate measurement, as contracts see it.
pub struct Measuring {
    /// The clock reading at which the measurement began.
    pub start: int,
    /// How long the measurement is asked to last, in ticks.
    pub duration: int,
    /// The messages counted so far.
    pub count: int,
}

impl Measuring {
    /// A measurement that starts at `now` and is asked to last `duration`
    /// ticks.
    pub open spec fn started(now: u64, duration: u64) -> Measuring {
        Measuring { start: now as int, duration: duration as int, count: 0 }
    }

    /// The ticks between the start and the clock reading `now`; zero for a
    /// reading before the start.
    pub open spec fn elapsed(self, now: u64) -> int {
        if now >= self.start {
            now - self.start
        } else {
            0
        }
    }

    /// What the clock reading `now` leads to.
    pub open spec fn tick(self, now: u64) -> Step {
        if self.elapsed(now) < self.duration {
            Step::Poll
        } else {
            Step::Finish
        }
    }

    /// The state after the feed answered `taken`. The count stops at the
    /// largest `usize`.
    pub open spec fn offer(self, taken: Option<Seq<char>>) -> Measuring {
        if taken is Some && self.count < usize::MAX {
            Measuring { count: self.count + 1, ..self }
        } else {
            self
        }
    }

    /// The state in which a driver that follows the steps leaves the machine
    /// when its turns are `turns`.
    pub open spec fn run(self, turns: Seq<Turn>) -> Measuring
        decreases turns.len(),
    {
        if turns.len() == 0 {
            self
        } else if self.tick(turns[0].at) is Finish {
            self
        } else {
            self.offer(turns[0].taken).run(turns.drop_first())
        }
    }
}

/// Counts the messages that the feed yields during a span of time.
pub struct RateMeter {
    start: u64,
    duration: u64,
    count: usize,
}

impl View for RateMeter {
    type V = Measuring;

    closed spec fn view(&self) -> Measuring {
        Measuring {
            start: self.start as int,
            duration: self.duration as int,
            count: self.count as int,
        }
    }
}

impl RateMeter {
    /// Starts a measurement at clock reading `now`.
    pub fn start(now: u64, duration: u64) -> (meter: RateMeter)
        ensures
            meter@ == Measuring::started(now, duration),
    {
        RateMeter { start: now, duration, count: 0 }
    }

    /// Decides on the clock reading `now`: ask the feed while less than the
    /// asked duration has elapsed.
    pub fn tick(&self, now: u64) -> (step: Step)
        ensures
            step == self@.tick(now),
    {
        if now.saturating_sub(self.start) < self.duration {
            Step::Poll
        } else {
            Step::Finish
        }
    }

    /// Takes the feed's answer: a message is counted, an empty answer is
    /// not. The driver rests afterwards.
    pub fn offer(&mut self, taken: Option<String>) -> (step: Step)
        ensures
            final(self)@ == old(self)@.offer(taken.deep_view()),
            step is Rest,
    {
        if taken.is_some() {
            self.count = self.count.saturating_add(1);
        }
        Step::Rest
    }

    /// The count, and the time that has really elapsed at the clock reading
    /// `now`, which the driver takes after the last step. A rate is the
    /// count over this time, not over the duration asked for.
    pub fn finish(self, now: u64) -> (measured: (usize, u64))
        ensures
            measured.0 == self@.count,
            measured.1 == self@.elapsed(now),
    {
        (self.count, now.saturating_sub(self.start))
    }
}

/// A measurement stops only when the asked duration has elapsed, so the time
/// that it reports on a steady clock is at least the duration asked for.
pub proof fn lemma_measure_spans_the_duration(state: Measuring, stop: u64, end: u64)
    requires
        state.tick(stop) is Finish,
        stop <= end,
    ensures
        state.elapsed(end) >= state.duration,
{
}

/// A measurement on a steady clock counts exactly the messages that the feed
/// yields before the asked duration has elapsed, as far as a `usize` counts.
pub proof fn lemma_measure_counts_the_window(now: u64, duration: u64, turns: Seq<Turn>)
    requires
        steady(turns),
        forall|i: int| 0 <= i < turns.len() ==> now <= turns[i].at,
    ensures
        ({
            let delivered = delivered_before(turns, now + duration).len();
            let measured = Measuring::started(now, duration).run(turns);
            &&& measured.start == now
            &&& measured.duration == duration
            &&& measured.count == if delivered <= usize::MAX {
                delivered as int
            } else {
                usize::MAX as int
            }
        }),
{
    lemma_measure_exact(Measuring::started(now, duration), turns);
}

/// From any state and on a steady clock that has passed the start, a run
/// adds to the count the deliveries before the end of the span.
proof fn lemma_measure_exact(state: Measuring, turns: Seq<Turn>)
    requires
        steady(turns),
        forall|i: int| 0 <= i < turns.len() ==> state.start <= turns[i].at,
        0 <= state.count <= usize::MAX,
    ensures
        ({
            let delivered = delivered_before(turns, state.start + state.duration).len();
            let measured = state.run(turns);
            &&& measured.start == state.start
            &&& measured.duration == state.duration
            &&& measured.count == if state.count + delivered <= usize::MAX {
                state.count + delivered
            } else {
                usize::MAX as int
            }
        }),
    decreases turns.len(),
{
    let deadline = state.start + state.duration;
    if turns.len() == 0 {
    } else if state.tick(turns[0].at) is Finish {
        lemma_none_delivered_late(turns, deadline);
    } else {
        let rest = turns.drop_first();
        lemma_rest_is_steady(turns);
        assert forall|i: int| 0 <= i < rest.len() implies state.start <= rest[i].at by {
            assert(rest[i] == turns[i + 1]);
        }
        lemma_measure_exact(state.offer(turns[0].taken), rest);
    }
}

} // verus!
