//! A steady publisher and a driver that keeps pace with it: what the timed
//! primitives bring home when messages arrive at most so often, the feed
//! queues them, and the driver looks at the feed at least as often.
//!
//! The feed hands out each message once, the oldest first. A message that
//! arrives between two looks waits for the next look; one that arrives after
//! the last look before a deadline is not seen by that call. So of the
//! messages of a window a call can miss those of its last `gap` ticks, and
//! no others.
use crate::timed::lemma_collect_gathers_the_window;
use crate::timed::lemma_measure_counts_the_window;
use crate::timed::steady;
use crate::timed::Collecting;
use crate::timed::Measuring;
use crate::timed::Turn;
use crate::timed::Waiting;
use vstd::prelude::*;

verus! {

/// A message on its way into the feed: when it arrives there and what it
/// carries.
pub struct Arrival {
    pub at: u64,
    pub payload: Seq<char>,
}

/// The arrivals come in order of time and at least `gap` ticks apart: the
/// publisher's rate is at most one message per `gap`.
pub open spec fn spaced(arrivals: Seq<Arrival>, gap: int) -> bool {
    forall|j: int, k: int|
        0 <= j < k < arrivals.len() ==> arrivals[j].at + gap <= arrivals[k].at
}

/// The driver looks at the clock in order of time, and never lets more than
/// `gap` ticks pass from one look to the next.
pub open spec fn paced(times: Seq<u64>, gap: int) -> bool {
    forall|i: int, j: int|
        #![trigger times[i], times[j]]
        0 <= i && j == i + 1 && j < times.len() ==> times[i] <= times[j] <= times[i] + gap
}

/// The payloads of the first `count` arrivals.
pub open spec fn first_payloads(arrivals: Seq<Arrival>, count: int) -> Seq<Seq<char>> {
    Seq::new(count as nat, |k: int| arrivals[k].payload)
}

/// The turns that a driver sees who reads the clock at `times`, on a feed
/// that queues `arrivals` and hands out, each time it is asked, the oldest
/// message that has arrived and was not handed out before. `taken` is the
/// number of messages handed out so far.
pub open spec fn feed_turns(arrivals: Seq<Arrival>, taken: int, times: Seq<u64>) -> Seq<Turn>
    decreases times.len(),
{
    if times.len() == 0 {
        Seq::empty()
    } else if 0 <= taken < arrivals.len() && arrivals[taken].at <= times[0] {
        seq![Turn { at: times[0], taken: Some(arrivals[taken].payload) }] + feed_turns(
            arrivals,
            taken + 1,
            times.drop_first(),
        )
    } else {
        seq![Turn { at: times[0], taken: None }] + feed_turns(arrivals, taken, times.drop_first())
    }
}

/// A collection keeps pace with a steady publisher. Let the messages arrive
/// at least `gap` ticks apart, none before the collection starts, and let
/// the driver look at the feed from the start until the deadline, at least
/// once every `gap` ticks. Then the result is the payloads of the first
/// messages in the order of their arrival, each arrived before the deadline,
/// and every message that arrives at least `gap` before the deadline is
/// among them. At one message per `gap` that is every message of the window
/// but, at most, the last.
pub proof fn lemma_collect_keeps_pace(
    now: u64,
    duration: u64,
    gap: int,
    arrivals: Seq<Arrival>,
    times: Seq<u64>,
)
    requires
        gap > 0,
        spaced(arrivals, gap),
        forall|k: int| 0 <= k < arrivals.len() ==> now <= arrivals[k].at,
        paced(times, gap),
        times.len() > 0,
        times[0] == now,
        times.last() >= now + duration,
    ensures
        ({
            let gathered = Collecting::started(now, duration).run(
                feed_turns(arrivals, 0, times),
            ).gathered;
            &&& gathered.len() <= arrivals.len()
            &&& gathered == first_payloads(arrivals, gathered.len() as int)
            &&& forall|k: int|
                0 <= k < gathered.len() ==> now <= (#[trigger] arrivals[k]).at < now + duration
            &&& forall|k: int|
                0 <= k < arrivals.len() && (#[trigger] arrivals[k]).at + gap <= now + duration
                    ==> k < gathered.len()
        }),
{
    let state = Collecting::started(now, duration);
    assert(state.gathered =~= first_payloads(arrivals, 0));
    lemma_collect_paces(state, gap, arrivals, 0, times);
    let gathered = state.run(feed_turns(arrivals, 0, times)).gathered;
    let count = gathered.len() as int;
    assert forall|k: int|
        0 <= k < arrivals.len() && (#[trigger] arrivals[k]).at + gap <= now + duration implies k
        < count by {
        if k > count {
            assert(arrivals[count].at + gap <= arrivals[k].at);
        }
    }
}

/// After a first look before the deadline, a paced driver that reaches the
/// deadline looks again, within `gap` ticks, and is paced from there on.
proof fn lemma_later_looks(times: Seq<u64>, gap: int, deadline: int)
    requires
        paced(times, gap),
        times.len() > 0,
        times[0] < deadline <= times.last(),
    ensures
        times.len() > 1,
        times.drop_first().last() == times.last(),
        times.drop_first()[0] == times[1],
        times[0] <= times[1] <= times[0] + gap,
        paced(times.drop_first(), gap),
{
    let later = times.drop_first();
    if times.len() == 1 {
        assert(times.last() == times[0]);
    }
    assert(later.last() == times.last());
    assert(later[0] == times[1]);
    assert(times[0] <= times[1] <= times[0] + gap);
    assert forall|i: int, j: int|
        #![trigger later[i], later[j]]
        0 <= i && j == i + 1 && j < later.len() implies later[i] <= later[j] <= later[i]
        + gap by {
        assert(later[i] == times[i + 1]);
        assert(later[j] == times[j + 1]);
    }
}

/// The step of `lemma_collect_keeps_pace`: from a state that holds the first
/// `taken` messages, with the next one not yet a whole `gap` in the feed.
proof fn lemma_collect_paces(
    state: Collecting,
    gap: int,
    arrivals: Seq<Arrival>,
    taken: int,
    times: Seq<u64>,
)
    requires
        gap > 0,
        spaced(arrivals, gap),
        paced(times, gap),
        times.len() > 0,
        times.last() >= state.deadline,
        0 <= taken <= arrivals.len(),
        state.gathered == first_payloads(arrivals, taken),
        forall|k: int| 0 <= k < taken ==> (#[trigger] arrivals[k]).at < state.deadline,
        taken < arrivals.len() ==> arrivals[taken].at + gap > times[0],
    ensures
        ({
            let gathered = state.run(feed_turns(arrivals, taken, times)).gathered;
            &&& taken <= gathered.len() <= arrivals.len()
            &&& gathered == first_payloads(arrivals, gathered.len() as int)
            &&& forall|k: int|
                0 <= k < gathered.len() ==> (#[trigger] arrivals[k]).at < state.deadline
            &&& gathered.len() < arrivals.len() ==> arrivals[gathered.len() as int].at + gap
                > state.deadline
        }),
    decreases times.len(),
{
    let turns = feed_turns(arrivals, taken, times);
    if times[0] >= state.deadline {
        assert(turns[0].at == times[0]);
    } else {
        let later = times.drop_first();
        lemma_later_looks(times, gap, state.deadline);
        if taken < arrivals.len() && arrivals[taken].at <= times[0] {
            let next = state.offer(Some(arrivals[taken].payload));
            let rest = feed_turns(arrivals, taken + 1, later);
            assert(turns[0] == Turn { at: times[0], taken: Some(arrivals[taken].payload) });
            assert(turns.drop_first() =~= rest);
            assert(next.gathered =~= first_payloads(arrivals, taken + 1));
            if taken + 1 < arrivals.len() {
                assert(arrivals[taken].at + gap <= arrivals[taken + 1].at);
            }
            lemma_collect_paces(next, gap, arrivals, taken + 1, later);
        } else {
            let rest = feed_turns(arrivals, taken, later);
            assert(turns[0] == Turn { at: times[0], taken: None });
            assert(turns.drop_first() =~= rest);
            lemma_collect_paces(state, gap, arrivals, taken, later);
        }
    }
}

/// The turns of a feed are as many as the looks at the clock, and bear
/// their times.
proof fn lemma_feed_turns_bear_the_times(arrivals: Seq<Arrival>, taken: int, times: Seq<u64>)
    ensures
        feed_turns(arrivals, taken, times).len() == times.len(),
        forall|i: int|
            0 <= i < times.len() ==> (#[trigger] feed_turns(arrivals, taken, times)[i]).at
                == times[i],
    decreases times.len(),
{
    if times.len() > 0 {
        let later = times.drop_first();
        let handed = 0 <= taken < arrivals.len() && arrivals[taken].at <= times[0];
        let next = if handed { taken + 1 } else { taken };
        lemma_feed_turns_bear_the_times(arrivals, next, later);
        let turns = feed_turns(arrivals, taken, times);
        let rest = feed_turns(arrivals, next, later);
        assert forall|i: int| 0 <= i < times.len() implies (#[trigger] turns[i]).at
            == times[i] by {
            if i > 0 {
                assert(turns[i] == rest[i - 1]);
                assert(later[i - 1] == times[i]);
            }
        }
    }
}

/// Looks at the clock that follow each other in order are in order
/// throughout.
proof fn lemma_paced_is_in_order(times: Seq<u64>, gap: int, i: int, j: int)
    requires
        paced(times, gap),
        0 <= i <= j < times.len(),
    ensures
        times[i] <= times[j],
    decreases j - i,
{
    if i < j {
        lemma_paced_is_in_order(times, gap, i, j - 1);
        assert(times[j - 1] <= times[j]);
    }
}

/// The turns of a feed under a paced driver have a steady clock that starts
/// at the first look.
proof fn lemma_feed_turns_are_steady(arrivals: Seq<Arrival>, times: Seq<u64>, gap: int)
    requires
        paced(times, gap),
    ensures
        steady(feed_turns(arrivals, 0, times)),
        forall|i: int|
            0 <= i < feed_turns(arrivals, 0, times).len() ==> times[0] <= (#[trigger] feed_turns(
                arrivals,
                0,
                times,
            )[i]).at,
{
    let turns = feed_turns(arrivals, 0, times);
    lemma_feed_turns_bear_the_times(arrivals, 0, times);
    assert forall|i: int, j: int| 0 <= i <= j < turns.len() implies turns[i].at
        <= turns[j].at by {
        lemma_paced_is_in_order(times, gap, i, j);
    }
    assert forall|i: int| 0 <= i < turns.len() implies times[0] <= (#[trigger] turns[i]).at by {
        lemma_paced_is_in_order(times, gap, 0, i);
    }
}

/// A measurement keeps pace with a steady publisher. Under the conditions of
/// `lemma_collect_keeps_pace` the count is the number of the first messages
/// in the order of their arrival, each arrived before the asked duration had
/// elapsed, and every message that arrives at least `gap` before that is
/// counted, as far as a `usize` counts. So the count differs from the number
/// of messages of the window by those of the last `gap` at most: by one, at
/// one message per `gap`.
pub proof fn lemma_measure_keeps_pace(
    now: u64,
    duration: u64,
    gap: int,
    arrivals: Seq<Arrival>,
    times: Seq<u64>,
)
    requires
        gap > 0,
        spaced(arrivals, gap),
        forall|k: int| 0 <= k < arrivals.len() ==> now <= arrivals[k].at,
        paced(times, gap),
        times.len() > 0,
        times[0] == now,
        times.last() >= now + duration,
    ensures
        ({
            let count = Measuring::started(now, duration).run(
                feed_turns(arrivals, 0, times),
            ).count;
            &&& 0 <= count <= arrivals.len()
            &&& forall|k: int| 0 <= k < count ==> now <= (#[trigger] arrivals[k]).at < now + duration
            &&& forall|k: int|
                0 <= k < arrivals.len() && (#[trigger] arrivals[k]).at + gap <= now + duration
                    ==> k < count || count == usize::MAX
        }),
{
    let turns = feed_turns(arrivals, 0, times);
    lemma_feed_turns_are_steady(arrivals, times, gap);
    lemma_measure_counts_the_window(now, duration, turns);
    lemma_collect_gathers_the_window(now, duration, turns);
    lemma_collect_keeps_pace(now, duration, gap, arrivals, times);
}

/// A wait keeps pace with the publisher. Let the driver look at the feed from
/// the start until the deadline, at least once every `gap` ticks, and let no
/// message arrive before the wait starts. If no message arrives before the
/// deadline, the wait ends with nothing. If the first message of the feed
/// arrives at least `gap` before the deadline, the wait ends with its
/// payload.
pub proof fn lemma_wait_keeps_pace(
    now: u64,
    duration: u64,
    gap: int,
    arrivals: Seq<Arrival>,
    times: Seq<u64>,
)
    requires
        gap > 0,
        forall|k: int| 0 <= k < arrivals.len() ==> now <= arrivals[k].at,
        paced(times, gap),
        times.len() > 0,
        times[0] == now,
        times.last() >= now + duration,
    ensures
        ({
            let found = Waiting::started(now, duration).run(feed_turns(arrivals, 0, times)).found;
            &&& (forall|k: int|
                0 <= k < arrivals.len() ==> (#[trigger] arrivals[k]).at >= now + duration)
                ==> found is None
            &&& arrivals.len() > 0 && arrivals[0].at + gap <= now + duration ==> found == Some(
                arrivals[0].payload,
            )
        }),
{
    let state = Waiting::started(now, duration);
    if arrivals.len() > 0 && arrivals[0].at + gap <= now + duration {
        lemma_wait_paces(state, gap, arrivals, times);
    }
    if forall|k: int| 0 <= k < arrivals.len() ==> (#[trigger] arrivals[k]).at >= now + duration {
        lemma_wait_sees_nothing(state, arrivals, times);
    }
}

/// The step of `lemma_wait_keeps_pace` for a first message that arrives in
/// time and is not yet a whole `gap` in the feed.
proof fn lemma_wait_paces(state: Waiting, gap: int, arrivals: Seq<Arrival>, times: Seq<u64>)
    requires
        gap > 0,
        paced(times, gap),
        times.len() > 0,
        times.last() >= state.deadline,
        state.found is None,
        arrivals.len() > 0,
        arrivals[0].at + gap <= state.deadline,
        arrivals[0].at + gap > times[0],
    ensures
        state.run(feed_turns(arrivals, 0, times)).found == Some(arrivals[0].payload),
    decreases times.len(),
{
    let turns = feed_turns(arrivals, 0, times);
    if arrivals[0].at <= times[0] {
        assert(turns[0] == Turn { at: times[0], taken: Some(arrivals[0].payload) });
    } else {
        let later = times.drop_first();
        lemma_later_looks(times, gap, state.deadline);
        assert(turns[0] == Turn { at: times[0], taken: None });
        assert(turns.drop_first() =~= feed_turns(arrivals, 0, later));
        assert(state.offer(None) == state);
        lemma_wait_paces(state, gap, arrivals, later);
    }
}

/// A wait on a feed whose messages all arrive at the deadline or later ends
/// with nothing.
proof fn lemma_wait_sees_nothing(state: Waiting, arrivals: Seq<Arrival>, times: Seq<u64>)
    requires
        state.found is None,
        forall|k: int| 0 <= k < arrivals.len() ==> (#[trigger] arrivals[k]).at >= state.deadline,
    ensures
        state.run(feed_turns(arrivals, 0, times)).found is None,
    decreases times.len(),
{
    let turns = feed_turns(arrivals, 0, times);
    if times.len() > 0 && times[0] < state.deadline {
        let later = times.drop_first();
        if arrivals.len() > 0 {
            assert(arrivals[0].at >= state.deadline);
        }
        assert(turns[0] == Turn { at: times[0], taken: None });
        assert(turns.drop_first() =~= feed_turns(arrivals, 0, later));
        assert(state.offer(None) == state);
        lemma_wait_sees_nothing(state, arrivals, later);
    } else if times.len() > 0 {
        assert(turns[0].at == times[0]);
    }
}

} // verus!
