//! The state that both unfair rate limiters keep, and the decisions they make on it.

use std::collections::VecDeque;

use vstd::prelude::*;

use crate::time::{calendar_instant, Interval, Timestamp};

verus! {

/// The state as mathematics: how many permits are held, and the return times (nanoseconds from
/// the Unix epoch) whose cooldown may not have passed yet, oldest first.
pub struct Occupancy {
    pub active: nat,
    pub expiries: Seq<int>,
}

/// The instants that a sequence of timestamps stands for.
pub open spec fn times_view(times: Seq<Timestamp>) -> Seq<int> {
    times.map_values(|t: Timestamp| t@)
}

/// How many return times at the front of `times` lie strictly before `threshold`.
pub open spec fn expired_prefix_len(times: Seq<int>, threshold: int) -> nat
    decreases times.len(),
{
    if times.len() > 0 && times[0] < threshold {
        1 + expired_prefix_len(times.drop_first(), threshold)
    } else {
        0
    }
}

/// No more return times are dropped than there are.
pub proof fn lemma_expired_prefix_len_bounded(times: Seq<int>, threshold: int)
    ensures
        expired_prefix_len(times, threshold) <= times.len(),
        without_expired(times, threshold).len() == times.len() - expired_prefix_len(times, threshold),
    decreases times.len(),
{
    if times.len() > 0 && times[0] < threshold {
        lemma_expired_prefix_len_bounded(times.drop_first(), threshold);
    }
}

/// `times` without the return times at its front that lie strictly before `threshold`.
pub open spec fn without_expired(times: Seq<int>, threshold: int) -> Seq<int> {
    times.skip(expired_prefix_len(times, threshold) as int)
}

/// The return times whose cooldown has not passed at `for_time`: those at the front that lie
/// strictly before `for_time - interval` are gone.
pub open spec fn kept_expiries(expiries: Seq<int>, for_time: int, interval: int) -> Seq<int> {
    without_expired(expiries, for_time - interval)
}

/// The instant at which the slot of a permit returned at `returned` becomes free again, if the
/// calendar holds it.
pub open spec fn reopening(returned: int, interval: int) -> Option<int> {
    calendar_instant(returned + interval)
}

/// The view of an optional timestamp.
pub open spec fn optional_instant(t: Option<Timestamp>) -> Option<int> {
    match t {
        Some(t) => Some(t@),
        None => None,
    }
}

/// Whether no more than `max` slots are taken, by held permits and by cooldowns together.
pub open spec fn within_capacity(m: Occupancy, max: nat) -> bool {
    m.active + m.expiries.len() <= max
}

/// The occupancy after `count` permits are returned at `at_time`: they are no longer held, and
/// each of them starts a cooldown at `at_time`.
pub open spec fn after_release(m: Occupancy, at_time: int, count: nat) -> Occupancy {
    Occupancy {
        active: (m.active - count) as nat,
        expiries: m.expiries + Seq::new(count, |i: int| at_time),
    }
}

/// A single-permit request at `for_time` that first drops the cooldowns that have passed: the
/// occupancy after it, and either success or the time at which the oldest remaining cooldown
/// ends.
pub open spec fn single_request(m: Occupancy, max: nat, interval: int, for_time: int) -> (
    Occupancy,
    Result<(), Option<int>>,
) {
    let kept = kept_expiries(m.expiries, for_time, interval);
    let next = if kept.len() > 0 {
        reopening(kept[0], interval)
    } else {
        None
    };
    if m.active + kept.len() >= max {
        (Occupancy { active: m.active, expiries: kept }, Err(next))
    } else {
        (Occupancy { active: m.active + 1, expiries: kept }, Ok(()))
    }
}

/// A request for `count` permits at `for_time` that first drops the cooldowns that have passed.
/// When the held permits alone leave too few slots, no time is known; when cooldowns block it,
/// the time given is the end of the cooldown of the `count`-th oldest return (or of the newest,
/// if there are fewer).
pub open spec fn multi_request(m: Occupancy, max: nat, interval: int, for_time: int, count: nat) -> (
    Occupancy,
    Result<(), Option<int>>,
) {
    let kept = kept_expiries(m.expiries, for_time, interval);
    let pruned = Occupancy { active: m.active, expiries: kept };
    if m.active + count > max {
        (pruned, Err(None))
    } else if m.active + kept.len() + count > max {
        let index = if count - 1 < kept.len() {
            count - 1
        } else {
            kept.len() - 1
        };
        (pruned, Err(if kept.len() > 0 { reopening(kept[index], interval) } else { None }))
    } else {
        (Occupancy { active: m.active + count, expiries: kept }, Ok(()))
    }
}

/// How many slots are taken at `for_time`: by held permits and by cooldowns that have not passed.
pub open spec fn occupied(m: Occupancy, for_time: int, interval: int) -> nat {
    m.active + kept_expiries(m.expiries, for_time, interval).len()
}

/// When every return time in `times` is the same instant, either all of them or none of them lie
/// before `threshold`.
pub proof fn lemma_expired_prefix_of_constant(count: nat, returned: int, threshold: int)
    ensures
        expired_prefix_len(Seq::new(count, |i: int| returned), threshold) == (if returned
            < threshold {
            count
        } else {
            0
        }),
    decreases count,
{
    if count > 0 {
        let times = Seq::new(count, |i: int| returned);
        assert(times.drop_first() =~= Seq::new((count - 1) as nat, |i: int| returned));
        lemma_expired_prefix_of_constant((count - 1) as nat, returned, threshold);
    }
}

/// Appending a return time changes what is dropped from the front only when everything before it
/// is dropped.
pub proof fn lemma_expired_prefix_of_push(times: Seq<int>, returned: int, threshold: int)
    ensures
        expired_prefix_len(times.push(returned), threshold) == (if expired_prefix_len(
            times,
            threshold,
        ) == times.len() && returned < threshold {
            times.len() + 1
        } else {
            expired_prefix_len(times, threshold)
        }),
    decreases times.len(),
{
    lemma_expired_prefix_len_bounded(times, threshold);
    if times.len() == 0 {
        assert(times.push(returned)[0] == returned);
        assert(times.push(returned).drop_first() =~= Seq::<int>::empty());
        assert(expired_prefix_len(Seq::<int>::empty(), threshold) == 0);
    } else {
        assert(times.push(returned)[0] == times[0]);
        assert(times.push(returned).drop_first() =~= times.drop_first().push(returned));
        lemma_expired_prefix_of_push(times.drop_first(), returned, threshold);
    }
}

/// The first return time that is kept has not passed its cooldown.
pub proof fn lemma_first_kept_not_expired(times: Seq<int>, threshold: int)
    ensures
        expired_prefix_len(times, threshold) < times.len() ==> times[expired_prefix_len(
            times,
            threshold,
        ) as int] >= threshold,
    decreases times.len(),
{
    if times.len() > 0 && times[0] < threshold {
        lemma_first_kept_not_expired(times.drop_first(), threshold);
    }
}

/// A limiter that holds no permit and runs no cooldown grants any request for between one and
/// all of its slots, at any time.
pub proof fn lemma_fresh_state_grants(max: nat, interval: int, for_time: int, count: nat)
    requires
        0 < count <= max,
    ensures
        ({
            let fresh = Occupancy { active: 0, expiries: Seq::empty() };
            &&& multi_request(fresh, max, interval, for_time, count) == (
                Occupancy { active: count, expiries: Seq::empty() },
                Ok::<(), Option<int>>(()),
            )
            &&& single_request(fresh, max, interval, for_time) == (
                Occupancy { active: 1, expiries: Seq::empty() },
                Ok::<(), Option<int>>(()),
            )
        }),
{
    let fresh = Occupancy { active: 0, expiries: Seq::empty() };
    assert(kept_expiries(fresh.expiries, for_time, interval) =~= Seq::<int>::empty());
}

/// A limiter all of whose `max` slots were returned at `start` refuses every request while the
/// interval has not passed since `start`, naming `start + interval` as the time to come back;
/// once it has passed, it grants every request for up to `max` slots.
pub proof fn lemma_exhausted_state_waits_one_interval(
    max: nat,
    interval: int,
    start: int,
    for_time: int,
    count: nat,
)
    requires
        0 < count <= max,
    ensures
        ({
            let exhausted = Occupancy { active: 0, expiries: Seq::new(max, |i: int| start) };
            &&& for_time - interval <= start ==> {
                &&& single_request(exhausted, max, interval, for_time).1 == Err::<(), Option<int>>(
                    reopening(start, interval),
                )
                &&& multi_request(exhausted, max, interval, for_time, count).1 == Err::<
                    (),
                    Option<int>,
                >(reopening(start, interval))
                &&& single_request(exhausted, max, interval, for_time).0 == exhausted
            }
            &&& start < for_time - interval ==> {
                &&& single_request(exhausted, max, interval, for_time) == (
                    Occupancy { active: 1, expiries: Seq::empty() },
                    Ok::<(), Option<int>>(()),
                )
                &&& multi_request(exhausted, max, interval, for_time, count) == (
                    Occupancy { active: count, expiries: Seq::empty() },
                    Ok::<(), Option<int>>(()),
                )
            }
        }),
{
    let times = Seq::new(max, |i: int| start);
    lemma_expired_prefix_of_constant(max, start, for_time - interval);
    if start < for_time - interval {
        assert(times.skip(max as int) =~= Seq::<int>::empty());
    } else {
        assert(times.skip(0) =~= times);
    }
}

/// Returning a permit at `at_time` leaves the number of taken slots unchanged at every time
/// before its cooldown has passed: the slot is now taken by the cooldown instead of the permit.
pub proof fn lemma_return_keeps_slot_until_cooldown_passes(
    m: Occupancy,
    at_time: int,
    interval: int,
    for_time: int,
)
    requires
        m.active >= 1,
        for_time - interval <= at_time,
    ensures
        occupied(after_release(m, at_time, 1), for_time, interval) == occupied(
            m,
            for_time,
            interval,
        ),
{
    let threshold = for_time - interval;
    assert(m.expiries + Seq::new(1, |i: int| at_time) =~= m.expiries.push(at_time));
    lemma_expired_prefix_of_push(m.expiries, at_time, threshold);
    lemma_expired_prefix_len_bounded(m.expiries, threshold);
    lemma_expired_prefix_len_bounded(m.expiries.push(at_time), threshold);
}

/// Taking a permit and returning it at `at_time` leaves as many permits held as before, with one
/// more cooldown, starting at `at_time`.
pub proof fn lemma_take_then_return(m: Occupancy, max: nat, interval: int, for_time: int, at_time: int)
    requires
        within_capacity(m, max),
        single_request(m, max, interval, for_time).1 is Ok,
    ensures
        ({
            let taken = single_request(m, max, interval, for_time).0;
            &&& after_release(taken, at_time, 1).active == m.active
            &&& after_release(taken, at_time, 1).expiries == kept_expiries(
                m.expiries,
                for_time,
                interval,
            ).push(at_time)
        }),
{
    let kept = kept_expiries(m.expiries, for_time, interval);
    assert(kept + Seq::new(1, |i: int| at_time) =~= kept.push(at_time));
}

/// Requests and returns never take more slots than there are.
pub proof fn lemma_operations_keep_capacity(
    m: Occupancy,
    max: nat,
    interval: int,
    for_time: int,
    count: nat,
    at_time: int,
)
    requires
        within_capacity(m, max),
        0 < count <= max,
    ensures
        within_capacity(single_request(m, max, interval, for_time).0, max),
        within_capacity(multi_request(m, max, interval, for_time, count).0, max),
        count <= m.active ==> within_capacity(after_release(m, at_time, count), max),
{
    lemma_expired_prefix_len_bounded(m.expiries, for_time - interval);
}

/// Asking for one permit alone or as a group of one leaves the same state and succeeds in the same
/// cases; when some slot is not held, a refusal names the same time either way.
pub proof fn lemma_single_request_is_group_of_one(m: Occupancy, max: nat, interval: int, for_time: int)
    requires
        within_capacity(m, max),
        max > 0,
    ensures
        single_request(m, max, interval, for_time).0 == multi_request(
            m,
            max,
            interval,
            for_time,
            1,
        ).0,
        single_request(m, max, interval, for_time).1 is Ok <==> multi_request(
            m,
            max,
            interval,
            for_time,
            1,
        ).1 is Ok,
        m.active < max ==> single_request(m, max, interval, for_time).1 == multi_request(
            m,
            max,
            interval,
            for_time,
            1,
        ).1,
{
    lemma_expired_prefix_len_bounded(m.expiries, for_time - interval);
}

/// A refused single request names a time no earlier than the request: the end of a cooldown
/// that has not passed.
pub proof fn lemma_refusal_names_future_time(m: Occupancy, max: nat, interval: int, for_time: int)
    ensures
        single_request(m, max, interval, for_time).1 matches Err(Some(next)) ==> next >= for_time,
{
    let threshold = for_time - interval;
    lemma_first_kept_not_expired(m.expiries, threshold);
    lemma_expired_prefix_len_bounded(m.expiries, threshold);
}

/// Whether return times come oldest first.
pub open spec fn is_sorted(times: Seq<int>) -> bool {
    forall|i: int, j: int| 0 <= i <= j < times.len() ==> times[i] <= times[j]
}

/// When every return time lies before `threshold`, all of them are dropped.
pub proof fn lemma_all_expired(times: Seq<int>, threshold: int)
    requires
        forall|i: int| 0 <= i < times.len() ==> times[i] < threshold,
    ensures
        expired_prefix_len(times, threshold) == times.len(),
    decreases times.len(),
{
    if times.len() > 0 {
        assert forall|i: int| 0 <= i < times.drop_first().len() implies times.drop_first()[i]
            < threshold by {
            assert(times.drop_first()[i] == times[i + 1]);
        }
        lemma_all_expired(times.drop_first(), threshold);
    }
}

/// Once the cooldown of a permit returned at `at_time` has passed, and every cooldown before it
/// too, its slot is free again: one fewer slot is taken than while the permit was held.
pub proof fn lemma_return_frees_slot_after_cooldown(
    m: Occupancy,
    at_time: int,
    interval: int,
    for_time: int,
)
    requires
        m.active >= 1,
        at_time < for_time - interval,
        forall|i: int| 0 <= i < m.expiries.len() ==> m.expiries[i] < for_time - interval,
    ensures
        occupied(m, for_time, interval) == m.active,
        occupied(after_release(m, at_time, 1), for_time, interval) == m.active - 1,
{
    let threshold = for_time - interval;
    assert(m.expiries + Seq::new(1, |i: int| at_time) =~= m.expiries.push(at_time));
    lemma_all_expired(m.expiries, threshold);
    lemma_expired_prefix_of_push(m.expiries, at_time, threshold);
    lemma_expired_prefix_len_bounded(m.expiries, threshold);
    lemma_expired_prefix_len_bounded(m.expiries.push(at_time), threshold);
}

/// With return times oldest first, a refused request for several permits names a time no earlier
/// than the request.
pub proof fn lemma_group_refusal_names_future_time(
    m: Occupancy,
    max: nat,
    interval: int,
    for_time: int,
    count: nat,
)
    requires
        is_sorted(m.expiries),
        0 < count,
    ensures
        multi_request(m, max, interval, for_time, count).1 matches Err(Some(next)) ==> next
            >= for_time,
{
    let threshold = for_time - interval;
    let dropped = expired_prefix_len(m.expiries, threshold);
    lemma_first_kept_not_expired(m.expiries, threshold);
    lemma_expired_prefix_len_bounded(m.expiries, threshold);
    let kept = kept_expiries(m.expiries, for_time, interval);
    if kept.len() > 0 {
        assert forall|i: int| 0 <= i < kept.len() implies kept[i] >= threshold by {
            assert(kept[i] == m.expiries[dropped + i]);
            assert(kept[0] == m.expiries[dropped as int]);
        }
    }
}

/// Taking `count` permits and returning them together at `at_time` leaves as many permits held
/// as before, with the cooldowns that had not passed followed by `count` cooldowns starting at
/// `at_time`; when the return times were oldest first and none of those kept lies after
/// `at_time`, they stay oldest first.
pub proof fn lemma_group_take_then_return(
    m: Occupancy,
    max: nat,
    interval: int,
    for_time: int,
    count: nat,
    at_time: int,
)
    requires
        multi_request(m, max, interval, for_time, count).1 is Ok,
    ensures
        ({
            let taken = multi_request(m, max, interval, for_time, count).0;
            let kept = kept_expiries(m.expiries, for_time, interval);
            &&& after_release(taken, at_time, count) == (Occupancy {
                active: m.active,
                expiries: kept + Seq::new(count, |i: int| at_time),
            })
            &&& (is_sorted(m.expiries) && (forall|i: int|
                0 <= i < kept.len() ==> kept[i] <= at_time)) ==> is_sorted(
                after_release(taken, at_time, count).expiries,
            )
        }),
{
    let threshold = for_time - interval;
    let dropped = expired_prefix_len(m.expiries, threshold);
    let kept = kept_expiries(m.expiries, for_time, interval);
    lemma_expired_prefix_len_bounded(m.expiries, threshold);
    let after = kept + Seq::new(count, |i: int| at_time);
    if is_sorted(m.expiries) && (forall|i: int| 0 <= i < kept.len() ==> kept[i] <= at_time) {
        assert forall|i: int, j: int| 0 <= i <= j < after.len() implies after[i] <= after[j] by {
            if j < kept.len() {
                assert(kept[i] == m.expiries[dropped + i]);
                assert(kept[j] == m.expiries[dropped + j]);
            } else if i < kept.len() {
                assert(kept[i] == m.expiries[dropped + i]);
            }
        }
    }
}

/// Internal state of a rate limiter.
#[derive(Debug, Clone, PartialEq)]
pub struct State {
    /// How many permits are held.
    pub active_connection_count: usize,
    /// When recently returned permits were returned, oldest first.
    pub expiry_times: VecDeque<Timestamp>,
}

impl View for State {
    type V = Occupancy;

    open spec fn view(&self) -> Occupancy {
        Occupancy {
            active: self.active_connection_count as nat,
            expiries: times_view(self.expiry_times@),
        }
    }
}

impl Default for State {
    /// No permit held and no cooldown running.
    fn default() -> (r: State)
        ensures
            r@ == (Occupancy { active: 0, expiries: Seq::empty() }),
    {
        let r = State { active_connection_count: 0, expiry_times: VecDeque::new() };
        assert(r@.expiries =~= Seq::<int>::empty());
        r
    }
}

/// Whether the cooldown of a permit returned at `returned` has passed at `for_time`, that is,
/// whether `returned < for_time - interval`.
pub fn is_expired(returned: &Timestamp, for_time: &Timestamp, interval: &Interval) -> (r: bool)
    ensures
        r == (returned@ < for_time@ - interval@),
{
    returned.total_nanos() + interval.total_nanos() < for_time.total_nanos()
}

/// The end of the cooldown of a permit returned at `returned`, if the calendar holds it.
pub fn reopening_time(returned: &Timestamp, interval: &Interval) -> (r: Option<Timestamp>)
    ensures
        optional_instant(r) == reopening(returned@, interval@),
{
    returned.checked_add_interval(interval)
}

/// Drops from the front of `expiry_times` the return times whose cooldown has passed at
/// `for_time` (those strictly before `for_time - interval`), and returns how many it dropped.
pub fn remove_old_expiries(
    expiry_times: &mut VecDeque<Timestamp>,
    for_time: &Timestamp,
    interval: &Interval,
) -> (r: usize)
    ensures
        r == expired_prefix_len(times_view(old(expiry_times)@), for_time@ - interval@),
        times_view(final(expiry_times)@) == kept_expiries(
            times_view(old(expiry_times)@),
            for_time@,
            interval@,
        ),
{
    let ghost initial = times_view(expiry_times@);
    let ghost threshold = for_time@ - interval@;
    let initial_len = expiry_times.len();
    let mut removed: usize = 0;
    while expiry_times.len() > 0 && is_expired(&expiry_times[0], for_time, interval)
        invariant
            removed <= initial.len(),
            expiry_times@.len() + removed == initial.len(),
            initial.len() == initial_len,
            initial == times_view(old(expiry_times)@),
            threshold == for_time@ - interval@,
            times_view(expiry_times@) =~= initial.skip(removed as int),
            expired_prefix_len(initial, threshold) == removed + expired_prefix_len(
                times_view(expiry_times@),
                threshold,
            ),
        decreases expiry_times@.len(),
    {
        let ghost before = times_view(expiry_times@);
        assert(before[0] == expiry_times@[0]@);
        assert(before[0] < threshold);
        let _ = expiry_times.pop_front();
        assert(times_view(expiry_times@) =~= before.drop_first());
        assert(initial.skip(removed + 1) =~= before.drop_first());
        removed += 1;
    }
    removed
}

/// Appends `count` copies of `at_time` to `expiry_times`: `count` returns at the same instant.
pub fn push_returns(expiry_times: &mut VecDeque<Timestamp>, at_time: Timestamp, count: usize)
    requires
        old(expiry_times)@.len() + count <= usize::MAX,
    ensures
        times_view(final(expiry_times)@) == times_view(old(expiry_times)@) + Seq::new(
            count as nat,
            |i: int| at_time@,
        ),
{
    let ghost initial = times_view(expiry_times@);
    let mut pushed: usize = 0;
    while pushed < count
        invariant
            pushed <= count,
            expiry_times@.len() == initial.len() + pushed,
            initial.len() + count <= usize::MAX,
            times_view(expiry_times@) =~= initial + Seq::new(pushed as nat, |i: int| at_time@),
        decreases count - pushed,
    {
        let ghost before = times_view(expiry_times@);
        expiry_times.push_back(at_time);
        assert(times_view(expiry_times@) =~= before.push(at_time@));
        assert(Seq::new((pushed + 1) as nat, |i: int| at_time@) =~= Seq::new(
            pushed as nat,
            |i: int| at_time@,
        ).push(at_time@));
        pushed += 1;
    }
}

impl State {
    /// Returns `count` permits at `at_time`: they stop being held, and each starts its cooldown at
    /// `at_time`.
    pub fn release(&mut self, at_time: Timestamp, count: usize)
        requires
            old(self).active_connection_count >= count,
            old(self).expiry_times@.len() + count <= usize::MAX,
        ensures
            final(self)@ == after_release(old(self)@, at_time@, count as nat),
    {
        self.active_connection_count = self.active_connection_count - count;
        push_returns(&mut self.expiry_times, at_time, count);
    }

    /// Asks for one permit at `for_time` on a state of at most `max` slots, after dropping the
    /// cooldowns that have passed. On success the permit is counted as held; on refusal the
    /// error names the end of the oldest remaining cooldown, if there is one.
    pub fn try_take_permit(&mut self, max: usize, for_time: &Timestamp, interval: &Interval) -> (r:
        Result<(), Option<Timestamp>>)
        requires
            within_capacity(old(self)@, max as nat),
        ensures
            ({
                let (m, outcome) = single_request(old(self)@, max as nat, interval@, for_time@);
                &&& final(self)@ == m
                &&& match outcome {
                    Ok(()) => r is Ok,
                    Err(next) => r matches Err(t) && optional_instant(t) == next,
                }
            }),
            within_capacity(final(self)@, max as nat),
    {
        let _ = remove_old_expiries(&mut self.expiry_times, for_time, interval);
        proof {
            lemma_expired_prefix_len_bounded(old(self)@.expiries, for_time@ - interval@);
        }
        let next_available_time = if self.expiry_times.len() > 0 {
            reopening_time(&self.expiry_times[0], interval)
        } else {
            None
        };
        if self.active_connection_count == max {
            return Err(next_available_time);
        }
        if self.expiry_times.len() == max {
            return Err(next_available_time);
        }
        if self.active_connection_count + self.expiry_times.len() == max {
            return Err(next_available_time);
        }
        self.active_connection_count = self.active_connection_count + 1;
        Ok(())
    }

    /// Asks for `count` permits at `for_time` on a state of at most `max` slots, after dropping
    /// the cooldowns that have passed. On success the permits are counted as held.
    pub fn try_take_permits(
        &mut self,
        max: usize,
        for_time: &Timestamp,
        interval: &Interval,
        count: usize,
    ) -> (r: Result<(), Option<Timestamp>>)
        requires
            within_capacity(old(self)@, max as nat),
            0 < count <= max,
        ensures
            ({
                let (m, outcome) = multi_request(
                    old(self)@,
                    max as nat,
                    interval@,
                    for_time@,
                    count as nat,
                );
                &&& final(self)@ == m
                &&& match outcome {
                    Ok(()) => r is Ok,
                    Err(next) => r matches Err(t) && optional_instant(t) == next,
                }
            }),
            within_capacity(final(self)@, max as nat),
    {
        let _ = remove_old_expiries(&mut self.expiry_times, for_time, interval);
        proof {
            lemma_expired_prefix_len_bounded(old(self)@.expiries, for_time@ - interval@);
        }
        if count > max - self.active_connection_count {
            return Err(None);
        }
        let num_expired = self.expiry_times.len();
        if count > max - self.active_connection_count - num_expired {
            let index = if count - 1 < num_expired {
                count - 1
            } else {
                num_expired - 1
            };
            let next_time = reopening_time(&self.expiry_times[index], interval);
            return Err(next_time);
        }
        self.active_connection_count = self.active_connection_count + count;
        Ok(())
    }
}

/// How long to wait before asking again after a refusal: until the time the refusal named, or
/// for one `interval` when it named none, and not at all if that is already past (a negative
/// wait counts as none).
pub fn retry_delay(next_time: Option<Timestamp>, interval: Interval, now: Timestamp) -> (r: Interval)
    ensures
        r@ == (match next_time {
            Some(wake) => if wake@ - now@ < 0 { 0 } else { wake@ - now@ },
            None => if interval@ < 0 { 0 } else { interval@ },
        }),
{
    let wait = match next_time {
        Some(wake) => wake.since(&now),
        None => interval,
    };
    if wait.total_nanos() < 0 {
        Interval::zero()
    } else {
        wait
    }
}

} // verus!
