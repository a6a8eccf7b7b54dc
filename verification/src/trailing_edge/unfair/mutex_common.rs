//! The rate limiter whose state a lock guards, and its permits.
//!
//! Every operation here runs on the state while the caller holds it exclusively; sharing it
//! between the limiter and its permits is the caller's part.

use vstd::prelude::*;

use crate::time::{current_time, Interval, Timestamp};
use crate::trailing_edge::unfair::common::{
    after_release, expired_prefix_len, kept_expiries, lemma_expired_prefix_len_bounded,
    lemma_expired_prefix_of_constant, lemma_return_keeps_slot_until_cooldown_passes,
    multi_request, occupied, optional_instant, push_returns, remove_old_expiries, reopening,
    reopening_time, single_request, within_capacity, Occupancy, State,
};

verus! {

/// Errors that can occur when interacting with the [`RateLimiter`].
#[derive(Debug, PartialEq)]
pub enum Error {
    /// The lock around the state was poisoned.
    MutexPoisoned,
    /// A permit cannot currently be acquired because the limit has been reached.
    ///
    /// Contains the time when the next permit might become available, if known.
    NoPermitAvailable(Option<Timestamp>),
}

/// Whether `r` is the refusal that names `next`.
pub open spec fn is_refusal<P>(r: Result<P, Error>, next: Option<int>) -> bool {
    r matches Err(Error::NoPermitAvailable(t)) && optional_instant(t) == next
}

/// A single-permit request at `for_time` that reads the end of the oldest cooldown first, and
/// refuses at once, without dropping passed cooldowns, when every slot holds a permit.
pub open spec fn single_request_held_first(m: Occupancy, max: nat, interval: int, for_time: int) -> (
    Occupancy,
    Result<(), Option<int>>,
) {
    let next = if m.expiries.len() > 0 {
        reopening(m.expiries[0], interval)
    } else {
        None
    };
    if m.active >= max {
        (m, Err(next))
    } else {
        let kept = kept_expiries(m.expiries, for_time, interval);
        if m.active + kept.len() >= max {
            (Occupancy { active: m.active, expiries: kept }, Err(next))
        } else {
            (Occupancy { active: m.active + 1, expiries: kept }, Ok(()))
        }
    }
}

/// Reading the oldest cooldown first and refusing at once when every slot holds a permit decides
/// exactly as dropping passed cooldowns first does: on a state within capacity, a refusal can
/// only come when no cooldown has passed, so the oldest one is the same either way.
pub proof fn lemma_held_first_matches_single_request(m: Occupancy, max: nat, interval: int, for_time: int)
    requires
        within_capacity(m, max),
    ensures
        single_request_held_first(m, max, interval, for_time) == single_request(
            m,
            max,
            interval,
            for_time,
        ),
{
    let threshold = for_time - interval;
    lemma_expired_prefix_len_bounded(m.expiries, threshold);
    if m.active >= max {
        assert(m.expiries.len() == 0);
        assert(m.expiries.skip(0) =~= m.expiries);
    } else if m.active + kept_expiries(m.expiries, for_time, interval).len() >= max {
        assert(expired_prefix_len(m.expiries, threshold) == 0);
        assert(m.expiries.skip(0) =~= m.expiries);
    }
}

/// A returned permit's slot stays closed until its cooldown has passed: on a limiter all of
/// whose slots are taken at `for_time`, returning a permit at `at_time`, with less than the
/// interval between them, leaves every request at `for_time` refused, single or group; when no
/// other cooldown runs, the refusal names `at_time + interval`.
pub proof fn lemma_request_refused_during_cooldown(
    m: Occupancy,
    max: nat,
    interval: int,
    at_time: int,
    for_time: int,
    count: nat,
)
    requires
        m.active >= 1,
        0 < count,
        occupied(m, for_time, interval) >= max,
        for_time - interval <= at_time,
    ensures
        ({
            let returned = after_release(m, at_time, 1);
            &&& single_request_held_first(returned, max, interval, for_time).1 is Err
            &&& single_request(returned, max, interval, for_time).1 is Err
            &&& multi_request(returned, max, interval, for_time, count).1 is Err
            &&& m.expiries.len() == 0 ==> single_request_held_first(
                returned,
                max,
                interval,
                for_time,
            ).1 == Err::<(), Option<int>>(reopening(at_time, interval))
        }),
{
    lemma_return_keeps_slot_until_cooldown_passes(m, at_time, interval, for_time);
    let returned = after_release(m, at_time, 1);
    if m.expiries.len() == 0 {
        assert(returned.expiries =~= seq![at_time]);
    }
}

/// A single-permit request never takes more slots than there are.
pub proof fn lemma_held_first_keeps_capacity(m: Occupancy, max: nat, interval: int, for_time: int)
    requires
        within_capacity(m, max),
    ensures
        within_capacity(single_request_held_first(m, max, interval, for_time).0, max),
{
    lemma_expired_prefix_len_bounded(m.expiries, for_time - interval);
}

/// A fresh limiter of at least one slot grants a single permit at any time.
pub proof fn lemma_held_first_fresh_grants(max: nat, interval: int, for_time: int)
    requires
        max > 0,
    ensures
        single_request_held_first(
            Occupancy { active: 0, expiries: Seq::empty() },
            max,
            interval,
            for_time,
        ) == (Occupancy { active: 1, expiries: Seq::<int>::empty() }, Ok::<(), Option<int>>(())),
{
    assert(kept_expiries(Seq::<int>::empty(), for_time, interval) =~= Seq::<int>::empty());
}

/// A limiter of at least one slot, all of whose slots were returned at `start`, refuses a single
/// permit while the interval has not passed since `start`, naming `start + interval`; once it
/// has passed, it grants one.
pub proof fn lemma_held_first_exhausted_waits_one_interval(
    max: nat,
    interval: int,
    start: int,
    for_time: int,
)
    requires
        max > 0,
    ensures
        ({
            let exhausted = Occupancy { active: 0, expiries: Seq::new(max, |i: int| start) };
            &&& for_time - interval <= start ==> single_request_held_first(
                exhausted,
                max,
                interval,
                for_time,
            ) == (exhausted, Err::<(), Option<int>>(reopening(start, interval)))
            &&& start < for_time - interval ==> single_request_held_first(
                exhausted,
                max,
                interval,
                for_time,
            ) == (Occupancy { active: 1, expiries: Seq::<int>::empty() }, Ok::<(), Option<int>>(()))
        }),
{
    let times = Seq::new(max, |i: int| start);
    lemma_expired_prefix_of_constant(max, start, for_time - interval);
    if start < for_time - interval {
        assert(times.skip(max as int) =~= Seq::<int>::empty());
    } else {
        assert(times.skip(0) =~= times);
    }
}

/// A RAII permit for a single unit of concurrency.
///
/// Returning it (see [`SinglePermit::drop_impl`]) releases the permit, but the slot it occupied
/// stays unavailable for the configured `interval` of the rate limiter: the cooldown starts when
/// the permit is returned, not when it was acquired.
#[derive(Debug)]
#[must_use]
pub struct SinglePermit {
    token: (),
}

impl SinglePermit {
    fn new() -> Self {
        SinglePermit { token: () }
    }

    /// Returns this permit to `limiter` at `at_time`.
    pub fn drop_impl<const MAX_SIMULTANEOUS: usize>(
        &mut self,
        limiter: &mut RateLimiter<MAX_SIMULTANEOUS>,
        at_time: Timestamp,
    )
        requires
            old(limiter).spec_state().active_connection_count >= 1,
        ensures
            final(limiter).spec_state()@ == after_release(old(limiter).spec_state()@, at_time@, 1),
            final(limiter).spec_interval() == old(limiter).spec_interval(),
    {
        proof {
            use_type_invariant(&*limiter);
        }
        let mut state = State::default();
        std::mem::swap(&mut state, &mut limiter.state);
        state.release(at_time, 1);
        limiter.state = state;
    }
}

/// A RAII permit for multiple units of concurrency.
///
/// Returning it (see [`MultiPermit::drop_impl`]) releases the permits, but the slots they
/// occupied stay unavailable for the configured `interval` of the rate limiter, counted from the
/// moment they are returned.
#[derive(Debug)]
#[must_use]
pub struct MultiPermit {
    num_permits: usize,
}

impl MultiPermit {
    fn new(num_permits: usize) -> (r: Self)
        ensures
            r.spec_num_permits() == num_permits,
    {
        MultiPermit { num_permits }
    }

    /// How many units this permit holds.
    pub closed spec fn spec_num_permits(self) -> nat {
        self.num_permits as nat
    }

    /// How many units this permit holds.
    pub fn num_permits(&self) -> (r: usize)
        ensures
            r == self.spec_num_permits(),
    {
        self.num_permits
    }

    /// Returns all units of this permit to `limiter` at `at_time`.
    pub fn drop_impl<const MAX_SIMULTANEOUS: usize>(
        &mut self,
        limiter: &mut RateLimiter<MAX_SIMULTANEOUS>,
        at_time: Timestamp,
    )
        requires
            old(limiter).spec_state().active_connection_count >= old(self).spec_num_permits(),
        ensures
            final(limiter).spec_state()@ == after_release(
                old(limiter).spec_state()@,
                at_time@,
                old(self).spec_num_permits(),
            ),
            final(limiter).spec_interval() == old(limiter).spec_interval(),
            final(self).spec_num_permits() == old(self).spec_num_permits(),
    {
        proof {
            use_type_invariant(&*limiter);
        }
        let mut state = State::default();
        std::mem::swap(&mut state, &mut limiter.state);
        state.release(at_time, self.num_permits);
        limiter.state = state;
    }
}

/// A rate limiter that enforces a cooldown period after usage (return-time based).
///
/// `MAX_SIMULTANEOUS` defines the maximum number of "slots" available. A slot is occupied if a
/// permit is currently held, OR if a permit was recently held and the cooldown `interval` has
/// not yet passed since it was returned.
///
/// This implies that long-running tasks holding a permit will delay the availability of that
/// slot for future tasks until `duration_held + interval` time has passed.
#[derive(Debug)]
pub struct RateLimiter<const MAX_SIMULTANEOUS: usize> {
    interval: Interval,
    state: State,
}

impl<const MAX_SIMULTANEOUS: usize> RateLimiter<MAX_SIMULTANEOUS> {
    /// Held permits and running cooldowns never take more than `MAX_SIMULTANEOUS` slots.
    #[verifier::type_invariant]
    spec fn fits(self) -> bool {
        within_capacity(self.state@, MAX_SIMULTANEOUS as nat)
    }

    /// The cooldown interval.
    pub closed spec fn spec_interval(self) -> Interval {
        self.interval
    }

    /// The current state.
    pub closed spec fn spec_state(self) -> State {
        self.state
    }

    /// The cooldown interval.
    pub fn interval(&self) -> (r: Interval)
        ensures
            r == self.spec_interval(),
    {
        self.interval
    }

    /// The current state, which never takes more than `MAX_SIMULTANEOUS` slots.
    pub fn state(&self) -> (r: &State)
        ensures
            *r == self.spec_state(),
            within_capacity(r@, MAX_SIMULTANEOUS as nat),
    {
        proof {
            use_type_invariant(self);
        }
        &self.state
    }

    /// Creates a new rate limiter with the specified cooldown `interval`.
    ///
    /// The `interval` specifies how long a slot remains unavailable *after* a permit is dropped.
    /// Initially, all permits are available.
    pub fn new(interval: Interval) -> (r: Self)
        ensures
            r.spec_interval() == interval,
            r.spec_state()@ == (Occupancy { active: 0, expiries: Seq::empty() }),
    {
        RateLimiter { interval, state: State::default() }
    }

    /// A rate limiter with the given cooldown `interval` and `state`, if the state takes no more
    /// than `MAX_SIMULTANEOUS` slots.
    pub fn from_state(interval: Interval, state: State) -> (r: Option<Self>)
        ensures
            r is Some <==> within_capacity(state@, MAX_SIMULTANEOUS as nat),
            r matches Some(l) ==> l.spec_interval() == interval && l.spec_state() == state,
    {
        let held = state.active_connection_count;
        let cooling = state.expiry_times.len();
        if held <= MAX_SIMULTANEOUS && cooling <= MAX_SIMULTANEOUS - held {
            Some(RateLimiter { interval, state })
        } else {
            None
        }
    }

    /// A rate limiter all of whose slots were returned at `start_time`.
    pub fn new_exhausted_impl(interval: Interval, start_time: Timestamp) -> (r: Self)
        ensures
            r.spec_interval() == interval,
            r.spec_state()@ == (Occupancy {
                active: 0,
                expiries: Seq::new(MAX_SIMULTANEOUS as nat, |i: int| start_time@),
            }),
    {
        let mut state = State::default();
        push_returns(&mut state.expiry_times, start_time, MAX_SIMULTANEOUS);
        assert(state@.expiries =~= Seq::new(MAX_SIMULTANEOUS as nat, |i: int| start_time@));
        RateLimiter { interval, state }
    }

    /// Creates a new rate limiter that is initially exhausted.
    ///
    /// This simulates a state where all permits have just been used and dropped at the current
    /// time, so no new permits can be acquired until the `interval` cooldown has passed.
    pub fn new_exhausted(interval: Interval) -> (r: Self)
        ensures
            r.spec_interval() == interval,
            r.spec_state().active_connection_count == 0,
            r.spec_state()@.expiries.len() == MAX_SIMULTANEOUS,
            forall|i: int|
                0 <= i < MAX_SIMULTANEOUS ==> #[trigger] r.spec_state()@.expiries[i]
                    == r.spec_state()@.expiries[0],
    {
        let start_time = current_time();
        Self::new_exhausted_impl(interval, start_time)
    }

    /// Attempts to acquire a single permit at `for_time`.
    ///
    /// The end of the oldest cooldown is read first; if every slot holds a permit the request is
    /// refused at once, otherwise the cooldowns that have passed are dropped and the permit is
    /// granted if a slot is left.
    pub fn try_acquire_permit_impl(&mut self, for_time: &Timestamp) -> (r: Result<SinglePermit, Error>)
        ensures
            final(self).spec_interval() == old(self).spec_interval(),
            ({
                let (m, outcome) = single_request_held_first(
                    old(self).spec_state()@,
                    MAX_SIMULTANEOUS as nat,
                    old(self).spec_interval()@,
                    for_time@,
                );
                &&& final(self).spec_state()@ == m
                &&& match outcome {
                    Ok(()) => r is Ok,
                    Err(next) => is_refusal(r, next),
                }
            }),
    {
        proof {
            use_type_invariant(&*self);
        }
        let next_available_time = if self.state.expiry_times.len() > 0 {
            reopening_time(&self.state.expiry_times[0], &self.interval)
        } else {
            None
        };
        if self.state.active_connection_count == MAX_SIMULTANEOUS {
            return Err(Error::NoPermitAvailable(next_available_time));
        }
        let mut state = State::default();
        std::mem::swap(&mut state, &mut self.state);
        let _ = remove_old_expiries(&mut state.expiry_times, for_time, &self.interval);
        proof {
            lemma_expired_prefix_len_bounded(old(self).state@.expiries, for_time@ - self.interval@);
        }
        if state.expiry_times.len() == MAX_SIMULTANEOUS {
            self.state = state;
            return Err(Error::NoPermitAvailable(next_available_time));
        }
        if state.active_connection_count + state.expiry_times.len() == MAX_SIMULTANEOUS {
            self.state = state;
            return Err(Error::NoPermitAvailable(next_available_time));
        }
        state.active_connection_count = state.active_connection_count + 1;
        self.state = state;
        Ok(SinglePermit::new())
    }

    /// Attempts to acquire `num_permits` permits at once at `for_time`, after dropping the
    /// cooldowns that have passed.
    pub fn try_acquire_permits_impl(&mut self, for_time: &Timestamp, num_permits: usize) -> (r: Result<
        MultiPermit,
        Error,
    >)
        requires
            0 < num_permits <= MAX_SIMULTANEOUS,
        ensures
            final(self).spec_interval() == old(self).spec_interval(),
            ({
                let (m, outcome) = multi_request(
                    old(self).spec_state()@,
                    MAX_SIMULTANEOUS as nat,
                    old(self).spec_interval()@,
                    for_time@,
                    num_permits as nat,
                );
                &&& final(self).spec_state()@ == m
                &&& match outcome {
                    Ok(()) => r matches Ok(p) && p.spec_num_permits() == num_permits,
                    Err(next) => is_refusal(r, next),
                }
            }),
    {
        proof {
            use_type_invariant(&*self);
        }
        let mut state = State::default();
        std::mem::swap(&mut state, &mut self.state);
        let outcome = state.try_take_permits(MAX_SIMULTANEOUS, for_time, &self.interval, num_permits);
        self.state = state;
        match outcome {
            Ok(()) => Ok(MultiPermit::new(num_permits)),
            Err(next_time) => Err(Error::NoPermitAvailable(next_time)),
        }
    }

    /// Attempts to acquire a single permit now.
    ///
    /// Refuses with [`Error::NoPermitAvailable`] if all slots are occupied (either by held
    /// permits or by cooldowns from recently returned permits).
    pub fn try_acquire_permit(&mut self) -> (r: Result<SinglePermit, Error>)
        ensures
            final(self).spec_interval() == old(self).spec_interval(),
            exists|now: Timestamp|
                {
                    let (m, outcome) = #[trigger] single_request_held_first(
                        old(self).spec_state()@,
                        MAX_SIMULTANEOUS as nat,
                        old(self).spec_interval()@,
                        now@,
                    );
                    &&& final(self).spec_state()@ == m
                    &&& match outcome {
                        Ok(()) => r is Ok,
                        Err(next) => is_refusal(r, next),
                    }
                },
    {
        let now = current_time();
        self.try_acquire_permit_impl(&now)
    }

    /// Attempts to acquire `num_permits` permits at once, now.
    pub fn try_acquire_permits(&mut self, num_permits: usize) -> (r: Result<MultiPermit, Error>)
        requires
            0 < num_permits <= MAX_SIMULTANEOUS,
        ensures
            final(self).spec_interval() == old(self).spec_interval(),
            exists|now: Timestamp|
                {
                    let (m, outcome) = #[trigger] multi_request(
                        old(self).spec_state()@,
                        MAX_SIMULTANEOUS as nat,
                        old(self).spec_interval()@,
                        now@,
                        num_permits as nat,
                    );
                    &&& final(self).spec_state()@ == m
                    &&& match outcome {
                        Ok(()) => r matches Ok(p) && p.spec_num_permits() == num_permits,
                        Err(next) => is_refusal(r, next),
                    }
                },
    {
        let now = current_time();
        self.try_acquire_permits_impl(&now, num_permits)
    }
}

} // verus!
