//! The unfair trailing-edge rate limiter that owns its state; its permits hand their return time
//! back over a channel, and the limiter takes the returns in before each decision.

use std::sync::mpsc::{Receiver, Sender};

use vstd::prelude::*;

use crate::time::{current_time, Interval, Timestamp};
use crate::trailing_edge::unfair::common::{
    multi_request, optional_instant, push_returns, single_request, within_capacity, Occupancy,
    State,
};

verus! {

#[verifier::external_type_specification]
#[verifier::external_body]
#[verifier::reject_recursive_types(T)]
pub struct ExSender<T>(Sender<T>);

#[verifier::external_type_specification]
#[verifier::external_body]
#[verifier::reject_recursive_types(T)]
pub struct ExReceiver<T>(Receiver<T>);

/// Opens a channel for return times (`std::sync::mpsc::channel`). Nothing is stated of it.
#[verifier::external_body]
fn open_channel() -> (Sender<Timestamp>, Receiver<Timestamp>) {
    std::sync::mpsc::channel()
}

/// Takes one return time from the channel if one is waiting (`Receiver::try_recv`, `None` on
/// either of its errors). What arrives depends on the senders, so nothing is stated of it.
#[verifier::external_body]
fn try_receive(receiver: &Receiver<Timestamp>) -> Option<Timestamp> {
    receiver.try_recv().ok()
}

/// Sends a return time (`Sender::send`); `true` when it was sent. Whether the receiving end
/// still exists is not stated.
#[verifier::external_body]
fn send_return(sender: &Sender<Timestamp>, at_time: Timestamp) -> bool {
    sender.send(at_time).is_ok()
}

/// Another sending end of the same channel (`Sender::clone`). Nothing is stated of it.
#[verifier::external_body]
fn clone_sender(sender: &Sender<Timestamp>) -> Sender<Timestamp> {
    sender.clone()
}

/// Errors that can occur when interacting with the [`RateLimiter`].
#[derive(Debug, PartialEq)]
pub enum Error {
    /// A permit cannot currently be acquired because the limit has been reached.
    ///
    /// Contains the time when the next permit might become available, if known.
    NoPermitAvailable(Option<Timestamp>),
}

/// Whether `r` is the refusal that names `next`.
pub open spec fn is_refusal<P>(r: Result<P, Error>, next: Option<int>) -> bool {
    r matches Err(Error::NoPermitAvailable(t)) && optional_instant(t) == next
}

/// The occupancy after the permits returned at the times `returned` have been taken in: they are
/// no longer held, and their cooldowns run from those times, after the ones already running.
pub open spec fn after_returns(m: Occupancy, returned: Seq<int>) -> Occupancy {
    Occupancy { active: (m.active - returned.len()) as nat, expiries: m.expiries + returned }
}

/// A single RAII permit.
///
/// Returning it (see [`SinglePermit::drop_impl`]) sends the return time to the limiter, which
/// keeps the slot unavailable until the interval has passed from that time.
#[derive(Debug)]
#[must_use]
pub struct SinglePermit {
    sender: Sender<Timestamp>,
}

impl SinglePermit {
    fn new(sender: Sender<Timestamp>) -> (r: Self)
        ensures
            r.sender == sender,
    {
        SinglePermit { sender }
    }

    /// Returns this permit at `at_time`: sends the time to the limiter, and tells whether the
    /// limiter could still receive it.
    pub fn drop_impl(&mut self, at_time: Timestamp) -> bool {
        send_return(&self.sender, at_time)
    }
}

/// A permit for multiple actions.
///
/// Returning it (see [`MultiPermit::drop_impl`]) sends one return time per unit to the limiter.
#[derive(Debug)]
#[must_use]
pub struct MultiPermit {
    sender: Sender<Timestamp>,
    num_permits: usize,
}

impl MultiPermit {
    fn new(sender: Sender<Timestamp>, num_permits: usize) -> (r: Self)
        ensures
            r.spec_num_permits() == num_permits,
    {
        MultiPermit { sender, num_permits }
    }

    /// How many units this permit holds.
    pub closed spec fn spec_num_permits(self) -> nat {
        self.num_permits as nat
    }

    /// How many units this permit holds.
    pub fn num_permits(&self) -> (r: usize)
        ensures
            r == self.spec_num_permits(),
    {
        self.num_permits
    }

    /// Returns every unit of this permit at `at_time`: sends the return times that
    /// [`return_times`] builds for its units, in order, stopping at the first send the limiter
    /// can no longer receive, and tells whether all were sent. With no units there is nothing to
    /// send, and all were sent.
    pub fn drop_impl(&mut self, at_time: Timestamp) -> (r: bool)
        ensures
            final(self).spec_num_permits() == old(self).spec_num_permits(),
            old(self).spec_num_permits() == 0 ==> r,
    {
        let times = return_times(at_time, self.num_permits);
        let mut sent: usize = 0;
        while sent < times.len()
            invariant
                sent <= times.len(),
                times@ == Seq::new(self.num_permits as nat, |i: int| at_time),
            decreases times.len() - sent,
        {
            if !send_return(&self.sender, times[sent]) {
                return false;
            }
            sent += 1;
        }
        true
    }
}

/// The return times of `num_permits` units returned together at `at_time`: one per unit, each
/// `at_time`.
pub fn return_times(at_time: Timestamp, num_permits: usize) -> (r: Vec<Timestamp>)
    ensures
        r@ == Seq::new(num_permits as nat, |i: int| at_time),
{
    let mut times: Vec<Timestamp> = Vec::new();
    while times.len() < num_permits
        invariant
            times.len() <= num_permits,
            times@ == Seq::new(times.len() as nat, |i: int| at_time),
        decreases num_permits - times.len(),
    {
        times.push(at_time);
        assert(times@ =~= Seq::new(times.len() as nat, |i: int| at_time));
    }
    times
}

/// Rate limiter that enforces a cooldown period after the action finishes.
///
/// The number of available slots is `MAX_SIMULTANEOUS`. If a slot is occupied or was occupied
/// within `interval`, it is not available.
#[derive(Debug)]
pub struct RateLimiter<const MAX_SIMULTANEOUS: usize> {
    interval: Interval,
    state: State,
    sender: Sender<Timestamp>,
    receiver: Receiver<Timestamp>,
}

impl<const MAX_SIMULTANEOUS: usize> RateLimiter<MAX_SIMULTANEOUS> {
    /// Held permits and running cooldowns never take more than `MAX_SIMULTANEOUS` slots.
    #[verifier::type_invariant]
    spec fn fits(self) -> bool {
        within_capacity(self.state@, MAX_SIMULTANEOUS as nat)
    }

    /// The cooldown interval.
    pub closed spec fn spec_interval(self) -> Interval {
        self.interval
    }

    /// The current state (returns not yet taken in are not part of it).
    pub closed spec fn spec_state(self) -> State {
        self.state
    }

    /// The cooldown interval.
    pub fn interval(&self) -> (r: Interval)
        ensures
            r == self.spec_interval(),
    {
        self.interval
    }

    /// The current state, which never takes more than `MAX_SIMULTANEOUS` slots.
    pub fn state(&self) -> (r: &State)
        ensures
            *r == self.spec_state(),
            within_capacity(r@, MAX_SIMULTANEOUS as nat),
    {
        proof {
            use_type_invariant(self);
        }
        &self.state
    }

    fn new_impl(state: State, interval: Interval) -> (r: Self)
        requires
            within_capacity(state@, MAX_SIMULTANEOUS as nat),
        ensures
            r.spec_interval() == interval,
            r.spec_state() == state,
    {
        let (sender, receiver) = open_channel();
        RateLimiter { interval, state, sender, receiver }
    }

    /// A rate limiter with the given cooldown `interval` and `state`, if the state takes no more
    /// than `MAX_SIMULTANEOUS` slots.
    pub fn from_state(interval: Interval, state: State) -> (r: Option<Self>)
        ensures
            r is Some <==> within_capacity(state@, MAX_SIMULTANEOUS as nat),
            r matches Some(l) ==> l.spec_interval() == interval && l.spec_state() == state,
    {
        let held = state.active_connection_count;
        let cooling = state.expiry_times.len();
        if held <= MAX_SIMULTANEOUS && cooling <= MAX_SIMULTANEOUS - held {
            Some(Self::new_impl(state, interval))
        } else {
            None
        }
    }

    /// Create a new rate limiter with all slots available.
    ///
    /// If you want to create a new rate limiter with no slots available, use
    /// `Self::new_exhausted`.
    pub fn new(interval: Interval) -> (r: Self)
        ensures
            r.spec_interval() == interval,
            r.spec_state()@ == (Occupancy { active: 0, expiries: Seq::empty() }),
    {
        Self::new_impl(State::default(), interval)
    }

    /// A rate limiter all of whose slots were returned at `start_time`.
    pub fn new_exhausted_impl(interval: Interval, start_time: Timestamp) -> (r: Self)
        ensures
            r.spec_interval() == interval,
            r.spec_state()@ == (Occupancy {
                active: 0,
                expiries: Seq::new(MAX_SIMULTANEOUS as nat, |i: int| start_time@),
            }),
    {
        let mut state = State::default();
        push_returns(&mut state.expiry_times, start_time, MAX_SIMULTANEOUS);
        assert(state@.expiries =~= Seq::new(MAX_SIMULTANEOUS as nat, |i: int| start_time@));
        Self::new_impl(state, interval)
    }

    /// Create a new rate limiter with all slots exhausted.
    ///
    /// The rate limiter will become available again after the `interval` has passed from the
    /// current time.
    pub fn new_exhausted(interval: Interval) -> (r: Self)
        ensures
            r.spec_interval() == interval,
            r.spec_state()@.active == 0,
            r.spec_state()@.expiries.len() == MAX_SIMULTANEOUS,
            forall|i: int|
                0 <= i < MAX_SIMULTANEOUS ==> #[trigger] r.spec_state()@.expiries[i]
                    == r.spec_state()@.expiries[0],
    {
        let start_time = current_time();
        Self::new_exhausted_impl(interval, start_time)
    }

    /// Takes in the permits returned since the last call: each one stops being held and starts
    /// its cooldown at the time it was returned. At most as many returns are taken in as permits
    /// are held.
    pub fn drain_returned_permits(&mut self)
        ensures
            final(self).spec_interval() == old(self).spec_interval(),
            exists|returned: Seq<int>|
                returned.len() <= old(self).spec_state()@.active && final(self).spec_state()@
                    == #[trigger] after_returns(old(self).spec_state()@, returned),
    {
        proof {
            use_type_invariant(&*self);
        }
        let ghost start = self.state@;
        let mut state = State::default();
        std::mem::swap(&mut state, &mut self.state);
        let limit = state.active_connection_count;
        let mut received: usize = 0;
        let mut waiting = true;
        while waiting && received < limit
            invariant
                limit == start.active,
                received <= limit,
                state@.active + received == start.active,
                state@.expiries.len() == start.expiries.len() + received,
                state@.expiries.subrange(0, start.expiries.len() as int) == start.expiries,
                within_capacity(state@, MAX_SIMULTANEOUS as nat),
            decreases limit - received + (if waiting { 1int } else { 0int }),
        {
            match try_receive(&self.receiver) {
                Some(returned_at) => {
                    let ghost before = state@;
                    state.release(returned_at, 1);
                    assert(state@.expiries.subrange(0, start.expiries.len() as int)
                        =~= before.expiries.subrange(0, start.expiries.len() as int));
                    received += 1;
                },
                None => {
                    waiting = false;
                },
            }
        }
        let ghost returned = state@.expiries.skip(start.expiries.len() as int);
        assert(state@.expiries =~= start.expiries + returned);
        assert(returned.len() == received);
        assert(state@ == after_returns(start, returned));
        self.state = state;
        assert(start == old(self).spec_state()@);
        assert(self.spec_state()@ == after_returns(old(self).spec_state()@, returned));
    }

    /// Attempts to acquire a single permit at `for_time`: takes in the returned permits, drops
    /// the cooldowns that have passed, and grants the permit if a slot is left.
    pub fn try_acquire_permit_impl(&mut self, for_time: &Timestamp) -> (r: Result<SinglePermit, Error>)
        ensures
            final(self).spec_interval() == old(self).spec_interval(),
            exists|returned: Seq<int>|
                {
                    let (m, outcome) = single_request(
                        #[trigger] after_returns(old(self).spec_state()@, returned),
                        MAX_SIMULTANEOUS as nat,
                        old(self).spec_interval()@,
                        for_time@,
                    );
                    &&& returned.len() <= old(self).spec_state()@.active
                    &&& final(self).spec_state()@ == m
                    &&& match outcome {
                        Ok(()) => r is Ok,
                        Err(next) => is_refusal(r, next),
                    }
                },
    {
        self.drain_returned_permits();
        proof {
            use_type_invariant(&*self);
        }
        let mut state = State::default();
        std::mem::swap(&mut state, &mut self.state);
        let outcome = state.try_take_permit(MAX_SIMULTANEOUS, for_time, &self.interval);
        self.state = state;
        match outcome {
            Ok(()) => Ok(SinglePermit::new(clone_sender(&self.sender))),
            Err(next_time) => Err(Error::NoPermitAvailable(next_time)),
        }
    }

    /// Attempts to acquire `num_permits` permits at once at `for_time`: takes in the returned
    /// permits, drops the cooldowns that have passed, and grants the permits if enough slots are
    /// left.
    pub fn try_acquire_permits_impl(&mut self, for_time: &Timestamp, num_permits: usize) -> (r: Result<
        MultiPermit,
        Error,
    >)
        requires
            0 < num_permits <= MAX_SIMULTANEOUS,
        ensures
            final(self).spec_interval() == old(self).spec_interval(),
            exists|returned: Seq<int>|
                {
                    let (m, outcome) = multi_request(
                        #[trigger] after_returns(old(self).spec_state()@, returned),
                        MAX_SIMULTANEOUS as nat,
                        old(self).spec_interval()@,
                        for_time@,
                        num_permits as nat,
                    );
                    &&& returned.len() <= old(self).spec_state()@.active
                    &&& final(self).spec_state()@ == m
                    &&& match outcome {
                        Ok(()) => r matches Ok(p) && p.spec_num_permits() == num_permits,
                        Err(next) => is_refusal(r, next),
                    }
                },
    {
        self.drain_returned_permits();
        proof {
            use_type_invariant(&*self);
        }
        let mut state = State::default();
        std::mem::swap(&mut state, &mut self.state);
        let outcome = state.try_take_permits(MAX_SIMULTANEOUS, for_time, &self.interval, num_permits);
        self.state = state;
        match outcome {
            Ok(()) => Ok(MultiPermit::new(clone_sender(&self.sender), num_permits)),
            Err(next_time) => Err(Error::NoPermitAvailable(next_time)),
        }
    }

    /// Attempts to acquire a single permit now.
    pub fn try_acquire_permit(&mut self) -> (r: Result<SinglePermit, Error>)
        ensures
            final(self).spec_interval() == old(self).spec_interval(),
            exists|returned: Seq<int>, now: Timestamp|
                {
                    let (m, outcome) = #[trigger] single_request(
                        after_returns(old(self).spec_state()@, returned),
                        MAX_SIMULTANEOUS as nat,
                        old(self).spec_interval()@,
                        now@,
                    );
                    &&& returned.len() <= old(self).spec_state()@.active
                    &&& final(self).spec_state()@ == m
                    &&& match outcome {
                        Ok(()) => r is Ok,
                        Err(next) => is_refusal(r, next),
                    }
                },
    {
        let now = current_time();
        self.try_acquire_permit_impl(&now)
    }

    /// Attempts to acquire `num_permits` permits at once, now.
    pub fn try_acquire_permits(&mut self, num_permits: usize) -> (r: Result<MultiPermit, Error>)
        requires
            0 < num_permits <= MAX_SIMULTANEOUS,
        ensures
            final(self).spec_interval() == old(self).spec_interval(),
            exists|returned: Seq<int>, now: Timestamp|
                {
                    let (m, outcome) = #[trigger] multi_request(
                        after_returns(old(self).spec_state()@, returned),
                        MAX_SIMULTANEOUS as nat,
                        old(self).spec_interval()@,
                        now@,
                        num_permits as nat,
                    );
                    &&& returned.len() <= old(self).spec_state()@.active
                    &&& final(self).spec_state()@ == m
                    &&& match outcome {
                        Ok(()) => r matches Ok(p) && p.spec_num_permits() == num_permits,
                        Err(next) => is_refusal(r, next),
                    }
                },
    {
        let now = current_time();
        self.try_acquire_permits_impl(&now, num_permits)
    }
}

} // verus!
