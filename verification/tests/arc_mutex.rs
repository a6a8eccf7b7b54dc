use judicious::time::{Interval, Timestamp};
use judicious::trailing_edge::unfair::arc_mutex::{Error, RateLimiter, SinglePermit, State};

fn dt_from_str(text: &str) -> Timestamp {
    let utc = chrono::DateTime::parse_from_rfc3339(text)
        .unwrap()
        .naive_utc()
        .and_utc();
    Timestamp::from_unix(utc.timestamp(), utc.timestamp_subsec_nanos()).unwrap()
}

#[test]
fn arc_mutex_can_acquire_permit_immediately_after_normal_construction() {
    let mut rate_limiter = RateLimiter::<42>::new(Interval::seconds(43));

    let _permit = rate_limiter
        .try_acquire_permit_impl(&dt_from_str("2022-01-02 03:04:05Z"))
        .unwrap();
}

#[test]
fn arc_mutex_cannot_acquire_permit_immediately_after_exhausted_construction() {
    let start_time = dt_from_str("2022-01-02 03:04:05Z");
    let interval = Interval::seconds(43);
    let mut rate_limiter = RateLimiter::<42>::new_exhausted_impl(interval, start_time);

    let result = rate_limiter.try_acquire_permit_impl(&start_time);

    let Err(Error::NoPermitAvailable(next_permit_time)) = result else {
        panic!("Expected NoPermitAvailable error");
    };
    assert_eq!(
        next_permit_time,
        Some(dt_from_str("2022-01-02 03:04:48Z"))
    );
}

#[test]
fn arc_mutex_permit_can_be_held_while_owner_is_used_mutably() {


    struct Writer {
        rate_limiter: RateLimiter<1>,
        messages_sent: usize,
    }

    impl Writer {
        fn send(&mut self, _permit: SinglePermit) {
            self.messages_sent += 1;
        }
    }

    let mut writer = Writer {
        rate_limiter: RateLimiter::new(Interval::milliseconds(100)),
        messages_sent: 0,
    };

    let permit = writer.rate_limiter.try_acquire_permit().unwrap();
    writer.send(permit);

    assert_eq!(writer.messages_sent, 1);
}

#[test]
fn arc_mutex_can_acquire_permit_from_empty_rate_limiter() {
    let initial_state = State {
        active_connection_count: 0,
        expiry_times: std::collections::VecDeque::default(),
    };
    let mut rate_limiter = RateLimiter::<42>::from_state(Interval::seconds(43), initial_state).unwrap();

    let _permit = rate_limiter
        .try_acquire_permit_impl(&dt_from_str("2022-01-02 03:04:05Z"))
        .unwrap();

    assert_eq!(
        *rate_limiter.state(),
        State {
            active_connection_count: 1,
            expiry_times: std::collections::VecDeque::default()
        }
    );
}

#[test]
fn arc_mutex_can_acquire_permit_when_exactly_1_connection_is_available() {
    const CONNECTION_COUNT: usize = 10;
    let initial_state = State {
        active_connection_count: CONNECTION_COUNT - 1,
        expiry_times: std::collections::VecDeque::default(),
    };
    let mut rate_limiter = RateLimiter::<CONNECTION_COUNT>::from_state(Interval::seconds(43), initial_state).unwrap();

    let _permit = rate_limiter
        .try_acquire_permit_impl(&dt_from_str("2022-01-02 03:04:05Z"))
        .unwrap();

    assert_eq!(
        *rate_limiter.state(),
        State {
            active_connection_count: CONNECTION_COUNT,
            expiry_times: std::collections::VecDeque::default()
        }
    );
}

#[test]
fn arc_mutex_can_acquire_permit_when_expiry_times_is_nearly_full() {
    let current_time = dt_from_str("2022-01-02 03:04:05Z");
    let initial_expiry_times = std::collections::VecDeque::from([
        current_time,
        current_time,
        current_time,
        current_time,
    ]);
    let initial_state = State {
        active_connection_count: 0,
        expiry_times: initial_expiry_times.clone(),
    };
    let mut rate_limiter = RateLimiter::<5>::from_state(Interval::seconds(5), initial_state).unwrap();

    let _permit = rate_limiter.try_acquire_permit_impl(&current_time).unwrap();

    assert_eq!(
        *rate_limiter.state(),
        State {
            active_connection_count: 1,
            expiry_times: initial_expiry_times
        }
    );
}

#[test]
fn arc_mutex_can_acquire_permit_from_full_expiries_after_interval_has_passed() {
    let initial_expiry_times = std::collections::VecDeque::from([
        dt_from_str("2022-01-02 03:03:59Z"),
        dt_from_str("2022-01-02 03:04:00Z"),
        dt_from_str("2022-01-02 03:04:01Z"),
        dt_from_str("2022-01-02 03:04:02Z"),
        dt_from_str("2022-01-02 03:04:03Z"),
        dt_from_str("2022-01-02 03:04:04Z"),
    ]);
    let initial_state = State {
        active_connection_count: 0,
        expiry_times: initial_expiry_times.clone(),
    };
    let mut rate_limiter = RateLimiter::<6>::from_state(Interval::seconds(5), initial_state).unwrap();

    let _permit = rate_limiter
        .try_acquire_permit_impl(&dt_from_str("2022-01-02 03:04:05Z"))
        .unwrap();

    assert_eq!(
        *rate_limiter.state(),
        State {
            active_connection_count: 1,
            expiry_times: initial_expiry_times.into_iter().skip(1).collect()
        }
    );
}

#[test]
fn arc_mutex_cannot_acquire_permit_when_all_connections_are_active() {
    const CONNECTION_COUNT: usize = 10;
    let initial_state = State {
        active_connection_count: CONNECTION_COUNT,
        expiry_times: std::collections::VecDeque::default(),
    };
    let mut rate_limiter = RateLimiter::<CONNECTION_COUNT>::from_state(Interval::seconds(43), initial_state).unwrap();

    let result = rate_limiter.try_acquire_permit_impl(&dt_from_str("2022-01-02 03:04:05Z"));

    let Err(Error::NoPermitAvailable(next_permit_time)) = result else {
        panic!("Expected NoPermitAvailable error");
    };
    assert_eq!(next_permit_time, None);

    assert_eq!(
        *rate_limiter.state(),
        State {
            active_connection_count: CONNECTION_COUNT,
            expiry_times: std::collections::VecDeque::default()
        }
    );
}

#[test]
fn arc_mutex_cannot_acquire_permit_when_previous_permits_are_not_expired() {
    let initial_expiry_times = std::collections::VecDeque::from([
        dt_from_str("2022-01-02 03:04:03Z"),
        dt_from_str("2022-01-02 03:04:04Z"),
    ]);
    let initial_state = State {
        active_connection_count: 0,
        expiry_times: initial_expiry_times.clone(),
    };
    let mut rate_limiter = RateLimiter::<2>::from_state(Interval::seconds(5), initial_state).unwrap();

    let result = rate_limiter.try_acquire_permit_impl(&dt_from_str("2022-01-02 03:04:05Z"));

    let Err(Error::NoPermitAvailable(next_permit_time)) = result else {
        panic!("Expected NoPermitAvailable error");
    };
    assert_eq!(
        next_permit_time,
        Some(dt_from_str("2022-01-02 03:04:08Z"))
    );

    assert_eq!(
        *rate_limiter.state(),
        State {
            active_connection_count: 0,
            expiry_times: initial_expiry_times
        }
    );
}

#[test]
fn arc_mutex_cannot_acquire_permit_when_all_expiry_times_are_exactly_at_current_time() {
    let current_time = dt_from_str("2022-01-02 03:04:05Z");
    let initial_expiry_times = std::collections::VecDeque::from([
        current_time,
        current_time,
        current_time,
        current_time,
        current_time,
    ]);
    let initial_state = State {
        active_connection_count: 0,
        expiry_times: initial_expiry_times.clone(),
    };
    let mut rate_limiter = RateLimiter::<5>::from_state(Interval::seconds(5), initial_state).unwrap();

    let result = rate_limiter.try_acquire_permit_impl(&current_time);

    let Err(Error::NoPermitAvailable(next_permit_time)) = result else {
        panic!("Expected NoPermitAvailable error");
    };
    assert_eq!(
        next_permit_time,
        Some(dt_from_str("2022-01-02 03:04:10Z"))
    );

    assert_eq!(
        *rate_limiter.state(),
        State {
            active_connection_count: 0,
            expiry_times: initial_expiry_times
        }
    );
}

#[test]
fn arc_mutex_cannot_acquire_permit_when_all_expiry_times_are_about_to_be_retired() {
    let current_time = dt_from_str("2022-01-02 03:04:05Z");
    let initial_expiry_times = std::collections::VecDeque::from([
        dt_from_str("2022-01-02 03:04:00Z"),
        dt_from_str("2022-01-02 03:04:00Z"),
        dt_from_str("2022-01-02 03:04:00Z"),
        dt_from_str("2022-01-02 03:04:00Z"),
        dt_from_str("2022-01-02 03:04:00Z"),
    ]);
    let initial_state = State {
        active_connection_count: 0,
        expiry_times: initial_expiry_times.clone(),
    };
    let mut rate_limiter = RateLimiter::<5>::from_state(Interval::seconds(5), initial_state).unwrap();

    let result = rate_limiter.try_acquire_permit_impl(&current_time);

    let Err(Error::NoPermitAvailable(next_permit_time)) = result else {
        panic!("Expected NoPermitAvailable error");
    };
    assert_eq!(
        next_permit_time,
        Some(dt_from_str("2022-01-02 03:04:05Z"))
    );

    assert_eq!(
        *rate_limiter.state(),
        State {
            active_connection_count: 0,
            expiry_times: initial_expiry_times
        }
    );
}

#[test]
fn arc_mutex_cannot_acquire_permit_when_sum_of_active_connections_and_expired_connections_equals_max() {
    let initial_expiry_times = std::collections::VecDeque::from([
        dt_from_str("2022-01-02 03:04:03Z"),
        dt_from_str("2022-01-02 03:04:04Z"),
    ]);
    let initial_state = State {
        active_connection_count: 8,
        expiry_times: initial_expiry_times.clone(),
    };
    let mut rate_limiter = RateLimiter::<10>::from_state(Interval::seconds(5), initial_state).unwrap();

    let result = rate_limiter.try_acquire_permit_impl(&dt_from_str("2022-01-02 03:04:05Z"));

    let Err(Error::NoPermitAvailable(next_permit_time)) = result else {
        panic!("Expected NoPermitAvailable error");
    };
    assert_eq!(
        next_permit_time,
        Some(dt_from_str("2022-01-02 03:04:08Z"))
    );

    assert_eq!(
        *rate_limiter.state(),
        State {
            active_connection_count: 8,
            expiry_times: initial_expiry_times
        }
    );
}

#[test]
fn arc_mutex_dropping_permit_updates_the_state() {
    let initial_state = State {
        active_connection_count: 1,
        expiry_times: std::collections::VecDeque::default(),
    };
    let mut rate_limiter = RateLimiter::<42>::from_state(Interval::seconds(43), initial_state).unwrap();

    let mut permit = rate_limiter
        .try_acquire_permit_impl(&dt_from_str("2022-01-02 03:04:05Z"))
        .unwrap();

    assert_eq!(
        *rate_limiter.state(),
        State {
            active_connection_count: 2,
            expiry_times: std::collections::VecDeque::default()
        }
    );

    permit.drop_impl(&mut rate_limiter, dt_from_str("2022-01-02 03:04:06Z"));

    assert_eq!(
        *rate_limiter.state(),
        State {
            active_connection_count: 1,
            expiry_times: std::collections::VecDeque::from([dt_from_str(
                "2022-01-02 03:04:06Z"
            )])
        }
    );
}

#[test]
fn arc_mutex_can_acquire_5_permits_when_all_connections_are_available() {
    let initial_state = State {
        active_connection_count: 0,
        expiry_times: std::collections::VecDeque::default(),
    };
    let mut rate_limiter = RateLimiter::<42>::from_state(Interval::seconds(43), initial_state).unwrap();

    let _permit = rate_limiter
        .try_acquire_permits_impl(&dt_from_str("2022-01-02 03:04:05Z"), 5)
        .unwrap();

    assert_eq!(
        *rate_limiter.state(),
        State {
            active_connection_count: 5,
            expiry_times: std::collections::VecDeque::default()
        }
    );
}

#[test]
fn arc_mutex_can_acquire_5_permits_when_exactly_5_connections_are_available() {
    const CAPACITY: usize = 42;
    const REQUESTED: usize = 5;

    let initial_state = State {
        active_connection_count: CAPACITY - REQUESTED,
        expiry_times: std::collections::VecDeque::default(),
    };
    let mut rate_limiter = RateLimiter::<CAPACITY>::from_state(Interval::seconds(43), initial_state).unwrap();

    let _permit = rate_limiter
        .try_acquire_permits_impl(&dt_from_str("2022-01-02 03:04:05Z"), REQUESTED)
        .unwrap();

    assert_eq!(
        *rate_limiter.state(),
        State {
            active_connection_count: CAPACITY,
            expiry_times: std::collections::VecDeque::default()
        }
    );
}

#[test]
fn arc_mutex_can_acquire_5_permits_when_all_expiries_slots_are_empty() {
    let initial_state = State {
        active_connection_count: 0,
        expiry_times: std::collections::VecDeque::default(),
    };
    let mut rate_limiter = RateLimiter::<42>::from_state(Interval::seconds(43), initial_state).unwrap();

    let _permit = rate_limiter
        .try_acquire_permits_impl(&dt_from_str("2022-01-02 03:04:05Z"), 5)
        .unwrap();

    assert_eq!(
        *rate_limiter.state(),
        State {
            active_connection_count: 5,
            expiry_times: std::collections::VecDeque::default()
        }
    );
}

#[test]
fn arc_mutex_can_acquire_5_permits_when_exactly_5_expiry_slots_are_available() {
    const CAPACITY: usize = 10;
    const REQUESTED: usize = 5;

    let initial_expiry_times = std::collections::VecDeque::from([
        dt_from_str("2022-01-02 03:04:00Z"),
        dt_from_str("2022-01-02 03:04:01Z"),
        dt_from_str("2022-01-02 03:04:02Z"),
        dt_from_str("2022-01-02 03:04:03Z"),
        dt_from_str("2022-01-02 03:04:04Z"),
    ]);

    let initial_state = State {
        active_connection_count: 0,
        expiry_times: initial_expiry_times.clone(),
    };
    let mut rate_limiter = RateLimiter::<CAPACITY>::from_state(Interval::seconds(43), initial_state).unwrap();

    let _permit = rate_limiter
        .try_acquire_permits_impl(&dt_from_str("2022-01-02 03:04:05Z"), REQUESTED)
        .unwrap();

    assert_eq!(
        *rate_limiter.state(),
        State {
            active_connection_count: REQUESTED,
            expiry_times: initial_expiry_times
        }
    );
}

#[test]
fn arc_mutex_can_acquire_max_permits() {
    const CAPACITY: usize = 10;

    let initial_state = State {
        active_connection_count: 0,
        expiry_times: std::collections::VecDeque::default(),
    };
    let mut rate_limiter = RateLimiter::<CAPACITY>::from_state(Interval::seconds(43), initial_state).unwrap();

    let _permit = rate_limiter
        .try_acquire_permits_impl(&dt_from_str("2022-01-02 03:04:05Z"), CAPACITY)
        .unwrap();

    assert_eq!(
        *rate_limiter.state(),
        State {
            active_connection_count: CAPACITY,
            expiry_times: std::collections::VecDeque::default(),
        }
    );
}

#[test]
fn arc_mutex_cannot_acquire_5_permits_when_0_connections_are_available() {
    const CAPACITY: usize = 42;

    let initial_state = State {
        active_connection_count: CAPACITY,
        expiry_times: std::collections::VecDeque::default(),
    };
    let mut rate_limiter = RateLimiter::<CAPACITY>::from_state(Interval::seconds(43), initial_state).unwrap();

    let result =
        rate_limiter.try_acquire_permits_impl(&dt_from_str("2022-01-02 03:04:05Z"), 5);

    let Err(Error::NoPermitAvailable(next_permit_time)) = result else {
        panic!("Expected NoPermitAvailable error");
    };
    assert_eq!(next_permit_time, None);

    assert_eq!(
        *rate_limiter.state(),
        State {
            active_connection_count: CAPACITY,
            expiry_times: std::collections::VecDeque::default()
        }
    );
}

#[test]
fn arc_mutex_cannot_acquire_5_permits_when_1_connection_is_available() {
    const CAPACITY: usize = 42;

    let initial_state = State {
        active_connection_count: CAPACITY - 1,
        expiry_times: std::collections::VecDeque::default(),
    };
    let mut rate_limiter = RateLimiter::<CAPACITY>::from_state(Interval::seconds(43), initial_state).unwrap();

    let result =
        rate_limiter.try_acquire_permits_impl(&dt_from_str("2022-01-02 03:04:05Z"), 5);

    let Err(Error::NoPermitAvailable(next_permit_time)) = result else {
        panic!("Expected NoPermitAvailable error");
    };
    assert_eq!(next_permit_time, None);

    assert_eq!(
        *rate_limiter.state(),
        State {
            active_connection_count: CAPACITY - 1,
            expiry_times: std::collections::VecDeque::default()
        }
    );
}

#[test]
fn arc_mutex_cannot_acquire_5_permits_when_4_connections_are_available() {
    const CAPACITY: usize = 42;

    let initial_state = State {
        active_connection_count: CAPACITY - 4,
        expiry_times: std::collections::VecDeque::default(),
    };
    let mut rate_limiter = RateLimiter::<CAPACITY>::from_state(Interval::seconds(43), initial_state).unwrap();

    let result =
        rate_limiter.try_acquire_permits_impl(&dt_from_str("2022-01-02 03:04:05Z"), 5);

    let Err(Error::NoPermitAvailable(next_permit_time)) = result else {
        panic!("Expected NoPermitAvailable error");
    };
    assert_eq!(next_permit_time, None);

    assert_eq!(
        *rate_limiter.state(),
        State {
            active_connection_count: CAPACITY - 4,
            expiry_times: std::collections::VecDeque::default()
        }
    );
}

#[test]
fn arc_mutex_cannot_acquire_5_permits_when_0_expiry_slots_are_available() {
    const CAPACITY: usize = 10;

    let initial_expiry_times = std::collections::VecDeque::from([
        dt_from_str("2022-01-02 03:03:55Z"),
        dt_from_str("2022-01-02 03:03:56Z"),
        dt_from_str("2022-01-02 03:03:57Z"),
        dt_from_str("2022-01-02 03:03:58Z"),
        dt_from_str("2022-01-02 03:03:59Z"),
        dt_from_str("2022-01-02 03:04:00Z"),
        dt_from_str("2022-01-02 03:04:01Z"),
        dt_from_str("2022-01-02 03:04:02Z"),
        dt_from_str("2022-01-02 03:04:03Z"),
        dt_from_str("2022-01-02 03:04:04Z"),
    ]);

    let initial_state = State {
        active_connection_count: 0,
        expiry_times: initial_expiry_times.clone(),
    };
    let mut rate_limiter = RateLimiter::<CAPACITY>::from_state(Interval::seconds(15), initial_state).unwrap();

    let result =
        rate_limiter.try_acquire_permits_impl(&dt_from_str("2022-01-02 03:04:05Z"), 5);

    let Err(Error::NoPermitAvailable(next_permit_time)) = result else {
        panic!("Expected NoPermitAvailable error");
    };
    assert_eq!(
        next_permit_time,
        Some(dt_from_str("2022-01-02 03:04:14Z"))
    );

    assert_eq!(
        *rate_limiter.state(),
        State {
            active_connection_count: 0,
            expiry_times: initial_expiry_times
        }
    );
}

#[test]
fn arc_mutex_cannot_acquire_5_permits_when_1_expiry_slot_is_available() {
    const CAPACITY: usize = 10;

    let initial_expiry_times = std::collections::VecDeque::from([
        dt_from_str("2022-01-02 03:03:56Z"),
        dt_from_str("2022-01-02 03:03:57Z"),
        dt_from_str("2022-01-02 03:03:58Z"),
        dt_from_str("2022-01-02 03:03:59Z"),
        dt_from_str("2022-01-02 03:04:00Z"),
        dt_from_str("2022-01-02 03:04:01Z"),
        dt_from_str("2022-01-02 03:04:02Z"),
        dt_from_str("2022-01-02 03:04:03Z"),
        dt_from_str("2022-01-02 03:04:04Z"),
    ]);

    let initial_state = State {
        active_connection_count: 0,
        expiry_times: initial_expiry_times.clone(),
    };
    let mut rate_limiter = RateLimiter::<CAPACITY>::from_state(Interval::seconds(15), initial_state).unwrap();

    let result =
        rate_limiter.try_acquire_permits_impl(&dt_from_str("2022-01-02 03:04:05Z"), 5);

    let Err(Error::NoPermitAvailable(next_permit_time)) = result else {
        panic!("Expected NoPermitAvailable error");
    };

    assert_eq!(
        next_permit_time,
        Some(dt_from_str("2022-01-02 03:04:15Z"))
    );

    assert_eq!(
        *rate_limiter.state(),
        State {
            active_connection_count: 0,
            expiry_times: initial_expiry_times
        }
    );
}

#[test]
fn arc_mutex_cannot_acquire_5_permits_when_4_expiry_slots_are_available() {
    const CAPACITY: usize = 10;

    let initial_expiry_times = std::collections::VecDeque::from([
        dt_from_str("2022-01-02 03:03:59Z"),
        dt_from_str("2022-01-02 03:04:00Z"),
        dt_from_str("2022-01-02 03:04:01Z"),
        dt_from_str("2022-01-02 03:04:02Z"),
        dt_from_str("2022-01-02 03:04:03Z"),
        dt_from_str("2022-01-02 03:04:04Z"),
    ]);

    let initial_state = State {
        active_connection_count: 0,
        expiry_times: initial_expiry_times.clone(),
    };
    let mut rate_limiter = RateLimiter::<CAPACITY>::from_state(Interval::seconds(15), initial_state).unwrap();

    let result =
        rate_limiter.try_acquire_permits_impl(&dt_from_str("2022-01-02 03:04:05Z"), 5);

    let Err(Error::NoPermitAvailable(next_permit_time)) = result else {
        panic!("Expected NoPermitAvailable error");
    };

    assert_eq!(
        next_permit_time,
        Some(dt_from_str("2022-01-02 03:04:18Z"))
    );

    assert_eq!(
        *rate_limiter.state(),
        State {
            active_connection_count: 0,
            expiry_times: initial_expiry_times
        }
    );
}

#[test]
fn arc_mutex_cannot_acquire_5_permits_when_sum_of_active_connections_and_expired_connections_is_too_close_to_max() {
    const CAPACITY: usize = 10;

    let initial_expiry_times = std::collections::VecDeque::from([
        dt_from_str("2022-01-02 03:04:02Z"),
        dt_from_str("2022-01-02 03:04:03Z"),
        dt_from_str("2022-01-02 03:04:04Z"),
    ]);
    let initial_state = State {
        active_connection_count: 5,
        expiry_times: initial_expiry_times.clone(),
    };
    let mut rate_limiter = RateLimiter::<CAPACITY>::from_state(Interval::seconds(15), initial_state).unwrap();

    let result =
        rate_limiter.try_acquire_permits_impl(&dt_from_str("2022-01-02 03:04:05Z"), 5);

    let Err(Error::NoPermitAvailable(next_permit_time)) = result else {
        panic!("Expected NoPermitAvailable error");
    };

    assert_eq!(
        next_permit_time,
        Some(dt_from_str("2022-01-02 03:04:19Z"))
    );

    assert_eq!(
        *rate_limiter.state(),
        State {
            active_connection_count: 5,
            expiry_times: initial_expiry_times
        }
    );
}

#[test]
fn arc_mutex_dropping_permits_updates_the_state() {
    let initial_expiry_times = std::collections::VecDeque::from([
        dt_from_str("2022-01-02 03:04:02Z"),
        dt_from_str("2022-01-02 03:04:03Z"),
        dt_from_str("2022-01-02 03:04:04Z"),
    ]);
    let initial_state = State {
        active_connection_count: 5,
        expiry_times: initial_expiry_times.clone(),
    };
    let mut rate_limiter = RateLimiter::<42>::from_state(Interval::seconds(43), initial_state).unwrap();
    let mut permit = rate_limiter
        .try_acquire_permits_impl(&dt_from_str("2022-01-01 12:00:00Z"), 3)
        .unwrap();

    assert_eq!(
        *rate_limiter.state(),
        State {
            active_connection_count: 8,
            expiry_times: initial_expiry_times,
        }
    );

    permit.drop_impl(&mut rate_limiter, dt_from_str("2022-01-01 12:00:05Z"));

    assert_eq!(
        *rate_limiter.state(),
        State {
            active_connection_count: 5,
            expiry_times: std::collections::VecDeque::from([
                dt_from_str("2022-01-02 03:04:02Z"),
                dt_from_str("2022-01-02 03:04:03Z"),
                dt_from_str("2022-01-02 03:04:04Z"),
                dt_from_str("2022-01-01 12:00:05Z"),
                dt_from_str("2022-01-01 12:00:05Z"),
                dt_from_str("2022-01-01 12:00:05Z"),
            ])
        }
    );
}

