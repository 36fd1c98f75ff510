use protobench::schedule::ScheduleConfig;
use protobench::ConfigError;

#[test]
fn scenario_three_step_ramp_grows_strictly() {
    let schedule = ScheduleConfig {
        start_req_per_sec: 1,
        stop_req_per_sec: 10,
        steps: 3,
        secs_per_step: 2,
    };
    let steps = schedule.steps(64);
    assert_eq!(steps.len(), 3);
    let rates: Vec<u64> = steps.iter().map(|s| s.rate_msgs_per_sec).collect();
    assert_eq!(rates, vec![3, 4, 5]);
    let counts: Vec<u64> = steps.iter().map(|s| s.message_count).collect();
    assert_eq!(counts, vec![6, 8, 10]);
    assert!(counts[0] < counts[1] && counts[1] < counts[2]);
    for step in &steps {
        assert_eq!(step.duration_secs, 2);
        assert_eq!(step.message_size, 64);
    }
}

#[test]
fn the_ramp_formula_is_start_times_step_plus_increment() {
    // With a start rate of zero the formula yields a flat ramp: every
    // step offers exactly one increment, never the stop rate.
    let schedule = ScheduleConfig {
        start_req_per_sec: 0,
        stop_req_per_sec: 100,
        steps: 4,
        secs_per_step: 1,
    };
    let steps = schedule.steps(16);
    let rates: Vec<u64> = steps.iter().map(|s| s.rate_msgs_per_sec).collect();
    assert_eq!(rates, vec![25, 25, 25, 25]);
}

#[test]
fn counts_floor_the_exact_rate_times_the_duration() {
    let schedule = ScheduleConfig {
        start_req_per_sec: 2,
        stop_req_per_sec: 9,
        steps: 2,
        secs_per_step: 3,
    };
    // The exact increment is (9 - 2) / 2 = 3.5, so the exact rates are
    // 3.5 and 5.5: the counts floor 3.5 * 3 = 10.5 and 5.5 * 3 = 16.5
    // once, at the end, while the reported rates round the rate itself.
    let steps = schedule.steps(16);
    assert_eq!(steps[0].rate_msgs_per_sec, 3);
    assert_eq!(steps[1].rate_msgs_per_sec, 5);
    assert_eq!(steps[0].message_count, 10);
    assert_eq!(steps[1].message_count, 16);
}

#[test]
fn validated_steps_matches_the_unchecked_layout() {
    let schedule = ScheduleConfig {
        start_req_per_sec: 1,
        stop_req_per_sec: 10,
        steps: 3,
        secs_per_step: 2,
    };
    assert_eq!(schedule.validated_steps(64).unwrap(), schedule.steps(64));
}

#[test]
fn validation_rejects_an_empty_schedule() {
    let schedule = ScheduleConfig {
        start_req_per_sec: 1,
        stop_req_per_sec: 10,
        steps: 0,
        secs_per_step: 2,
    };
    assert_eq!(schedule.validated_steps(64), Err(ConfigError::NoSteps));
}

#[test]
fn validation_rejects_a_payload_without_room() {
    let schedule = ScheduleConfig {
        start_req_per_sec: 1,
        stop_req_per_sec: 10,
        steps: 3,
        secs_per_step: 2,
    };
    assert_eq!(
        schedule.validated_steps(8),
        Err(ConfigError::MessageSizeTooSmall)
    );
}

#[test]
fn validation_rejects_a_descending_ramp() {
    let schedule = ScheduleConfig {
        start_req_per_sec: 10,
        stop_req_per_sec: 1,
        steps: 3,
        secs_per_step: 2,
    };
    assert_eq!(
        schedule.validated_steps(64),
        Err(ConfigError::RampNotAscending)
    );
}

#[test]
fn validation_rejects_rates_beyond_the_counters() {
    // The last step's rate itself overflows.
    let schedule = ScheduleConfig {
        start_req_per_sec: u64::MAX,
        stop_req_per_sec: u64::MAX,
        steps: 3,
        secs_per_step: 1,
    };
    assert_eq!(schedule.validated_steps(64), Err(ConfigError::RateOverflow));
    // The rates fit, but a step's message count does not.
    let schedule2 = ScheduleConfig {
        start_req_per_sec: u64::MAX,
        stop_req_per_sec: u64::MAX,
        steps: 2,
        secs_per_step: 2,
    };
    assert_eq!(schedule2.validated_steps(64), Err(ConfigError::RateOverflow));
}
