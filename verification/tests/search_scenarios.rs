use ab_av1::sample::Measurement;
use ab_av1::search::{run_search, SearchConfig, SearchError, SearchState, SearchStep};
use ab_av1::transform::Transform;

fn measurement(score: u64, size_ratio: u64) -> Measurement {
    Measurement {
        score,
        size_ratio,
        predicted_size: 1_000_000,
        predicted_duration: 60_000,
        from_cache: false,
    }
}

fn linear_config(min_value: u64, max_value: u64, increment: u64) -> SearchConfig {
    SearchConfig {
        min_value,
        max_value,
        increment,
        increment_milli: increment * 1000,
        transform: Transform::Linear,
        min_score: 95_000,
        max_size_ratio: 80_000,
        thorough: false,
    }
}

/// Runs the controller against a stub oracle until it terminates, returning
/// the outcome and the number of oracle calls made.
fn drive(
    mut state: SearchState,
    oracle: impl Fn(u64) -> Measurement,
    max_calls: usize,
) -> (SearchStep, usize) {
    let mut calls = 0;
    loop {
        assert!(calls < max_calls, "search exceeded {max_calls} oracle calls");
        let m = oracle(state.sample.val);
        calls += 1;
        match state.evaluate(m) {
            SearchStep::Continue => {}
            done => return (done, calls),
        }
    }
}

/// A score rising monotonically with the value, crossing the 95.0 target
/// between 500 and 600; every encode fits the size budget.
fn rising_score_oracle(val: u64) -> Measurement {
    measurement(80_000 + 28 * val, 50_000)
}

#[test]
fn linear_search_initial_trial_is_midpoint() {
    let state = SearchState::new(linear_config(100, 1000, 100)).unwrap();
    assert_eq!(state.sample.q, 550);
    assert_eq!(state.sample.val, 500);
}

#[test]
fn linear_search_converges_to_smallest_passing_value() {
    // Unit increment: the geometric tolerance stays tight, so the search
    // interpolates down to the exact crossing.
    let state = SearchState::new(linear_config(100, 1000, 1)).unwrap();
    let (outcome, calls) = drive(state, rising_score_oracle, 64);
    match outcome {
        SearchStep::Accept(s) => {
            // 536 is the smallest value whose score exceeds 95.0.
            assert_eq!(s.br(), 536);
            assert!(s.enc.score > 95_000);
            assert!(s.enc.size_ratio <= 80_000);
        }
        other => panic!("expected acceptance, got {other:?}"),
    }
    assert!(calls <= 6, "took {calls} oracle calls");
}

#[test]
fn linear_search_with_coarse_increment_accepts_within_tolerance() {
    // Increment 100: the tolerance schedule starts at ten whole points, so
    // the first passing sample is within tolerance.
    let state = SearchState::new(linear_config(100, 1000, 100)).unwrap();
    let (outcome, calls) = drive(state, rising_score_oracle, 64);
    match outcome {
        SearchStep::Accept(s) => {
            assert_eq!(s.br(), 1000);
            assert!(s.enc.score > 95_000);
            assert!(s.enc.size_ratio <= 80_000);
        }
        other => panic!("expected acceptance, got {other:?}"),
    }
    assert!(calls <= 6, "took {calls} oracle calls");
}

#[test]
fn oversized_everywhere_is_classified_failure() {
    // The oracle never fits the size budget; the verdict must be a
    // classified failure carrying the last attempt, not a success.
    let state = SearchState::new(linear_config(100, 1000, 100)).unwrap();
    let (outcome, calls) = drive(state, |_| measurement(99_000, 95_000), 64);
    match outcome {
        SearchStep::NoGoodValue(last) => {
            assert_eq!(last.br(), 100);
            assert_eq!(last.enc.size_ratio, 95_000);
        }
        other => panic!("expected a classified failure, got {other:?}"),
    }
    assert_eq!(calls, 2);
}

#[test]
fn already_good_at_minimum_accepts_near_min_value() {
    let cfg = SearchConfig {
        min_value: 1,
        max_value: 100,
        increment: 1,
        increment_milli: 1000,
        transform: Transform::Linear,
        min_score: 95_000,
        max_size_ratio: 80_000,
        thorough: false,
    };
    let state = SearchState::new(cfg).unwrap();
    let (outcome, calls) = drive(state, |_| measurement(99_900, 50_000), 64);
    match outcome {
        SearchStep::Accept(s) => assert_eq!(s.br(), 1),
        other => panic!("expected acceptance, got {other:?}"),
    }
    assert!(calls <= 2, "took {calls} oracle calls");
}

#[test]
fn sqrt_transform_initial_trial_is_coordinate_midpoint() {
    // min 1.0, max 100.0 in tenths: the first trial comes from the midpoint
    // of the squared coordinates, not the naive value midpoint.
    let cfg = SearchConfig {
        min_value: 10,
        max_value: 1000,
        increment: 1,
        increment_milli: 100,
        transform: Transform::Sqrt,
        min_score: 95_000,
        max_size_ratio: 80_000,
        thorough: false,
    };
    let state = SearchState::new(cfg).unwrap();
    assert_eq!(state.sample.min_q, 100);
    assert_eq!(state.sample.max_q, 1_000_000);
    assert_eq!(state.sample.q, 500_050);
    // floor(sqrt(500050)) == 707, i.e. 70.7 in the caller's units.
    assert_eq!(state.sample.val, 707);
    assert_ne!(state.sample.val, 505, "must not be the naive midpoint");
}

#[test]
fn thorough_search_narrows_to_the_crossing() {
    let cfg = SearchConfig {
        thorough: true,
        ..linear_config(100, 1000, 100)
    };
    let state = SearchState::new(cfg).unwrap();
    let (outcome, calls) = drive(state, rising_score_oracle, 64);
    match outcome {
        SearchStep::Accept(s) => {
            assert_eq!(s.br(), 600);
            assert!(s.enc.score > 95_000);
        }
        other => panic!("expected acceptance, got {other:?}"),
    }
    assert_eq!(calls, 9);
}

#[test]
fn bad_sample_one_step_below_upper_bound_accepts_the_upper_attempt() {
    let cfg = SearchConfig {
        min_value: 1,
        max_value: 10,
        increment: 1,
        increment_milli: 1000,
        transform: Transform::Linear,
        min_score: 95_000,
        max_size_ratio: 80_000,
        thorough: true,
    };
    let state = SearchState::new(cfg).unwrap();
    let oracle = |val: u64| {
        if val >= 7 {
            measurement(96_000, 50_000)
        } else {
            measurement(94_000, 50_000)
        }
    };
    let (outcome, calls) = drive(state, oracle, 64);
    match outcome {
        SearchStep::Accept(s) => {
            assert_eq!(s.br(), 7);
            assert_eq!(s.enc.score, 96_000);
        }
        other => panic!("expected acceptance, got {other:?}"),
    }
    assert_eq!(calls, 4);
}

#[test]
fn trial_values_stay_inside_the_range() {
    // The range floor is not a multiple of the increment: floor quantization
    // alone would try 100, below the user's floor of 150; the trial value is
    // clamped back up to the floor instead. Thorough mode keeps the
    // tolerance tight so the search actually walks down to the floor.
    let cfg = SearchConfig {
        thorough: true,
        ..linear_config(150, 1050, 100)
    };
    let state = SearchState::new(cfg).unwrap();
    assert_eq!(state.sample.q, 600);
    assert_eq!(state.sample.val, 600);
    let mut state = state;
    let mut visited = vec![];
    let outcome = loop {
        let val = state.sample.val;
        visited.push(val);
        match state.evaluate(measurement(99_900, 50_000)) {
            SearchStep::Continue => {}
            done => break done,
        }
    };
    for val in &visited {
        assert!((150..=1050).contains(val), "trial {val} left the range");
    }
    match outcome {
        SearchStep::Accept(s) => assert_eq!(s.br(), 150),
        other => panic!("expected acceptance, got {other:?}"),
    }
}

#[test]
fn near_flat_scores_walk_one_coordinate_at_a_time() {
    // Scores sit exactly on the target everywhere except at the ceiling, so
    // every interpolation clamps to one step above the failing bracket: the
    // bracket narrows by only one coordinate per oracle call. This is the
    // worst case that makes the termination bound linear in the coordinate
    // range, not logarithmic.
    let cfg = SearchConfig {
        thorough: true,
        ..linear_config(100, 1000, 1)
    };
    let state = SearchState::new(cfg).unwrap();
    let oracle = |val: u64| {
        if val >= 1000 {
            measurement(95_100, 50_000)
        } else {
            measurement(95_000, 50_000)
        }
    };
    let (outcome, calls) = drive(state, oracle, 2000);
    match outcome {
        SearchStep::Accept(s) => {
            assert_eq!(s.br(), 1000);
            assert_eq!(s.enc.score, 95_100);
        }
        other => panic!("expected acceptance, got {other:?}"),
    }
    assert!(calls > 100, "expected a linear walk, took only {calls} calls");
    assert!(calls <= 902, "must stay within the range-width bound");
}

#[test]
fn ln_transform_search_accepts_good_minimum() {
    let cfg = SearchConfig {
        min_value: 1,
        max_value: 10,
        increment: 1,
        increment_milli: 1000,
        transform: Transform::Ln,
        min_score: 95_000,
        max_size_ratio: 80_000,
        thorough: false,
    };
    let state = SearchState::new(cfg).unwrap();
    assert_eq!(state.sample.min_q, 2);
    assert_eq!(state.sample.max_q, 1024);
    assert_eq!(state.sample.q, 513);
    assert_eq!(state.sample.val, 9);
    let (outcome, calls) = drive(state, |_| measurement(99_900, 50_000), 64);
    match outcome {
        SearchStep::Accept(s) => assert_eq!(s.br(), 1),
        other => panic!("expected acceptance, got {other:?}"),
    }
    assert!(calls <= 2, "took {calls} oracle calls");
}

#[test]
fn run_search_reports_no_good_value() {
    let cfg = linear_config(100, 1000, 100);
    // Enough pre-recorded replies for every oracle call the controller
    // could possibly make: the coordinate range width plus two.
    let measurements = vec![measurement(99_000, 95_000); 902];
    match run_search(cfg, &measurements) {
        Err(SearchError::NoGoodValue(last)) => assert_eq!(last.br(), 100),
        other => panic!("expected a classified failure, got {other:?}"),
    }
}

#[test]
fn run_search_accepts_good_minimum() {
    let cfg = SearchConfig {
        min_value: 1,
        max_value: 100,
        increment: 1,
        increment_milli: 1000,
        transform: Transform::Linear,
        min_score: 95_000,
        max_size_ratio: 80_000,
        thorough: false,
    };
    let measurements = vec![measurement(99_900, 50_000); 101];
    match run_search(cfg, &measurements) {
        Ok(s) => assert_eq!(s.br(), 1),
        other => panic!("expected acceptance, got {other:?}"),
    }
}

#[test]
fn inverted_bounds_are_rejected_before_any_oracle_call() {
    let cfg = linear_config(1000, 100, 1);
    match SearchState::new(cfg) {
        Err(SearchError::InvalidConfig) => {}
        Err(other) => panic!("expected an invalid configuration, got {other:?}"),
        Ok(_) => panic!("expected an invalid configuration, got a state"),
    }
}

#[test]
fn log_transform_domain_is_validated() {
    let cfg = SearchConfig {
        min_value: 1,
        max_value: 70,
        increment: 1,
        increment_milli: 1000,
        transform: Transform::Ln,
        min_score: 95_000,
        max_size_ratio: 80_000,
        thorough: false,
    };
    match SearchState::new(cfg) {
        Err(SearchError::InvalidConfig) => {}
        Err(other) => panic!("expected an invalid configuration, got {other:?}"),
        Ok(_) => panic!("expected an invalid configuration, got a state"),
    }
    let ok = SearchConfig {
        max_value: 40,
        ..cfg
    };
    assert!(SearchState::new(ok).is_ok());
}
