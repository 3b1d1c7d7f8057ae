use dataforge::agent::{
    assess_with_rate, validate_ceilings, BreakerTrip, Continuation, RunMode, RunTally, Stage,
};

/// The budget of a run, with the ambiguity threshold as a rate.
struct Budget {
    max_operations: u64,
    max_wall_seconds: u64,
    max_ambiguity_rate: f64,
    ambiguity_sample_floor: u64,
}

fn default_budget() -> Budget {
    Budget {
        max_operations: 5_000_000,
        max_wall_seconds: 60 * 60 * 48,
        max_ambiguity_rate: 0.35,
        ambiguity_sample_floor: 100,
    }
}

fn assess(budget: &Budget, tally: &RunTally) -> Continuation {
    let exceeds = tally.decided != 0
        && (tally.ambiguous as f64 / tally.decided as f64) > budget.max_ambiguity_rate;
    assess_with_rate(
        budget.max_operations,
        budget.max_wall_seconds,
        budget.ambiguity_sample_floor,
        tally,
        exceeds,
    )
}

#[test]
fn the_loop_can_never_block() {
    let budget = default_budget();
    let extremes = [
        RunTally::default(),
        RunTally {
            operations: u64::MAX,
            elapsed_seconds: u64::MAX,
            decided: u64::MAX,
            ambiguous: u64::MAX,
        },
        RunTally {
            operations: 0,
            elapsed_seconds: 0,
            decided: 1_000,
            ambiguous: 1_000,
        },
    ];
    for tally in extremes {
        let continuation = assess(&budget, &tally);
        assert!(
            matches!(
                continuation,
                Continuation::Continue | Continuation::DegradeToReview { .. }
            ),
            "no input may produce a blocking continuation: {continuation:?}"
        );
    }
}

#[test]
fn a_healthy_run_carries_on() {
    let tally = RunTally {
        operations: 10,
        elapsed_seconds: 30,
        decided: 1_000,
        ambiguous: 50,
    };
    assert_eq!(assess(&default_budget(), &tally), Continuation::Continue);
}

#[test]
fn each_ceiling_degrades_on_its_own() {
    let budget = Budget {
        max_operations: 100,
        max_wall_seconds: 100,
        max_ambiguity_rate: 0.5,
        ambiguity_sample_floor: 10,
    };
    let cases = [
        (
            RunTally {
                operations: 100,
                ..RunTally::default()
            },
            BreakerTrip::OperationBudget,
        ),
        (
            RunTally {
                elapsed_seconds: 100,
                ..RunTally::default()
            },
            BreakerTrip::TimeBudget,
        ),
        (
            RunTally {
                decided: 100,
                ambiguous: 90,
                ..RunTally::default()
            },
            BreakerTrip::AmbiguityRate,
        ),
    ];
    for (tally, expected) in cases {
        assert_eq!(
            assess(&budget, &tally),
            Continuation::DegradeToReview { trip: expected },
            "{expected:?} should have tripped"
        );
    }
}

#[test]
fn the_breaker_needs_a_sample_before_it_means_anything() {
    let budget = Budget {
        ambiguity_sample_floor: 100,
        max_ambiguity_rate: 0.1,
        ..default_budget()
    };
    let one_bad_start = RunTally {
        decided: 1,
        ambiguous: 1,
        ..RunTally::default()
    };
    assert!(!one_bad_start.rate_is_defined(100));
    assert_eq!(assess(&budget, &one_bad_start), Continuation::Continue);

    let settled = RunTally {
        decided: 100,
        ambiguous: 100,
        ..RunTally::default()
    };
    assert!(matches!(
        assess(&budget, &settled),
        Continuation::DegradeToReview {
            trip: BreakerTrip::AmbiguityRate
        }
    ));
}

#[test]
fn a_rate_exactly_at_the_threshold_still_decides() {
    let budget = Budget {
        max_ambiguity_rate: 0.5,
        ambiguity_sample_floor: 10,
        ..default_budget()
    };
    let tally = RunTally {
        decided: 100,
        ambiguous: 50,
        ..RunTally::default()
    };
    assert_eq!(assess(&budget, &tally), Continuation::Continue);
}

#[test]
fn a_zero_budget_is_rejected_rather_than_treated_as_unlimited() {
    let default = default_budget();
    assert!(validate_ceilings(0, default.max_wall_seconds).is_err());
    assert!(validate_ceilings(default.max_operations, 0).is_err());
    assert!(validate_ceilings(default.max_operations, default.max_wall_seconds).is_ok());
}

#[test]
fn thinking_happens_before_any_byte_moves() {
    for stage in Stage::order() {
        if stage.writes_to_destination() {
            assert!(
                stage >= Stage::Execute,
                "{stage:?} must not write before Execute"
            );
        }
    }
    assert!(!Stage::Plan.writes_to_destination());
    assert!(!Stage::Freeze.writes_to_destination());
    assert!(Stage::Execute.writes_to_destination());
}

#[test]
fn the_stage_order_is_a_chain_with_one_end() {
    let mut visited = Vec::new();
    let mut stage = Some(Stage::Intent);
    while let Some(current) = stage {
        visited.push(current);
        stage = current.next();
    }
    assert_eq!(visited, Stage::order());
    assert_eq!(Stage::Report.next(), None);
}

#[test]
fn a_dry_run_stops_before_it_copies() {
    assert!(!RunMode::DryRun.reaches(Stage::Execute));
    assert!(
        RunMode::DryRun.reaches(Stage::Freeze),
        "a dry run that did not freeze would preview a plan that could still change"
    );
    assert!(RunMode::Execute.reaches(Stage::Report));
    for stage in Stage::order() {
        if stage.writes_to_destination() {
            assert!(
                !RunMode::DryRun.reaches(stage),
                "a dry run reached {stage:?}, which writes"
            );
        }
    }
}

#[test]
fn stage_names_are_unique() {
    let mut names: Vec<_> = Stage::order().iter().map(|stage| stage.as_str()).collect();
    names.sort_unstable();
    names.dedup();
    assert_eq!(names.len(), Stage::order().len());
}

#[test]
fn stage_positions_follow_the_order() {
    for (index, stage) in Stage::order().into_iter().enumerate() {
        assert_eq!(stage.position(), index);
    }
    assert_eq!(Stage::Intent.as_str(), "INTENT");
    assert_eq!(Stage::Report.as_str(), "REPORT");
    assert_eq!(RunMode::DryRun.final_stage(), Stage::Freeze);
    assert_eq!(RunMode::Execute.final_stage(), Stage::Report);
}

#[test]
fn a_degraded_run_no_longer_decides() {
    assert!(Continuation::Continue.may_decide());
    let degraded = Continuation::DegradeToReview {
        trip: BreakerTrip::TimeBudget,
    };
    assert!(!degraded.may_decide());
    assert_eq!(BreakerTrip::AmbiguityRate.as_str(), "AMBIGUITY_RATE");
    assert_eq!(BreakerTrip::OperationBudget.as_str(), "OPERATION_BUDGET");
    assert_eq!(BreakerTrip::TimeBudget.as_str(), "TIME_BUDGET");
}

#[test]
fn operations_trip_before_time_and_time_before_ambiguity() {
    let all = RunTally {
        operations: 5,
        elapsed_seconds: 5,
        decided: 10,
        ambiguous: 10,
    };
    assert_eq!(
        assess_with_rate(5, 5, 1, &all, true),
        Continuation::DegradeToReview {
            trip: BreakerTrip::OperationBudget
        }
    );
    assert_eq!(
        assess_with_rate(6, 5, 1, &all, true),
        Continuation::DegradeToReview {
            trip: BreakerTrip::TimeBudget
        }
    );
    assert_eq!(
        assess_with_rate(6, 6, 1, &all, true),
        Continuation::DegradeToReview {
            trip: BreakerTrip::AmbiguityRate
        }
    );
    assert_eq!(assess_with_rate(6, 6, 11, &all, true), Continuation::Continue);
}
