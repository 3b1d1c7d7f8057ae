//! The loop that drives a run to completion without stopping.
//!
//! The agent never blocks: its worst answer is to degrade to review and keep
//! going. Stages happen in one fixed order, and nothing before `Execute`
//! writes to the destination.

use vstd::prelude::*;

verus! {

/// The stages of a run, in the only order they may happen.
#[derive(Debug, Clone, Copy, PartialEq, Eq, PartialOrd, Ord, Hash, Structural)]
pub enum Stage {
    Intent,
    Inventory,
    Deduplicate,
    Grafts,
    Diagnose,
    Plan,
    Freeze,
    Execute,
    Verify,
    Report,
}

/// Number of stages in a run.
pub const STAGE_COUNT: usize = 10;

/// The stage at a given position of the mandatory order.
pub open spec fn stage_at(index: int) -> Stage {
    if index <= 0 {
        Stage::Intent
    } else if index == 1 {
        Stage::Inventory
    } else if index == 2 {
        Stage::Deduplicate
    } else if index == 3 {
        Stage::Grafts
    } else if index == 4 {
        Stage::Diagnose
    } else if index == 5 {
        Stage::Plan
    } else if index == 6 {
        Stage::Freeze
    } else if index == 7 {
        Stage::Execute
    } else if index == 8 {
        Stage::Verify
    } else {
        Stage::Report
    }
}

/// The mandatory order as a sequence.
pub open spec fn stage_order() -> Seq<Stage> {
    Seq::new(STAGE_COUNT as nat, |i: int| stage_at(i))
}

impl Stage {
    /// Position of this stage in the mandatory order.
    pub open spec fn index(self) -> int {
        match self {
            Stage::Intent => 0,
            Stage::Inventory => 1,
            Stage::Deduplicate => 2,
            Stage::Grafts => 3,
            Stage::Diagnose => 4,
            Stage::Plan => 5,
            Stage::Freeze => 6,
            Stage::Execute => 7,
            Stage::Verify => 8,
            Stage::Report => 9,
        }
    }

    /// Stable wire name of a stage.
    pub open spec fn name(self) -> Seq<char> {
        match self {
            Stage::Intent => "INTENT"@,
            Stage::Inventory => "INVENTORY"@,
            Stage::Deduplicate => "DEDUPLICATE"@,
            Stage::Grafts => "GRAFTS"@,
            Stage::Diagnose => "DIAGNOSE"@,
            Stage::Plan => "PLAN"@,
            Stage::Freeze => "FREEZE"@,
            Stage::Execute => "EXECUTE"@,
            Stage::Verify => "VERIFY"@,
            Stage::Report => "REPORT"@,
        }
    }

    /// The stage that follows in the mandatory order, if any.
    pub open spec fn spec_next(self) -> Option<Stage> {
        if self.index() + 1 < STAGE_COUNT {
            Some(stage_at(self.index() + 1))
        } else {
            None
        }
    }

    /// Every stage, in the mandatory order.
    pub fn order() -> (stages: Vec<Stage>)
        ensures
            stages@ == stage_order(),
    {
        let stages = vec![
            Stage::Intent,
            Stage::Inventory,
            Stage::Deduplicate,
            Stage::Grafts,
            Stage::Diagnose,
            Stage::Plan,
            Stage::Freeze,
            Stage::Execute,
            Stage::Verify,
            Stage::Report,
        ];
        assert(stages@ =~= stage_order());
        stages
    }

    /// Position of this stage in the mandatory order.
    pub fn position(self) -> (i: usize)
        ensures
            i == self.index(),
    {
        match self {
            Stage::Intent => 0,
            Stage::Inventory => 1,
            Stage::Deduplicate => 2,
            Stage::Grafts => 3,
            Stage::Diagnose => 4,
            Stage::Plan => 5,
            Stage::Freeze => 6,
            Stage::Execute => 7,
            Stage::Verify => 8,
            Stage::Report => 9,
        }
    }

    /// Stable wire name.
    pub fn as_str(self) -> (name: &'static str)
        ensures
            name@ == self.name(),
    {
        match self {
            Stage::Intent => "INTENT",
            Stage::Inventory => "INVENTORY",
            Stage::Deduplicate => "DEDUPLICATE",
            Stage::Grafts => "GRAFTS",
            Stage::Diagnose => "DIAGNOSE",
            Stage::Plan => "PLAN",
            Stage::Freeze => "FREEZE",
            Stage::Execute => "EXECUTE",
            Stage::Verify => "VERIFY",
            Stage::Report => "REPORT",
        }
    }

    /// The stage that follows, or `None` at the end of a run.
    pub fn next(self) -> (following: Option<Stage>)
        ensures
            following == self.spec_next(),
    {
        match self {
            Stage::Intent => Some(Stage::Inventory),
            Stage::Inventory => Some(Stage::Deduplicate),
            Stage::Deduplicate => Some(Stage::Grafts),
            Stage::Grafts => Some(Stage::Diagnose),
            Stage::Diagnose => Some(Stage::Plan),
            Stage::Plan => Some(Stage::Freeze),
            Stage::Freeze => Some(Stage::Execute),
            Stage::Execute => Some(Stage::Verify),
            Stage::Verify => Some(Stage::Report),
            Stage::Report => None,
        }
    }

    /// Whether reaching this stage means bytes may move: every stage from
    /// `Execute` onwards.
    pub fn writes_to_destination(self) -> (writes: bool)
        ensures
            writes == (self.index() >= Stage::Execute.index()),
    {
        self.position() >= 7
    }
}

/// What the run has done so far.
#[derive(Debug, Clone, Copy, Default, PartialEq, Eq, Structural)]
pub struct RunTally {
    pub operations: u64,
    pub elapsed_seconds: u64,
    /// Items the agent decided on.
    pub decided: u64,
    /// Of those, the ones it could not resolve and sent to review.
    pub ambiguous: u64,
}

impl RunTally {
    /// Whether enough decisions exist for the ambiguity rate to mean
    /// anything: at least the sample floor, and at least one.
    pub open spec fn spec_rate_is_defined(self, sample_floor: u64) -> bool {
        self.decided >= sample_floor && self.decided != 0
    }

    /// Whether the ambiguity rate is defined for this tally.
    pub fn rate_is_defined(&self, sample_floor: u64) -> (defined: bool)
        ensures
            defined == self.spec_rate_is_defined(sample_floor),
    {
        !(self.decided < sample_floor || self.decided == 0)
    }
}

/// Why the agent stopped deciding for itself.
#[derive(Debug, Clone, Copy, PartialEq, Eq, Structural)]
pub enum BreakerTrip {
    /// Too large a share of decisions were guesses.
    AmbiguityRate,
    /// The operation ceiling was reached.
    OperationBudget,
    /// The wall-clock ceiling was reached.
    TimeBudget,
}

impl BreakerTrip {
    pub open spec fn name(self) -> Seq<char> {
        match self {
            BreakerTrip::AmbiguityRate => "AMBIGUITY_RATE"@,
            BreakerTrip::OperationBudget => "OPERATION_BUDGET"@,
            BreakerTrip::TimeBudget => "TIME_BUDGET"@,
        }
    }

    /// Stable wire name.
    pub fn as_str(self) -> (name: &'static str)
        ensures
            name@ == self.name(),
    {
        match self {
            BreakerTrip::AmbiguityRate => "AMBIGUITY_RATE",
            BreakerTrip::OperationBudget => "OPERATION_BUDGET",
            BreakerTrip::TimeBudget => "TIME_BUDGET",
        }
    }
}

/// What the run does next. There is no variant that waits for a human.
#[derive(Debug, Clone, Copy, PartialEq, Eq, Structural)]
pub enum Continuation {
    /// Carry on deciding.
    Continue,
    /// Stop deciding; route everything still undecided to review and carry
    /// the run on to its end.
    DegradeToReview { trip: BreakerTrip },
}

impl Continuation {
    /// Whether the agent may still decide for itself.
    pub fn may_decide(&self) -> (may: bool)
        ensures
            may == (*self is Continue),
    {
        match self {
            Continuation::Continue => true,
            Continuation::DegradeToReview { .. } => false,
        }
    }
}

/// Why a budget was refused.
#[derive(Debug, Clone, PartialEq, Eq)]
pub enum BudgetError {
    Validation(String),
}

/// The refusal of a budget with a zero ceiling.
pub const ZERO_BUDGET_REFUSAL: &'static str = "an agent budget of zero authorises nothing; omit the run instead";

/// Reject ceilings that cannot bound anything: `0` never means unlimited.
pub fn validate_ceilings(max_operations: u64, max_wall_seconds: u64) -> (r: Result<(), BudgetError>)
    ensures
        r is Ok <==> (max_operations != 0 && max_wall_seconds != 0),
        r matches Err(BudgetError::Validation(m)) ==> m@ == ZERO_BUDGET_REFUSAL@,
{
    if max_operations == 0 || max_wall_seconds == 0 {
        return Err(BudgetError::Validation(crate::text::copy_str(ZERO_BUDGET_REFUSAL)));
    }
    Ok(())
}

/// The decision of the run loop, from the two hard ceilings, the sample
/// floor and whether the measured ambiguity rate exceeds its threshold.
pub open spec fn spec_assess(
    max_operations: u64,
    max_wall_seconds: u64,
    sample_floor: u64,
    tally: RunTally,
    rate_exceeds: bool,
) -> Continuation {
    if tally.operations >= max_operations {
        Continuation::DegradeToReview { trip: BreakerTrip::OperationBudget }
    } else if tally.elapsed_seconds >= max_wall_seconds {
        Continuation::DegradeToReview { trip: BreakerTrip::TimeBudget }
    } else if tally.spec_rate_is_defined(sample_floor) && rate_exceeds {
        Continuation::DegradeToReview { trip: BreakerTrip::AmbiguityRate }
    } else {
        Continuation::Continue
    }
}

/// Decide whether the agent carries on deciding. Hard ceilings first, then
/// the breaker, which counts only once the sample floor is reached.
/// `rate_exceeds` says whether `ambiguous / decided` is above the budget's
/// maximum ambiguity rate.
pub fn assess_with_rate(
    max_operations: u64,
    max_wall_seconds: u64,
    sample_floor: u64,
    tally: &RunTally,
    rate_exceeds: bool,
) -> (c: Continuation)
    ensures
        c == spec_assess(max_operations, max_wall_seconds, sample_floor, *tally, rate_exceeds),
{
    if tally.operations >= max_operations {
        return Continuation::DegradeToReview { trip: BreakerTrip::OperationBudget };
    }
    if tally.elapsed_seconds >= max_wall_seconds {
        return Continuation::DegradeToReview { trip: BreakerTrip::TimeBudget };
    }
    if tally.rate_is_defined(sample_floor) && rate_exceeds {
        return Continuation::DegradeToReview { trip: BreakerTrip::AmbiguityRate };
    }
    Continuation::Continue
}

/// Whether a run copies anything.
#[derive(Debug, Clone, Copy, PartialEq, Eq, Structural)]
pub enum RunMode {
    /// Produce the plan and stop before anything is copied.
    DryRun,
    /// Run to completion.
    Execute,
}

impl RunMode {
    pub open spec fn spec_final_stage(self) -> Stage {
        match self {
            RunMode::DryRun => Stage::Freeze,
            RunMode::Execute => Stage::Report,
        }
    }

    /// The last stage this mode reaches.
    pub fn final_stage(self) -> (stage: Stage)
        ensures
            stage == self.spec_final_stage(),
    {
        match self {
            RunMode::DryRun => Stage::Freeze,
            RunMode::Execute => Stage::Report,
        }
    }

    /// Whether this mode may enter `stage`.
    pub fn reaches(self, stage: Stage) -> (r: bool)
        ensures
            r == (stage.index() <= self.spec_final_stage().index()),
    {
        stage.position() <= self.final_stage().position()
    }
}

/// The stage order is a chain: each stage is followed by the next one in the
/// order, and only the last stage has no successor.
pub proof fn lemma_stage_order_is_a_chain(i: int)
    requires
        0 <= i < STAGE_COUNT,
    ensures
        stage_order()[i].index() == i,
        i + 1 < STAGE_COUNT ==> stage_order()[i].spec_next() == Some(stage_order()[i + 1]),
        i + 1 == STAGE_COUNT ==> stage_order()[i].spec_next() is None,
{
}

/// Every stage appears in the order exactly at its own position.
pub proof fn lemma_every_stage_in_order(stage: Stage)
    ensures
        0 <= stage.index() < STAGE_COUNT,
        stage_order()[stage.index()] == stage,
{
}

/// Thinking happens before any byte moves: the stages that write are exactly
/// those from `Execute` on, and `Plan` and `Freeze` do not write.
pub proof fn lemma_no_write_before_execute(stage: Stage)
    ensures
        stage.index() < Stage::Execute.index() ==> stage.index() <= Stage::Freeze.index(),
        !(Stage::Plan.index() >= Stage::Execute.index()),
        !(Stage::Freeze.index() >= Stage::Execute.index()),
{
}

/// A dry run stops before it copies: it reaches `Freeze`, and no stage it
/// reaches writes to the destination.
pub proof fn lemma_dry_run_never_writes(stage: Stage)
    ensures
        stage.index() <= RunMode::DryRun.spec_final_stage().index() ==> stage.index()
            < Stage::Execute.index(),
        Stage::Freeze.index() <= RunMode::DryRun.spec_final_stage().index(),
        stage.index() <= RunMode::Execute.spec_final_stage().index(),
{
}

/// The loop never blocks: whatever the counters, the decision either
/// continues or degrades to review, and it degrades exactly when a ceiling is
/// reached or a defined rate is exceeded.
pub proof fn lemma_assess_never_blocks(
    max_operations: u64,
    max_wall_seconds: u64,
    sample_floor: u64,
    tally: RunTally,
    rate_exceeds: bool,
)
    ensures
        ({
            let c = spec_assess(max_operations, max_wall_seconds, sample_floor, tally, rate_exceeds);
            &&& (c is Continue || c is DegradeToReview)
            &&& (c is DegradeToReview <==> (tally.operations >= max_operations
                || tally.elapsed_seconds >= max_wall_seconds || (tally.spec_rate_is_defined(
                sample_floor) && rate_exceeds)))
        }),
{
}

/// Below the sample floor the breaker cannot trip, however bad the rate.
pub proof fn lemma_breaker_needs_a_sample(
    max_operations: u64,
    max_wall_seconds: u64,
    sample_floor: u64,
    tally: RunTally,
)
    requires
        tally.decided < sample_floor,
    ensures
        spec_assess(max_operations, max_wall_seconds, sample_floor, tally, true)
            != (Continuation::DegradeToReview { trip: BreakerTrip::AmbiguityRate }),
{
}

} // verus!
