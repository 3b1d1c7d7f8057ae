//! The exit code of a command that succeeded but whose result still
//! signals a problem: a failed integrity check or broken ledger, a partial
//! or cancelled stage, a blocked plan, an invalid plan.
//!
//! Each command's outcome is held here by the facts the code depends on.

use vstd::prelude::*;
use crate::text::same_text;

verus! {

/// Exit code of a complete, clean result.
pub const EXIT_OK: i32 = 0;
/// Exit code of a plan that does not validate.
pub const EXIT_INVALID: i32 = 2;
/// Exit code of a partial or cancelled result.
pub const EXIT_PARTIAL: i32 = 3;
/// Exit code of an integrity or verification failure.
pub const EXIT_INTEGRITY: i32 = 4;

/// The status and failed-subject count of one plugin run.
#[derive(Clone, Debug)]
pub struct PluginRunFacts {
    pub status: String,
    pub subjects_failed: u64,
}

/// What a command's result says about how it ended.
#[derive(Clone, Debug)]
pub enum CommandOutcome {
    /// `None` when no integrity pass was requested.
    Status { integrity_ok: Option<bool> },
    Audit { ledger_ok: bool },
    Scan { cancelled: bool, errors: u64 },
    Hash { cancelled: bool, pending: u64, failed: u64, source_changed: u64 },
    Analyze,
    Similarity { cancelled: bool, status: String },
    Media { cancelled: bool, status: String, contents_failed: u64 },
    MediaRelations,
    PluginRuns { cancelled: bool, runs: Vec<PluginRunFacts> },
    PluginRegistered,
    PluginList,
    PluginFindings,
    AiAssist { executed: bool, status: Option<String> },
    AiKeys,
    AiKeyChanged,
    AiAudits,
    ContentExtraction { status: String, limited: u64, failed: u64 },
    ContentArtifacts,
    ContentSearch,
    ContentQuery,
    Plan { blocked: u64 },
    PlanValidation { ok: bool },
    Approve,
    Execute { cancelled: bool, pending: u64, failed_retryable: u64, failed_final: u64 },
    Verify { verdict: String },
    Duplicates,
    TreeClones,
    TreeRelations,
    Contexts,
    Anomalies,
    Similarities,
    Review,
}

/// Whether some plugin run did not complete or failed subjects.
pub open spec fn some_run_incomplete(runs: Seq<PluginRunFacts>) -> bool {
    exists|i: int|
        0 <= i < runs.len() && ((#[trigger] runs[i]).status@ != "COMPLETED"@ || runs[i].subjects_failed
            > 0)
}

/// The exit code of a successful command's result. Evidence reports always
/// succeed: finding duplicates or clones is information, not a failure.
pub open spec fn exit_code_of(o: CommandOutcome) -> i32 {
    match o {
        CommandOutcome::Status { integrity_ok } => if integrity_ok == Some(false) {
            EXIT_INTEGRITY
        } else {
            EXIT_OK
        },
        CommandOutcome::Audit { ledger_ok } => if ledger_ok {
            EXIT_OK
        } else {
            EXIT_INTEGRITY
        },
        CommandOutcome::Scan { cancelled, errors } => if cancelled || errors > 0 {
            EXIT_PARTIAL
        } else {
            EXIT_OK
        },
        CommandOutcome::Hash { cancelled, pending, failed, source_changed } => if cancelled || pending
            > 0 || failed > 0 || source_changed > 0 {
            EXIT_PARTIAL
        } else {
            EXIT_OK
        },
        CommandOutcome::Similarity { cancelled, status } => if cancelled || status@ != "COMPLETED"@ {
            EXIT_PARTIAL
        } else {
            EXIT_OK
        },
        CommandOutcome::Media { cancelled, status, contents_failed } => if cancelled || status@
            != "COMPLETED"@ || contents_failed > 0 {
            EXIT_PARTIAL
        } else {
            EXIT_OK
        },
        CommandOutcome::PluginRuns { cancelled, runs } => if cancelled || some_run_incomplete(runs@) {
            EXIT_PARTIAL
        } else {
            EXIT_OK
        },
        CommandOutcome::AiAssist { executed, status } => if !executed || (status matches Some(s) && s@
            == "ACCEPTED"@) {
            EXIT_OK
        } else {
            EXIT_PARTIAL
        },
        CommandOutcome::ContentExtraction { status, limited, failed } => if status@ == "COMPLETED"@
            && limited == 0 && failed == 0 {
            EXIT_OK
        } else {
            EXIT_PARTIAL
        },
        CommandOutcome::Plan { blocked } => if blocked > 0 {
            EXIT_PARTIAL
        } else {
            EXIT_OK
        },
        CommandOutcome::PlanValidation { ok } => if ok {
            EXIT_OK
        } else {
            EXIT_INVALID
        },
        CommandOutcome::Execute { cancelled, pending, failed_retryable, failed_final } => if cancelled
            || pending > 0 || failed_retryable > 0 || failed_final > 0 {
            EXIT_PARTIAL
        } else {
            EXIT_OK
        },
        CommandOutcome::Verify { verdict } => if verdict@ == "FAILED"@ {
            EXIT_INTEGRITY
        } else {
            EXIT_OK
        },
        _ => EXIT_OK,
    }
}

fn runs_incomplete(runs: &Vec<PluginRunFacts>) -> (b: bool)
    ensures
        b == some_run_incomplete(runs@),
{
    let mut i: usize = 0;
    while i < runs.len()
        invariant
            0 <= i <= runs@.len(),
            forall|j: int|
                0 <= j < i ==> !((#[trigger] runs@[j]).status@ != "COMPLETED"@ || runs@[j].subjects_failed
                    > 0),
        decreases runs@.len() - i,
    {
        if !same_text(runs[i].status.as_str(), "COMPLETED") || runs[i].subjects_failed > 0 {
            return true;
        }
        i = i + 1;
    }
    false
}

/// The exit code of a successful command's result.
pub fn verdict_exit_code(output: &CommandOutcome) -> (code: i32)
    ensures
        code == exit_code_of(*output),
{
    match output {
        CommandOutcome::Status { integrity_ok } => if *integrity_ok == Some(false) {
            EXIT_INTEGRITY
        } else {
            EXIT_OK
        },
        CommandOutcome::Audit { ledger_ok } => if *ledger_ok {
            EXIT_OK
        } else {
            EXIT_INTEGRITY
        },
        CommandOutcome::Scan { cancelled, errors } => if *cancelled || *errors > 0 {
            EXIT_PARTIAL
        } else {
            EXIT_OK
        },
        CommandOutcome::Hash { cancelled, pending, failed, source_changed } => if *cancelled || *pending
            > 0 || *failed > 0 || *source_changed > 0 {
            EXIT_PARTIAL
        } else {
            EXIT_OK
        },
        CommandOutcome::Similarity { cancelled, status } => if *cancelled || !same_text(
            status.as_str(),
            "COMPLETED",
        ) {
            EXIT_PARTIAL
        } else {
            EXIT_OK
        },
        CommandOutcome::Media { cancelled, status, contents_failed } => if *cancelled || !same_text(
            status.as_str(),
            "COMPLETED",
        ) || *contents_failed > 0 {
            EXIT_PARTIAL
        } else {
            EXIT_OK
        },
        CommandOutcome::PluginRuns { cancelled, runs } => if *cancelled || runs_incomplete(runs) {
            EXIT_PARTIAL
        } else {
            EXIT_OK
        },
        CommandOutcome::AiAssist { executed, status } => {
            let accepted = match status {
                Some(s) => same_text(s.as_str(), "ACCEPTED"),
                None => false,
            };
            if !*executed || accepted {
                EXIT_OK
            } else {
                EXIT_PARTIAL
            }
        },
        CommandOutcome::ContentExtraction { status, limited, failed } => if same_text(
            status.as_str(),
            "COMPLETED",
        ) && *limited == 0 && *failed == 0 {
            EXIT_OK
        } else {
            EXIT_PARTIAL
        },
        CommandOutcome::Plan { blocked } => if *blocked > 0 {
            EXIT_PARTIAL
        } else {
            EXIT_OK
        },
        CommandOutcome::PlanValidation { ok } => if *ok {
            EXIT_OK
        } else {
            EXIT_INVALID
        },
        CommandOutcome::Execute { cancelled, pending, failed_retryable, failed_final } => if *cancelled
            || *pending > 0 || *failed_retryable > 0 || *failed_final > 0 {
            EXIT_PARTIAL
        } else {
            EXIT_OK
        },
        CommandOutcome::Verify { verdict } => if same_text(verdict.as_str(), "FAILED") {
            EXIT_INTEGRITY
        } else {
            EXIT_OK
        },
        _ => EXIT_OK,
    }
}

/// The exit code is one of the four documented codes, and every evidence
/// report succeeds.
pub proof fn lemma_exit_codes_are_documented(o: CommandOutcome)
    ensures
        exit_code_of(o) == EXIT_OK || exit_code_of(o) == EXIT_INVALID || exit_code_of(o)
            == EXIT_PARTIAL || exit_code_of(o) == EXIT_INTEGRITY,
        (o is Duplicates || o is TreeClones || o is TreeRelations || o is Contexts || o is Anomalies
            || o is Similarities || o is Review) ==> exit_code_of(o) == EXIT_OK,
{
}

/// An execution exits with success only when it ran to completion: not
/// cancelled, nothing pending, nothing failed (retryable or final). Any
/// cancellation, pending operation or failure exits with the partial code,
/// never with success.
pub proof fn lemma_execute_succeeds_only_when_complete(
    cancelled: bool,
    pending: u64,
    failed_retryable: u64,
    failed_final: u64,
    code: i32,
)
    requires
        code == exit_code_of(CommandOutcome::Execute { cancelled, pending, failed_retryable, failed_final }),
    ensures
        code == EXIT_OK || code == EXIT_PARTIAL,
        code == EXIT_OK <==> (!cancelled && pending == 0 && failed_retryable == 0 && failed_final == 0),
        failed_final > 0 ==> code == EXIT_PARTIAL,
        failed_retryable > 0 ==> code == EXIT_PARTIAL,
        pending > 0 ==> code == EXIT_PARTIAL,
        cancelled ==> code == EXIT_PARTIAL,
{
}

} // verus!
