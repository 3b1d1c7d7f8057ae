use dataforge::cli::{verdict_exit_code, CommandOutcome, PluginRunFacts};
use dataforge::desktop::{ErrorDto, ErrorKind};

#[test]
fn completed_extraction_with_limited_or_failed_evidence_is_a_partial_exit() {
    for (limited, failed) in [(1, 0), (0, 1)] {
        let output = CommandOutcome::ContentExtraction {
            status: "COMPLETED".to_string(),
            limited,
            failed,
        };
        assert_eq!(verdict_exit_code(&output), 3);
    }
    let clean = CommandOutcome::ContentExtraction {
        status: "COMPLETED".to_string(),
        limited: 0,
        failed: 0,
    };
    assert_eq!(verdict_exit_code(&clean), 0);
}

#[test]
fn integrity_and_verification_failures_exit_with_four() {
    assert_eq!(
        verdict_exit_code(&CommandOutcome::Status {
            integrity_ok: Some(false)
        }),
        4
    );
    assert_eq!(
        verdict_exit_code(&CommandOutcome::Status { integrity_ok: None }),
        0
    );
    assert_eq!(
        verdict_exit_code(&CommandOutcome::Audit { ledger_ok: false }),
        4
    );
    assert_eq!(
        verdict_exit_code(&CommandOutcome::Verify {
            verdict: "FAILED".to_string()
        }),
        4
    );
    assert_eq!(
        verdict_exit_code(&CommandOutcome::Verify {
            verdict: "PASSED".to_string()
        }),
        0
    );
}

#[test]
fn partial_stages_exit_with_three() {
    assert_eq!(
        verdict_exit_code(&CommandOutcome::Hash {
            cancelled: false,
            pending: 0,
            failed: 0,
            source_changed: 1
        }),
        3
    );
    assert_eq!(
        verdict_exit_code(&CommandOutcome::Scan {
            cancelled: false,
            errors: 0
        }),
        0
    );
    let runs = vec![
        PluginRunFacts {
            status: "COMPLETED".to_string(),
            subjects_failed: 0,
        },
        PluginRunFacts {
            status: "COMPLETED".to_string(),
            subjects_failed: 2,
        },
    ];
    assert_eq!(
        verdict_exit_code(&CommandOutcome::PluginRuns {
            cancelled: false,
            runs
        }),
        3
    );
    assert_eq!(
        verdict_exit_code(&CommandOutcome::AiAssist {
            executed: true,
            status: Some("REJECTED".to_string())
        }),
        3
    );
    assert_eq!(
        verdict_exit_code(&CommandOutcome::AiAssist {
            executed: false,
            status: None
        }),
        0
    );
    assert_eq!(
        verdict_exit_code(&CommandOutcome::Plan { blocked: 2 }),
        3
    );
}

#[test]
fn an_invalid_plan_exits_with_two_and_evidence_always_succeeds() {
    assert_eq!(
        verdict_exit_code(&CommandOutcome::PlanValidation { ok: false }),
        2
    );
    for report in [
        CommandOutcome::Duplicates,
        CommandOutcome::TreeClones,
        CommandOutcome::Anomalies,
        CommandOutcome::Review,
    ] {
        assert_eq!(verdict_exit_code(&report), 0);
    }
}

#[test]
fn command_errors_keep_a_stable_frontend_shape() {
    let error = ErrorDto::from_error(ErrorKind::Validation, "validation failed: consulta vacía");
    assert_eq!(error.code, "validation");
    assert!(error.message.contains("consulta vacía"));
    assert_eq!(
        error,
        ErrorDto {
            code: "validation".to_string(),
            message: "validation failed: consulta vacía".to_string()
        }
    );
    let worker = ErrorDto::worker_failed("join error");
    assert_eq!(worker.code, "internal");
    assert_eq!(worker.message, "desktop command worker failed: join error");
    assert_eq!(ErrorKind::LedgerIntegrity.as_code(), "ledger_integrity");
}
