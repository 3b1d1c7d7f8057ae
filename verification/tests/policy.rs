use dataforge::ai::policy::{
    authorize, Budget, Consumption, DisclosurePolicy, PolicyDecision, RefusalReason,
};
use dataforge::ai::types::{
    AssistancePurpose, DisclosedField, DisclosureManifest, ProviderDescriptor, ProviderKind,
    DISCLOSURE_SCHEMA_VERSION, PROMPT_VERSION,
};

fn provider() -> ProviderDescriptor {
    ProviderDescriptor {
        kind: ProviderKind::Cloud,
        provider: "acme".to_string(),
        model: "m-1".to_string(),
        endpoint: "https://example.invalid/v1".to_string(),
    }
}

fn field(name: &str, visible_bytes: usize) -> DisclosedField {
    DisclosedField {
        evidence_id: "ev-1".to_string(),
        field_name: name.to_string(),
        visible_text: "x".repeat(visible_bytes),
        visible_bytes,
        source_sha256: "0".repeat(64),
        visible_sha256: "1".repeat(64),
        redactions: Vec::new(),
    }
}

fn manifest(fields: Vec<DisclosedField>) -> DisclosureManifest {
    let visible: usize = fields.iter().map(|f| f.visible_bytes).sum();
    DisclosureManifest {
        schema_version: DISCLOSURE_SCHEMA_VERSION.to_string(),
        request_id: "req-1".to_string(),
        purpose: AssistancePurpose::Explain,
        provider: provider(),
        prompt_version: PROMPT_VERSION.to_string(),
        fields,
        visible_content_bytes: visible,
        transport_bytes: visible,
        transport_sha256: "2".repeat(64),
    }
}

fn policy() -> DisclosurePolicy {
    DisclosurePolicy::new(
        provider(),
        vec!["title".to_string(), "excerpt".to_string()],
        Budget {
            calls: 2,
            disclosed_bytes: 100,
            spend_cents: 50,
        },
    )
}

#[test]
fn an_invocation_within_the_policy_is_allowed() {
    let decision = authorize(
        &policy(),
        &Consumption::default(),
        &manifest(vec![field("title", 10)]),
        5,
    );
    assert!(decision.is_allowed(), "{decision:?}");
}

#[test]
fn a_field_outside_the_policy_is_refused_not_truncated() {
    let decision = authorize(
        &policy(),
        &Consumption::default(),
        &manifest(vec![field("title", 10), field("full_body", 10)]),
        5,
    );
    assert_eq!(
        decision,
        PolicyDecision::Refused {
            policy_digest: policy().digest(),
            reason: RefusalReason::FieldNotApproved("full_body".to_string()),
        }
    );
}

#[test]
fn a_different_provider_is_refused_even_with_approved_fields() {
    let mut other = manifest(vec![field("title", 10)]);
    other.provider.model = "m-2".to_string();
    let decision = authorize(&policy(), &Consumption::default(), &other, 5);
    assert!(
        matches!(
            decision,
            PolicyDecision::Refused {
                reason: RefusalReason::ProviderNotApproved(_),
                ..
            }
        ),
        "{decision:?}"
    );
}

#[test]
fn the_call_that_would_cross_the_line_does_not_cross_it() {
    let mut consumed = Consumption::default();
    consumed.record(0, 48);
    let decision = authorize(&policy(), &consumed, &manifest(vec![field("title", 1)]), 5);
    assert!(
        matches!(decision, PolicyDecision::Exhausted { .. }),
        "48 + 5 exceeds 50 and must not be allowed: {decision:?}"
    );
}

#[test]
fn each_limit_exhausts_on_its_own() {
    for (consumed, spend, label) in [
        (
            Consumption {
                calls: 2,
                ..Consumption::default()
            },
            0,
            "calls",
        ),
        (
            Consumption {
                disclosed_bytes: 100,
                ..Consumption::default()
            },
            0,
            "bytes",
        ),
        (
            Consumption {
                spend_cents: 50,
                ..Consumption::default()
            },
            1,
            "spend",
        ),
    ] {
        let decision = authorize(
            &policy(),
            &consumed,
            &manifest(vec![field("title", 1)]),
            spend,
        );
        assert!(
            matches!(decision, PolicyDecision::Exhausted { .. }),
            "{label} should exhaust on its own: {decision:?}"
        );
    }
}

#[test]
fn exhausted_is_a_degradation_and_not_a_refusal() {
    let consumed = Consumption {
        calls: 2,
        ..Consumption::default()
    };
    let decision = authorize(&policy(), &consumed, &manifest(vec![field("title", 1)]), 0);
    assert!(matches!(decision, PolicyDecision::Exhausted { .. }));
    assert!(!decision.is_allowed());
}

#[test]
fn a_zero_budget_allows_nothing() {
    let zero = DisclosurePolicy::new(provider(), vec!["title".to_string()], Budget::default());
    let decision = authorize(
        &zero,
        &Consumption::default(),
        &manifest(vec![field("title", 1)]),
        0,
    );
    assert!(
        matches!(decision, PolicyDecision::Exhausted { .. }),
        "{decision:?}"
    );
}

#[test]
fn an_unreadable_schema_is_refused() {
    let mut future = policy();
    future.schema_version = "dataforge.ai-disclosure-policy/9.0.0".to_string();
    let decision = authorize(
        &future,
        &Consumption::default(),
        &manifest(vec![field("title", 1)]),
        0,
    );
    assert!(
        matches!(
            decision,
            PolicyDecision::Refused {
                reason: RefusalReason::UnsupportedSchema(_),
                ..
            }
        ),
        "{decision:?}"
    );
}

#[test]
fn changing_the_budget_changes_the_digest() {
    let original = policy();
    let mut widened = original.clone();
    widened.budget.spend_cents = 5_000;
    assert_ne!(original.digest(), widened.digest());
}

#[test]
fn the_digest_is_the_same_for_equal_policies() {
    assert_eq!(policy().digest(), policy().digest());
    assert_eq!(policy().digest().len(), 64);
}

#[test]
fn consumption_saturates_instead_of_wrapping() {
    let mut consumed = Consumption {
        calls: u32::MAX,
        disclosed_bytes: u64::MAX,
        spend_cents: u64::MAX,
    };
    consumed.record(10, 10);
    assert_eq!(consumed.calls, u32::MAX);
    assert_eq!(consumed.disclosed_bytes, u64::MAX);
    assert_eq!(consumed.spend_cents, u64::MAX);
}

#[test]
fn recording_adds_one_call_and_its_bytes_and_spend() {
    let mut consumed = Consumption::default();
    consumed.record(7, 3);
    consumed.record(1, 2);
    assert_eq!(
        consumed,
        Consumption {
            calls: 2,
            disclosed_bytes: 8,
            spend_cents: 5
        }
    );
}

#[test]
fn only_listed_fields_are_permitted() {
    let p = policy();
    assert!(p.permits_field("title"));
    assert!(p.permits_field("excerpt"));
    assert!(!p.permits_field("full_body"));
}

#[test]
fn spending_less_never_turns_an_allowed_call_away() {
    let m = manifest(vec![field("title", 1)]);
    let more = Consumption {
        calls: 1,
        disclosed_bytes: 10,
        spend_cents: 20,
    };
    assert!(authorize(&policy(), &more, &m, 5).is_allowed());
    for less in [
        Consumption::default(),
        Consumption { calls: 1, ..Consumption::default() },
        Consumption { disclosed_bytes: 10, spend_cents: 20, ..Consumption::default() },
    ] {
        for spend in [0, 5] {
            assert!(authorize(&policy(), &less, &m, spend).is_allowed());
        }
    }
    let exhausted = Consumption { spend_cents: 48, ..Consumption::default() };
    assert!(matches!(
        authorize(&policy(), &exhausted, &m, 5),
        PolicyDecision::Exhausted { .. }
    ));
    let grown = Consumption { calls: 1, disclosed_bytes: 3, spend_cents: 49 };
    assert!(matches!(
        authorize(&policy(), &grown, &m, 9),
        PolicyDecision::Exhausted { .. }
    ));
}

#[test]
fn a_refused_manifest_is_refused_before_its_bytes_are_summed() {
    let mut big = field("title", 1);
    big.visible_bytes = usize::MAX;
    let huge = manifest(vec![big.clone(), big, field("secret", 1)]);
    let decision = authorize(&policy(), &Consumption::default(), &huge, 0);
    assert!(matches!(
        decision,
        PolicyDecision::Refused { reason: RefusalReason::FieldNotApproved(_), .. }
    ));
}
