//! Consent by policy, with a budget.
//!
//! A human approves a policy once (which fields may leave, to which provider,
//! how much it may cost) and every invocation is judged against it before
//! anything is sent. A spent budget degrades and never blocks; a field
//! outside the policy is refused, never truncated.

use vstd::prelude::*;
use crate::digest::{sha256_hex_text, sha256_hex_of_text};
use crate::json::{Json, JsonValue, canonical, json_text, push_member, string_array, strings_json, string_views};
use crate::text::decimal;
use crate::ai::types::{DisclosureManifest, DisclosedField, ProviderDescriptor};

verus! {

/// Schema identifier of the disclosure policy.
pub const DISCLOSURE_POLICY_SCHEMA_VERSION: &'static str = "dataforge.ai-disclosure-policy/0.1.0";

/// What a policy allows to be spent before it degrades. Every limit is a hard
/// ceiling, and `0` means "not allowed at all".
#[derive(Clone, Copy, Debug, Default, PartialEq, Eq, Structural)]
pub struct Budget {
    /// Provider invocations.
    pub calls: u32,
    /// Bytes of disclosed content, measured after redaction.
    pub disclosed_bytes: u64,
    /// Spend, in cents of the provider's billing currency.
    pub spend_cents: u64,
}

impl Budget {
    pub open spec fn json(self) -> Json {
        Json::Object(
            seq![
                ("calls"@, Json::Number(decimal(self.calls as nat))),
                ("disclosed_bytes"@, Json::Number(decimal(self.disclosed_bytes as nat))),
                ("spend_cents"@, Json::Number(decimal(self.spend_cents as nat))),
            ],
        )
    }

    pub fn to_json(&self) -> (v: JsonValue)
        ensures
            v@ == self.json(),
    {
        let mut m: Vec<(String, JsonValue)> = Vec::new();
        push_member(&mut m, "calls", JsonValue::number(self.calls as u64));
        push_member(&mut m, "disclosed_bytes", JsonValue::number(self.disclosed_bytes));
        push_member(&mut m, "spend_cents", JsonValue::number(self.spend_cents));
        assert(crate::json::view_members(m@) =~= self.json()->Object_0);
        JsonValue::object(m)
    }
}

/// What has been spent so far against a policy.
#[derive(Clone, Copy, Debug, Default, PartialEq, Eq, Structural)]
pub struct Consumption {
    pub calls: u32,
    pub disclosed_bytes: u64,
    pub spend_cents: u64,
}

/// `a + b`, held at `max` instead of wrapping.
pub open spec fn saturating(a: int, b: int, max: int) -> int {
    if a + b > max {
        max
    } else {
        a + b
    }
}

impl Consumption {
    /// The consumption after one more completed invocation.
    pub open spec fn recorded(self, disclosed_bytes: u64, spend_cents: u64) -> Consumption {
        Consumption {
            calls: saturating(self.calls as int, 1, u32::MAX as int) as u32,
            disclosed_bytes: saturating(self.disclosed_bytes as int, disclosed_bytes as int, u64::MAX as int) as u64,
            spend_cents: saturating(self.spend_cents as int, spend_cents as int, u64::MAX as int) as u64,
        }
    }

    /// Record one completed invocation. Saturating on purpose: an overflow
    /// that wrapped would turn a spent budget into a fresh one.
    pub fn record(&mut self, disclosed_bytes: u64, spend_cents: u64)
        ensures
            *final(self) == old(self).recorded(disclosed_bytes, spend_cents),
    {
        self.calls = self.calls.saturating_add(1);
        self.disclosed_bytes = self.disclosed_bytes.saturating_add(disclosed_bytes);
        self.spend_cents = self.spend_cents.saturating_add(spend_cents);
    }
}

/// Recording never makes a counter smaller, and a counter at its maximum
/// stays there.
pub proof fn lemma_consumption_never_wraps(c: Consumption, disclosed_bytes: u64, spend_cents: u64)
    ensures
        c.recorded(disclosed_bytes, spend_cents).calls >= c.calls,
        c.recorded(disclosed_bytes, spend_cents).disclosed_bytes >= c.disclosed_bytes,
        c.recorded(disclosed_bytes, spend_cents).spend_cents >= c.spend_cents,
        c.calls == u32::MAX ==> c.recorded(disclosed_bytes, spend_cents).calls == u32::MAX,
        c.disclosed_bytes == u64::MAX ==> c.recorded(disclosed_bytes, spend_cents).disclosed_bytes
            == u64::MAX,
        c.spend_cents == u64::MAX ==> c.recorded(disclosed_bytes, spend_cents).spend_cents
            == u64::MAX,
{
}

/// A disclosure policy: approved once, audited against every invocation.
#[derive(Clone, Debug, PartialEq, Eq)]
pub struct DisclosurePolicy {
    pub schema_version: String,
    /// The only provider this policy authorises, compared exactly.
    pub provider: ProviderDescriptor,
    /// Field names that may be disclosed. Anything else is refused.
    pub allowed_fields: Vec<String>,
    pub budget: Budget,
}

impl DisclosurePolicy {
    pub open spec fn json(self) -> Json {
        Json::Object(
            seq![
                ("schema_version"@, Json::Str(self.schema_version@)),
                ("provider"@, self.provider.json()),
                ("allowed_fields"@, Json::Array(strings_json(string_views(self.allowed_fields@)))),
                ("budget"@, self.budget.json()),
            ],
        )
    }

    /// The digest of a policy: SHA-256 over its canonical JSON.
    pub open spec fn spec_digest(self) -> Seq<char> {
        sha256_hex_of_text(json_text(self.json(), true))
    }

    /// Whether the policy names a field.
    pub open spec fn spec_permits(self, field_name: Seq<char>) -> bool {
        exists|i: int| 0 <= i < self.allowed_fields@.len() && #[trigger] self.allowed_fields@[i]@ == field_name
    }

    /// Build a policy for a provider, fields and budget.
    pub fn new(provider: ProviderDescriptor, allowed_fields: Vec<String>, budget: Budget) -> (p: Self)
        ensures
            p.schema_version@ == DISCLOSURE_POLICY_SCHEMA_VERSION@,
            p.provider == provider,
            p.allowed_fields == allowed_fields,
            p.budget == budget,
    {
        DisclosurePolicy {
            schema_version: crate::text::copy_str(DISCLOSURE_POLICY_SCHEMA_VERSION),
            provider,
            allowed_fields,
            budget,
        }
    }

    pub fn to_json(&self) -> (v: JsonValue)
        ensures
            v@ == self.json(),
    {
        let mut m: Vec<(String, JsonValue)> = Vec::new();
        push_member(&mut m, "schema_version", JsonValue::string(self.schema_version.as_str()));
        push_member(&mut m, "provider", self.provider.to_json());
        push_member(&mut m, "allowed_fields", string_array(&self.allowed_fields));
        push_member(&mut m, "budget", self.budget.to_json());
        assert(crate::json::view_members(m@) =~= self.json()->Object_0);
        JsonValue::object(m)
    }

    /// SHA-256 over canonical JSON, so the digest is stable across round trips.
    pub fn digest(&self) -> (d: String)
        ensures
            d@ == self.spec_digest(),
            d@.len() == 64,
    {
        let text = canonical(&self.to_json());
        sha256_hex_text(text.as_str())
    }

    /// Whether this policy permits a field name.
    pub fn permits_field(&self, field_name: &str) -> (permits: bool)
        ensures
            permits == self.spec_permits(field_name@),
    {
        let mut i: usize = 0;
        while i < self.allowed_fields.len()
            invariant
                0 <= i <= self.allowed_fields@.len(),
                forall|j: int| 0 <= j < i ==> self.allowed_fields@[j]@ != field_name@,
            decreases self.allowed_fields@.len() - i,
        {
            if crate::text::same_text(self.allowed_fields[i].as_str(), field_name) {
                return true;
            }
            i = i + 1;
        }
        false
    }
}

/// Why an invocation was refused outright.
#[derive(Clone, Debug, PartialEq, Eq)]
pub enum RefusalReason {
    /// The manifest names a provider the policy did not approve.
    ProviderNotApproved(String),
    /// The manifest discloses a field the policy did not approve.
    FieldNotApproved(String),
    /// The policy was written against a schema this build cannot interpret.
    UnsupportedSchema(String),
}

/// The decision for one invocation.
#[derive(Clone, Debug, PartialEq, Eq)]
pub enum PolicyDecision {
    /// Within the policy and within budget.
    Allow { policy_digest: String },
    /// Inside the policy but out of budget: a degradation, not a failure.
    Exhausted { policy_digest: String },
    /// Outside the policy. Nothing about this invocation is permitted.
    Refused { policy_digest: String, reason: RefusalReason },
}

/// The abstract form of a refusal.
pub enum Refusal {
    ProviderNotApproved(Seq<char>),
    FieldNotApproved(Seq<char>),
    UnsupportedSchema(Seq<char>),
}

/// The abstract form of a decision, without its digest.
pub enum Verdict {
    Allow,
    Exhausted,
    Refused(Refusal),
}

impl RefusalReason {
    pub open spec fn view(self) -> Refusal {
        match self {
            RefusalReason::ProviderNotApproved(s) => Refusal::ProviderNotApproved(s@),
            RefusalReason::FieldNotApproved(s) => Refusal::FieldNotApproved(s@),
            RefusalReason::UnsupportedSchema(s) => Refusal::UnsupportedSchema(s@),
        }
    }
}

impl PolicyDecision {
    pub open spec fn digest_of(self) -> Seq<char> {
        match self {
            PolicyDecision::Allow { policy_digest } => policy_digest@,
            PolicyDecision::Exhausted { policy_digest } => policy_digest@,
            PolicyDecision::Refused { policy_digest, .. } => policy_digest@,
        }
    }

    pub open spec fn verdict(self) -> Verdict {
        match self {
            PolicyDecision::Allow { .. } => Verdict::Allow,
            PolicyDecision::Exhausted { .. } => Verdict::Exhausted,
            PolicyDecision::Refused { reason, .. } => Verdict::Refused(reason@),
        }
    }

    /// Whether the caller may proceed to touch the key and the network.
    pub fn is_allowed(&self) -> (allowed: bool)
        ensures
            allowed == (self.verdict() is Allow),
    {
        match self {
            PolicyDecision::Allow { .. } => true,
            _ => false,
        }
    }
}

/// Sum of the visible bytes of the disclosed fields.
pub open spec fn disclosed_total(fields: Seq<DisclosedField>) -> int
    decreases fields.len(),
{
    if fields.len() == 0 {
        0
    } else {
        disclosed_total(fields.drop_last()) + fields.last().visible_bytes
    }
}

/// Index of the first field the policy does not permit, if any.
pub open spec fn first_unpermitted(policy: DisclosurePolicy, fields: Seq<DisclosedField>) -> Option<int>
    decreases fields.len(),
{
    if fields.len() == 0 {
        None
    } else {
        match first_unpermitted(policy, fields.drop_last()) {
            Some(i) => Some(i),
            None => if policy.spec_permits(fields.last().field_name@) {
                None
            } else {
                Some(fields.len() - 1)
            },
        }
    }
}

/// Whether one more invocation of this size would cross any limit.
pub open spec fn over_budget(
    budget: Budget,
    consumed: Consumption,
    disclosed: int,
    estimated_spend_cents: u64,
) -> bool {
    ||| saturating(consumed.calls as int, 1, u32::MAX as int) > budget.calls
    ||| saturating(consumed.disclosed_bytes as int, disclosed, u64::MAX as int) > budget.disclosed_bytes
    ||| saturating(consumed.spend_cents as int, estimated_spend_cents as int, u64::MAX as int)
        > budget.spend_cents
}

/// The verdict for one invocation: schema first, then provider, then every
/// field, then the budget checked against the total this call would produce.
pub open spec fn spec_verdict(
    policy: DisclosurePolicy,
    consumed: Consumption,
    manifest: DisclosureManifest,
    estimated_spend_cents: u64,
) -> Verdict {
    if policy.schema_version@ != DISCLOSURE_POLICY_SCHEMA_VERSION@ {
        Verdict::Refused(Refusal::UnsupportedSchema(policy.schema_version@))
    } else if !manifest.provider.same_as(policy.provider) {
        Verdict::Refused(Refusal::ProviderNotApproved(manifest.provider.provider@))
    } else if let Some(i) = first_unpermitted(policy, manifest.fields@) {
        Verdict::Refused(Refusal::FieldNotApproved(manifest.fields@[i].field_name@))
    } else if over_budget(policy.budget, consumed, disclosed_total(manifest.fields@), estimated_spend_cents) {
        Verdict::Exhausted
    } else {
        Verdict::Allow
    }
}

/// Whether a manifest passes the policy's schema, provider and field
/// checks, so that its disclosed bytes are summed against the budget.
pub open spec fn reaches_budget(policy: DisclosurePolicy, manifest: DisclosureManifest) -> bool {
    &&& policy.schema_version@ == DISCLOSURE_POLICY_SCHEMA_VERSION@
    &&& manifest.provider.same_as(policy.provider)
    &&& first_unpermitted(policy, manifest.fields@) is None
}

/// Judge one invocation against a policy and what has been spent. Pure: it
/// decides before anything is sent. The disclosed bytes are summed only
/// once every refusal check has passed, and that sum must fit in `u64`.
pub fn authorize(
    policy: &DisclosurePolicy,
    consumed: &Consumption,
    manifest: &DisclosureManifest,
    estimated_spend_cents: u64,
) -> (decision: PolicyDecision)
    requires
        reaches_budget(*policy, *manifest) ==> disclosed_total(manifest.fields@) <= u64::MAX,
    ensures
        decision.digest_of() == policy.spec_digest(),
        decision.verdict() == spec_verdict(*policy, *consumed, *manifest, estimated_spend_cents),
{
    let policy_digest = policy.digest();

    if !crate::text::same_text(policy.schema_version.as_str(), DISCLOSURE_POLICY_SCHEMA_VERSION) {
        return PolicyDecision::Refused {
            policy_digest,
            reason: RefusalReason::UnsupportedSchema(policy.schema_version.clone()),
        };
    }
    if !manifest.provider.equals(&policy.provider) {
        return PolicyDecision::Refused {
            policy_digest,
            reason: RefusalReason::ProviderNotApproved(manifest.provider.provider.clone()),
        };
    }
    let mut i: usize = 0;
    while i < manifest.fields.len()
        invariant
            0 <= i <= manifest.fields@.len(),
            policy_digest@ == policy.spec_digest(),
            policy.schema_version@ == DISCLOSURE_POLICY_SCHEMA_VERSION@,
            manifest.provider.same_as(policy.provider),
            first_unpermitted(*policy, manifest.fields@.take(i as int)) is None,
        decreases manifest.fields@.len() - i,
    {
        proof {
            assert(manifest.fields@.take(i + 1).drop_last() =~= manifest.fields@.take(i as int));
        }
        if !policy.permits_field(manifest.fields[i].field_name.as_str()) {
            proof {
                lemma_first_unpermitted_prefix(*policy, manifest.fields@, i + 1);
            }
            return PolicyDecision::Refused {
                policy_digest,
                reason: RefusalReason::FieldNotApproved(manifest.fields[i].field_name.clone()),
            };
        }
        i = i + 1;
    }
    assert(manifest.fields@.take(i as int) =~= manifest.fields@);
    let mut k: usize = 0;
    let mut disclosed: u64 = 0;
    while k < manifest.fields.len()
        invariant
            0 <= k <= manifest.fields@.len(),
            disclosed_total(manifest.fields@) <= u64::MAX,
            disclosed == disclosed_total(manifest.fields@.take(k as int)),
        decreases manifest.fields@.len() - k,
    {
        proof {
            assert(manifest.fields@.take(k + 1).drop_last() =~= manifest.fields@.take(k as int));
            lemma_disclosed_total_prefix(manifest.fields@, k + 1);
        }
        disclosed = disclosed + manifest.fields[k].visible_bytes as u64;
        k = k + 1;
    }
    assert(manifest.fields@.take(k as int) =~= manifest.fields@);

    let over_calls = consumed.calls.saturating_add(1) > policy.budget.calls;
    let over_bytes = consumed.disclosed_bytes.saturating_add(disclosed) > policy.budget.disclosed_bytes;
    let over_spend = consumed.spend_cents.saturating_add(estimated_spend_cents) > policy.budget.spend_cents;
    if over_calls || over_bytes || over_spend {
        return PolicyDecision::Exhausted { policy_digest };
    }
    PolicyDecision::Allow { policy_digest }
}

proof fn lemma_disclosed_total_prefix(fields: Seq<DisclosedField>, n: int)
    requires
        0 <= n <= fields.len(),
    ensures
        0 <= disclosed_total(fields.take(n)) <= disclosed_total(fields),
    decreases fields.len(),
{
    if n < fields.len() {
        assert(fields.drop_last().take(n) =~= fields.take(n));
        lemma_disclosed_total_prefix(fields.drop_last(), n);
    } else {
        assert(fields.take(n) =~= fields);
    }
    lemma_disclosed_total_nonneg(fields);
    lemma_disclosed_total_nonneg(fields.take(n));
}

proof fn lemma_disclosed_total_nonneg(fields: Seq<DisclosedField>)
    ensures
        disclosed_total(fields) >= 0,
    decreases fields.len(),
{
    if fields.len() > 0 {
        lemma_disclosed_total_nonneg(fields.drop_last());
    }
}

proof fn lemma_first_unpermitted_prefix(policy: DisclosurePolicy, fields: Seq<DisclosedField>, n: int)
    requires
        0 < n <= fields.len(),
        first_unpermitted(policy, fields.take(n - 1)) is None,
        !policy.spec_permits(fields[n - 1].field_name@),
    ensures
        first_unpermitted(policy, fields) == Some(n - 1),
    decreases fields.len(),
{
    assert(fields.take(n).drop_last() =~= fields.take(n - 1));
    if n < fields.len() {
        assert(fields.drop_last().take(n) =~= fields.take(n));
        assert(fields.drop_last().take(n - 1) =~= fields.take(n - 1));
        lemma_first_unpermitted_prefix(policy, fields.drop_last(), n);
    } else {
        assert(fields.take(n) =~= fields);
    }
}

/// An allowed invocation stays within the budget once it is recorded: the
/// call that would cross a limit is never the one that is allowed.
pub proof fn lemma_allowed_call_stays_within_budget(
    policy: DisclosurePolicy,
    consumed: Consumption,
    manifest: DisclosureManifest,
    estimated_spend_cents: u64,
)
    requires
        disclosed_total(manifest.fields@) <= u64::MAX,
        spec_verdict(policy, consumed, manifest, estimated_spend_cents) is Allow,
    ensures
        ({
            let after = consumed.recorded(
                disclosed_total(manifest.fields@) as u64,
                estimated_spend_cents,
            );
            &&& after.calls <= policy.budget.calls
            &&& after.disclosed_bytes <= policy.budget.disclosed_bytes
            &&& after.spend_cents <= policy.budget.spend_cents
        }),
{
    lemma_disclosed_total_nonneg(manifest.fields@);
}

/// A zero budget allows nothing: `0` is never "unlimited".
pub proof fn lemma_zero_budget_allows_nothing(
    policy: DisclosurePolicy,
    consumed: Consumption,
    manifest: DisclosureManifest,
    estimated_spend_cents: u64,
)
    requires
        policy.budget.calls == 0,
    ensures
        !(spec_verdict(policy, consumed, manifest, estimated_spend_cents) is Allow),
{
}

/// Whether an invocation is refused does not depend on what has been spent:
/// spending can only turn an allowed call into an exhausted one.
pub proof fn lemma_refusal_ignores_consumption(
    policy: DisclosurePolicy,
    first: Consumption,
    second: Consumption,
    manifest: DisclosureManifest,
    first_spend: u64,
    second_spend: u64,
)
    ensures
        (spec_verdict(policy, first, manifest, first_spend) is Refused) == (spec_verdict(
            policy,
            second,
            manifest,
            second_spend,
        ) is Refused),
        spec_verdict(policy, first, manifest, first_spend) is Refused ==> spec_verdict(
            policy,
            first,
            manifest,
            first_spend,
        ) == spec_verdict(policy, second, manifest, second_spend),
{
}

/// Authorisation is monotone in what has been spent: having spent less, on
/// every counter, and estimating less never turns an allowed invocation
/// into an exhausted or refused one; dually, an exhausted invocation stays
/// exhausted when spending or the estimate grows.
pub proof fn lemma_authorize_is_monotone(
    policy: DisclosurePolicy,
    more: Consumption,
    less: Consumption,
    manifest: DisclosureManifest,
    more_spend: u64,
    less_spend: u64,
)
    requires
        less.calls <= more.calls,
        less.disclosed_bytes <= more.disclosed_bytes,
        less.spend_cents <= more.spend_cents,
        less_spend <= more_spend,
    ensures
        spec_verdict(policy, more, manifest, more_spend) is Allow ==> spec_verdict(
            policy,
            less,
            manifest,
            less_spend,
        ) is Allow,
        spec_verdict(policy, less, manifest, less_spend) is Exhausted ==> spec_verdict(
            policy,
            more,
            manifest,
            more_spend,
        ) is Exhausted,
{
    lemma_disclosed_total_nonneg(manifest.fields@);
}

/// A field outside the policy is refused, never truncated: if any disclosed
/// field is not permitted, the verdict is a refusal or an earlier refusal.
pub proof fn lemma_unpermitted_field_is_refused(
    policy: DisclosurePolicy,
    consumed: Consumption,
    manifest: DisclosureManifest,
    estimated_spend_cents: u64,
    i: int,
)
    requires
        0 <= i < manifest.fields@.len(),
        !policy.spec_permits(manifest.fields@[i].field_name@),
    ensures
        spec_verdict(policy, consumed, manifest, estimated_spend_cents) is Refused,
{
    lemma_first_unpermitted_some(policy, manifest.fields@, i);
}

proof fn lemma_first_unpermitted_some(policy: DisclosurePolicy, fields: Seq<DisclosedField>, i: int)
    requires
        0 <= i < fields.len(),
        !policy.spec_permits(fields[i].field_name@),
    ensures
        first_unpermitted(policy, fields) is Some,
    decreases fields.len(),
{
    if i < fields.len() - 1 {
        lemma_first_unpermitted_some(policy, fields.drop_last(), i);
    }
}

} // verus!
