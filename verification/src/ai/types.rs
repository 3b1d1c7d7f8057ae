//! The values that cross the assisted-intelligence boundary, and their JSON
//! forms.

use vstd::prelude::*;
use vstd::string::StrSliceExecFns;
use crate::digest::{sha256_hex, sha256_hex_text, sha256_hex_of, sha256_hex_of_text};
use crate::json::{
    Json, JsonValue, canonical, json_text, view_items, view_members, push_member, push_item,
    string_array, strings_json, string_views,
};
use crate::text::decimal;

verus! {

pub const PROMPT_VERSION: &'static str = "dataforge.assisted-intelligence-prompt/0.7.0";

pub const DISCLOSURE_SCHEMA_VERSION: &'static str = "dataforge.ai-disclosure/0.7.0";

pub const AUDIT_SCHEMA_VERSION: &'static str = "dataforge.ai-audit/0.7.0";

pub const REQUEST_SCHEMA_VERSION: &'static str = "dataforge.ai-request/0.7.0";

/// Domain separator of the consent token binding.
pub const CONSENT_DOMAIN: &'static str = "DataForge cloud disclosure consent\u{0}v1\u{0}";

#[derive(Clone, Copy, Debug, PartialEq, Eq, Structural)]
pub enum AiMode {
    Disabled,
    Enabled,
}

#[derive(Clone, Copy, Debug, PartialEq, Eq, Structural)]
pub enum ProviderKind {
    LocalProcess,
    Cloud,
}

impl ProviderKind {
    pub open spec fn name(self) -> Seq<char> {
        match self {
            ProviderKind::LocalProcess => "LOCAL_PROCESS"@,
            ProviderKind::Cloud => "CLOUD"@,
        }
    }

    pub fn as_str(self) -> (s: &'static str)
        ensures
            s@ == self.name(),
    {
        match self {
            ProviderKind::LocalProcess => "LOCAL_PROCESS",
            ProviderKind::Cloud => "CLOUD",
        }
    }
}

#[derive(Clone, Debug, PartialEq, Eq)]
pub struct ProviderDescriptor {
    pub kind: ProviderKind,
    pub provider: String,
    pub model: String,
    /// The cloud HTTPS endpoint or the explicitly selected local sidecar.
    pub endpoint: String,
}

impl ProviderDescriptor {
    /// Equality of every field.
    pub open spec fn same_as(self, other: ProviderDescriptor) -> bool {
        &&& self.kind == other.kind
        &&& self.provider@ == other.provider@
        &&& self.model@ == other.model@
        &&& self.endpoint@ == other.endpoint@
    }

    /// A copy of this descriptor.
    pub fn duplicate(&self) -> (copy: ProviderDescriptor)
        ensures
            copy.same_as(*self),
    {
        ProviderDescriptor {
            kind: self.kind,
            provider: self.provider.clone(),
            model: self.model.clone(),
            endpoint: self.endpoint.clone(),
        }
    }

    /// Whether two descriptors are equal in every field.
    pub fn equals(&self, other: &ProviderDescriptor) -> (eq: bool)
        ensures
            eq == self.same_as(*other),
    {
        self.kind == other.kind && self.provider == other.provider && self.model == other.model
            && self.endpoint == other.endpoint
    }

    pub open spec fn json(self) -> Json {
        Json::Object(
            seq![
                ("kind"@, Json::Str(self.kind.name())),
                ("provider"@, Json::Str(self.provider@)),
                ("model"@, Json::Str(self.model@)),
                ("endpoint"@, Json::Str(self.endpoint@)),
            ],
        )
    }

    pub fn to_json(&self) -> (v: JsonValue)
        ensures
            v@ == self.json(),
    {
        let mut m: Vec<(String, JsonValue)> = Vec::new();
        push_member(&mut m, "kind", JsonValue::string(self.kind.as_str()));
        push_member(&mut m, "provider", JsonValue::string(self.provider.as_str()));
        push_member(&mut m, "model", JsonValue::string(self.model.as_str()));
        push_member(&mut m, "endpoint", JsonValue::string(self.endpoint.as_str()));
        assert(view_members(m@) =~= self.json()->Object_0);
        let v = JsonValue::object(m);
        v
    }
}

#[derive(Clone, Copy, Debug, PartialEq, Eq, Structural)]
pub enum AssistancePurpose {
    Explain,
    SummarizeContext,
    SuggestLabels,
    ClarifyAmbiguity,
    DraftReportText,
}

impl AssistancePurpose {
    pub open spec fn name(self) -> Seq<char> {
        match self {
            AssistancePurpose::Explain => "EXPLAIN"@,
            AssistancePurpose::SummarizeContext => "SUMMARIZE_CONTEXT"@,
            AssistancePurpose::SuggestLabels => "SUGGEST_LABELS"@,
            AssistancePurpose::ClarifyAmbiguity => "CLARIFY_AMBIGUITY"@,
            AssistancePurpose::DraftReportText => "DRAFT_REPORT_TEXT"@,
        }
    }

    pub fn as_str(self) -> (s: &'static str)
        ensures
            s@ == self.name(),
    {
        match self {
            AssistancePurpose::Explain => "EXPLAIN",
            AssistancePurpose::SummarizeContext => "SUMMARIZE_CONTEXT",
            AssistancePurpose::SuggestLabels => "SUGGEST_LABELS",
            AssistancePurpose::ClarifyAmbiguity => "CLARIFY_AMBIGUITY",
            AssistancePurpose::DraftReportText => "DRAFT_REPORT_TEXT",
        }
    }
}

#[derive(Clone, Copy, Debug, PartialEq, Eq, PartialOrd, Ord, Structural)]
pub enum LocalRisk {
    NoRisk,
    Low,
    Medium,
    High,
    Critical,
}

impl LocalRisk {
    pub open spec fn spec_points(self) -> u16 {
        match self {
            LocalRisk::NoRisk => 0,
            LocalRisk::Low => 20,
            LocalRisk::Medium => 50,
            LocalRisk::High => 75,
            LocalRisk::Critical => 100,
        }
    }

    /// Risk points of a local risk level.
    pub fn points(self) -> (p: u16)
        ensures
            p == self.spec_points(),
    {
        match self {
            LocalRisk::NoRisk => 0,
            LocalRisk::Low => 20,
            LocalRisk::Medium => 50,
            LocalRisk::High => 75,
            LocalRisk::Critical => 100,
        }
    }

    pub open spec fn name(self) -> Seq<char> {
        match self {
            LocalRisk::NoRisk => "NONE"@,
            LocalRisk::Low => "LOW"@,
            LocalRisk::Medium => "MEDIUM"@,
            LocalRisk::High => "HIGH"@,
            LocalRisk::Critical => "CRITICAL"@,
        }
    }

    pub fn as_str(self) -> (s: &'static str)
        ensures
            s@ == self.name(),
    {
        match self {
            LocalRisk::NoRisk => "NONE",
            LocalRisk::Low => "LOW",
            LocalRisk::Medium => "MEDIUM",
            LocalRisk::High => "HIGH",
            LocalRisk::Critical => "CRITICAL",
        }
    }
}

/// Host-owned evidence. `local_risk` and `reliability_basis_points` are never
/// sent to a provider: they only score a validated suggestion.
#[derive(Clone, Debug, PartialEq, Eq)]
pub struct EvidenceInput {
    pub id: String,
    pub field_name: String,
    pub text: String,
    pub local_risk: LocalRisk,
    pub reliability_basis_points: u16,
}

impl EvidenceInput {
    pub open spec fn json(self) -> Json {
        Json::Object(
            seq![
                ("id"@, Json::Str(self.id@)),
                ("field_name"@, Json::Str(self.field_name@)),
                ("text"@, Json::Str(self.text@)),
                ("local_risk"@, Json::Str(self.local_risk.name())),
                ("reliability_basis_points"@, Json::Number(decimal(self.reliability_basis_points as nat))),
            ],
        )
    }

    pub fn to_json(&self) -> (v: JsonValue)
        ensures
            v@ == self.json(),
    {
        let mut m: Vec<(String, JsonValue)> = Vec::new();
        push_member(&mut m, "id", JsonValue::string(self.id.as_str()));
        push_member(&mut m, "field_name", JsonValue::string(self.field_name.as_str()));
        push_member(&mut m, "text", JsonValue::string(self.text.as_str()));
        push_member(&mut m, "local_risk", JsonValue::string(self.local_risk.as_str()));
        push_member(&mut m, "reliability_basis_points", JsonValue::number(self.reliability_basis_points as u64));
        assert(view_members(m@) =~= self.json()->Object_0);
        let v = JsonValue::object(m);
        v
    }
}

pub open spec fn evidence_json(items: Seq<EvidenceInput>) -> Seq<Json>
    decreases items.len(),
{
    if items.len() == 0 {
        Seq::empty()
    } else {
        evidence_json(items.drop_last()).push(items.last().json())
    }
}

#[derive(Clone, Copy, Debug, PartialEq, Eq, PartialOrd, Ord, Structural)]
pub enum RedactionKind {
    ExplicitIdentifier,
    Email,
    Phone,
    Path,
}

impl RedactionKind {
    pub open spec fn name(self) -> Seq<char> {
        match self {
            RedactionKind::ExplicitIdentifier => "EXPLICIT_IDENTIFIER"@,
            RedactionKind::Email => "EMAIL"@,
            RedactionKind::Phone => "PHONE"@,
            RedactionKind::Path => "PATH"@,
        }
    }

    pub fn as_str(self) -> (s: &'static str)
        ensures
            s@ == self.name(),
    {
        match self {
            RedactionKind::ExplicitIdentifier => "EXPLICIT_IDENTIFIER",
            RedactionKind::Email => "EMAIL",
            RedactionKind::Phone => "PHONE",
            RedactionKind::Path => "PATH",
        }
    }
}

/// Which privacy classes are redacted. `identifiers` is a set: ordered and
/// free of repeats (see `RedactionConfig::wf`).
#[derive(Clone, Debug, PartialEq, Eq)]
pub struct RedactionConfig {
    pub redact_paths: bool,
    pub redact_emails: bool,
    pub redact_phone_numbers: bool,
    pub identifiers: Vec<String>,
}

impl RedactionConfig {
    /// The identifiers are strictly increasing, as in an ordered set.
    pub open spec fn wf(self) -> bool {
        forall|i: int, j: int|
            0 <= i < j < self.identifiers@.len() ==> crate::text::chars_lt(
                #[trigger] self.identifiers@[i]@,
                #[trigger] self.identifiers@[j]@,
            )
    }

    /// Redact everything, with no explicit identifiers.
    pub fn default() -> (c: RedactionConfig)
        ensures
            c.redact_paths && c.redact_emails && c.redact_phone_numbers,
            c.identifiers@.len() == 0,
            c.wf(),
    {
        RedactionConfig {
            redact_paths: true,
            redact_emails: true,
            redact_phone_numbers: true,
            identifiers: Vec::new(),
        }
    }

    pub open spec fn json(self) -> Json {
        Json::Object(
            seq![
                ("redact_paths"@, Json::Bool(self.redact_paths)),
                ("redact_emails"@, Json::Bool(self.redact_emails)),
                ("redact_phone_numbers"@, Json::Bool(self.redact_phone_numbers)),
                ("identifiers"@, Json::Array(strings_json(string_views(self.identifiers@)))),
            ],
        )
    }

    pub fn to_json(&self) -> (v: JsonValue)
        ensures
            v@ == self.json(),
    {
        let mut m: Vec<(String, JsonValue)> = Vec::new();
        push_member(&mut m, "redact_paths", JsonValue::boolean(self.redact_paths));
        push_member(&mut m, "redact_emails", JsonValue::boolean(self.redact_emails));
        push_member(&mut m, "redact_phone_numbers", JsonValue::boolean(self.redact_phone_numbers));
        push_member(&mut m, "identifiers", string_array(&self.identifiers));
        assert(view_members(m@) =~= self.json()->Object_0);
        let v = JsonValue::object(m);
        v
    }
}

#[derive(Clone, Debug, PartialEq, Eq)]
pub struct AssistanceRequest {
    pub request_id: String,
    pub purpose: AssistancePurpose,
    pub evidence: Vec<EvidenceInput>,
    pub redaction: RedactionConfig,
}

impl AssistanceRequest {
    pub open spec fn json(self) -> Json {
        Json::Object(
            seq![
                ("request_id"@, Json::Str(self.request_id@)),
                ("purpose"@, Json::Str(self.purpose.name())),
                ("evidence"@, Json::Array(evidence_json(self.evidence@))),
                ("redaction"@, self.redaction.json()),
            ],
        )
    }

    pub fn to_json(&self) -> (v: JsonValue)
        ensures
            v@ == self.json(),
    {
        let mut items: Vec<JsonValue> = Vec::new();
        let mut i: usize = 0;
        while i < self.evidence.len()
            invariant
                0 <= i <= self.evidence@.len(),
                view_items(items@) == evidence_json(self.evidence@.take(i as int)),
            decreases self.evidence@.len() - i,
        {
            push_item(&mut items, self.evidence[i].to_json());
            i = i + 1;
            assert(self.evidence@.take(i as int).drop_last() =~= self.evidence@.take((i - 1) as int));
        }
        assert(self.evidence@.take(i as int) =~= self.evidence@);
        let mut m: Vec<(String, JsonValue)> = Vec::new();
        push_member(&mut m, "request_id", JsonValue::string(self.request_id.as_str()));
        push_member(&mut m, "purpose", JsonValue::string(self.purpose.as_str()));
        push_member(&mut m, "evidence", JsonValue::array(items));
        push_member(&mut m, "redaction", self.redaction.to_json());
        assert(view_members(m@) =~= self.json()->Object_0);
        let v = JsonValue::object(m);
        v
    }
}

#[derive(Clone, Debug, PartialEq, Eq)]
pub struct RedactionRecord {
    pub kind: RedactionKind,
    /// Offset in the text as it existed immediately before this replacement.
    pub byte_start: usize,
    pub original_bytes: usize,
    pub original_sha256: String,
    pub replacement: String,
}

impl RedactionRecord {
    pub open spec fn json(self) -> Json {
        Json::Object(
            seq![
                ("kind"@, Json::Str(self.kind.name())),
                ("byte_start"@, Json::Number(decimal(self.byte_start as nat))),
                ("original_bytes"@, Json::Number(decimal(self.original_bytes as nat))),
                ("original_sha256"@, Json::Str(self.original_sha256@)),
                ("replacement"@, Json::Str(self.replacement@)),
            ],
        )
    }

    pub fn to_json(&self) -> (v: JsonValue)
        ensures
            v@ == self.json(),
    {
        let mut m: Vec<(String, JsonValue)> = Vec::new();
        push_member(&mut m, "kind", JsonValue::string(self.kind.as_str()));
        push_member(&mut m, "byte_start", JsonValue::number(self.byte_start as u64));
        push_member(&mut m, "original_bytes", JsonValue::number(self.original_bytes as u64));
        push_member(&mut m, "original_sha256", JsonValue::string(self.original_sha256.as_str()));
        push_member(&mut m, "replacement", JsonValue::string(self.replacement.as_str()));
        assert(view_members(m@) =~= self.json()->Object_0);
        let v = JsonValue::object(m);
        v
    }
}

pub open spec fn records_json(items: Seq<RedactionRecord>) -> Seq<Json>
    decreases items.len(),
{
    if items.len() == 0 {
        Seq::empty()
    } else {
        records_json(items.drop_last()).push(items.last().json())
    }
}

#[derive(Clone, Debug, PartialEq, Eq)]
pub struct DisclosedField {
    pub evidence_id: String,
    pub field_name: String,
    /// The exact UTF-8 text sent to the provider after redaction.
    pub visible_text: String,
    pub visible_bytes: usize,
    pub source_sha256: String,
    pub visible_sha256: String,
    pub redactions: Vec<RedactionRecord>,
}

impl DisclosedField {
    pub open spec fn json(self) -> Json {
        Json::Object(
            seq![
                ("evidence_id"@, Json::Str(self.evidence_id@)),
                ("field_name"@, Json::Str(self.field_name@)),
                ("visible_text"@, Json::Str(self.visible_text@)),
                ("visible_bytes"@, Json::Number(decimal(self.visible_bytes as nat))),
                ("source_sha256"@, Json::Str(self.source_sha256@)),
                ("visible_sha256"@, Json::Str(self.visible_sha256@)),
                ("redactions"@, Json::Array(records_json(self.redactions@))),
            ],
        )
    }

    pub fn to_json(&self) -> (v: JsonValue)
        ensures
            v@ == self.json(),
    {
        let mut items: Vec<JsonValue> = Vec::new();
        let mut i: usize = 0;
        while i < self.redactions.len()
            invariant
                0 <= i <= self.redactions@.len(),
                view_items(items@) == records_json(self.redactions@.take(i as int)),
            decreases self.redactions@.len() - i,
        {
            push_item(&mut items, self.redactions[i].to_json());
            i = i + 1;
            assert(self.redactions@.take(i as int).drop_last() =~= self.redactions@.take((i - 1) as int));
        }
        assert(self.redactions@.take(i as int) =~= self.redactions@);
        let mut m: Vec<(String, JsonValue)> = Vec::new();
        push_member(&mut m, "evidence_id", JsonValue::string(self.evidence_id.as_str()));
        push_member(&mut m, "field_name", JsonValue::string(self.field_name.as_str()));
        push_member(&mut m, "visible_text", JsonValue::string(self.visible_text.as_str()));
        push_member(&mut m, "visible_bytes", JsonValue::number(self.visible_bytes as u64));
        push_member(&mut m, "source_sha256", JsonValue::string(self.source_sha256.as_str()));
        push_member(&mut m, "visible_sha256", JsonValue::string(self.visible_sha256.as_str()));
        push_member(&mut m, "redactions", JsonValue::array(items));
        assert(view_members(m@) =~= self.json()->Object_0);
        let v = JsonValue::object(m);
        v
    }
}

pub open spec fn fields_json(items: Seq<DisclosedField>) -> Seq<Json>
    decreases items.len(),
{
    if items.len() == 0 {
        Seq::empty()
    } else {
        fields_json(items.drop_last()).push(items.last().json())
    }
}

/// Exact, serializable preview of a single disclosure. Its digest binds cloud
/// consent to destination, purpose, prompt version and transport bytes.
#[derive(Clone, Debug, PartialEq, Eq)]
pub struct DisclosureManifest {
    pub schema_version: String,
    pub request_id: String,
    pub purpose: AssistancePurpose,
    pub provider: ProviderDescriptor,
    pub prompt_version: String,
    pub fields: Vec<DisclosedField>,
    pub visible_content_bytes: usize,
    pub transport_bytes: usize,
    pub transport_sha256: String,
}

impl DisclosureManifest {
    pub open spec fn json(self) -> Json {
        Json::Object(
            seq![
                ("schema_version"@, Json::Str(self.schema_version@)),
                ("request_id"@, Json::Str(self.request_id@)),
                ("purpose"@, Json::Str(self.purpose.name())),
                ("provider"@, self.provider.json()),
                ("prompt_version"@, Json::Str(self.prompt_version@)),
                ("fields"@, Json::Array(fields_json(self.fields@))),
                ("visible_content_bytes"@, Json::Number(decimal(self.visible_content_bytes as nat))),
                ("transport_bytes"@, Json::Number(decimal(self.transport_bytes as nat))),
                ("transport_sha256"@, Json::Str(self.transport_sha256@)),
            ],
        )
    }

    /// The digest of a manifest: SHA-256 over its canonical JSON.
    pub open spec fn spec_digest(self) -> Seq<char> {
        sha256_hex_of_text(json_text(self.json(), true))
    }

    pub fn to_json(&self) -> (v: JsonValue)
        ensures
            v@ == self.json(),
    {
        let mut items: Vec<JsonValue> = Vec::new();
        let mut i: usize = 0;
        while i < self.fields.len()
            invariant
                0 <= i <= self.fields@.len(),
                view_items(items@) == fields_json(self.fields@.take(i as int)),
            decreases self.fields@.len() - i,
        {
            push_item(&mut items, self.fields[i].to_json());
            i = i + 1;
            assert(self.fields@.take(i as int).drop_last() =~= self.fields@.take((i - 1) as int));
        }
        assert(self.fields@.take(i as int) =~= self.fields@);
        let mut m: Vec<(String, JsonValue)> = Vec::new();
        push_member(&mut m, "schema_version", JsonValue::string(self.schema_version.as_str()));
        push_member(&mut m, "request_id", JsonValue::string(self.request_id.as_str()));
        push_member(&mut m, "purpose", JsonValue::string(self.purpose.as_str()));
        push_member(&mut m, "provider", self.provider.to_json());
        push_member(&mut m, "prompt_version", JsonValue::string(self.prompt_version.as_str()));
        push_member(&mut m, "fields", JsonValue::array(items));
        push_member(&mut m, "visible_content_bytes", JsonValue::number(self.visible_content_bytes as u64));
        push_member(&mut m, "transport_bytes", JsonValue::number(self.transport_bytes as u64));
        push_member(&mut m, "transport_sha256", JsonValue::string(self.transport_sha256.as_str()));
        assert(view_members(m@) =~= self.json()->Object_0);
        let v = JsonValue::object(m);
        v
    }

    /// SHA-256 over deterministic canonical JSON, excluding no fields.
    pub fn digest(&self) -> (d: String)
        ensures
            d@ == self.spec_digest(),
            d@.len() == 64,
    {
        let text = canonical(&self.to_json());
        sha256_hex_text(text.as_str())
    }
}

/// The consent token of a manifest digest: SHA-256 of the domain separator
/// followed by the digest.
pub open spec fn spec_token_of(disclosure_sha256: Seq<char>) -> Seq<char> {
    sha256_hex_of_text(CONSENT_DOMAIN@ + disclosure_sha256)
}

/// Explicit one-request cloud opt-in. This is a consent marker, not an
/// authentication secret.
#[derive(Debug, PartialEq, Eq)]
pub struct CloudConsentToken {
    disclosure_sha256: String,
    token_sha256: String,
}

impl CloudConsentToken {
    pub closed spec fn disclosure(self) -> Seq<char> {
        self.disclosure_sha256@
    }

    pub closed spec fn token(self) -> Seq<char> {
        self.token_sha256@
    }

    /// Create a token only after the caller has shown and accepted `manifest`.
    #[must_use]
    pub fn grant_for(manifest: &DisclosureManifest) -> (t: CloudConsentToken)
        ensures
            t.disclosure() == manifest.spec_digest(),
            t.token() == spec_token_of(manifest.spec_digest()),
    {
        let disclosure_sha256 = manifest.digest();
        let mut binding = crate::text::copy_str(CONSENT_DOMAIN);
        binding.append(disclosure_sha256.as_str());
        let token_sha256 = sha256_hex_text(binding.as_str());
        CloudConsentToken { disclosure_sha256, token_sha256 }
    }

    pub fn disclosure_sha256(&self) -> (s: &str)
        ensures
            s@ == self.disclosure(),
    {
        self.disclosure_sha256.as_str()
    }

    pub fn token_sha256(&self) -> (s: &str)
        ensures
            s@ == self.token(),
    {
        self.token_sha256.as_str()
    }

    /// Whether this token was granted for exactly `manifest`.
    pub fn validates(&self, manifest: &DisclosureManifest) -> (ok: bool)
        ensures
            ok == (self.disclosure() == manifest.spec_digest() && self.token() == spec_token_of(
                manifest.spec_digest(),
            )),
    {
        let expected = CloudConsentToken::grant_for(manifest);
        let a = constant_time_eq(
            self.disclosure_sha256.as_str().as_bytes(),
            expected.disclosure_sha256.as_str().as_bytes(),
        );
        let b = constant_time_eq(self.token_sha256.as_str().as_bytes(), expected.token_sha256.as_str().as_bytes());
        proof {
            vstd::utf8::encode_utf8_decode_utf8(self.disclosure_sha256@);
            vstd::utf8::encode_utf8_decode_utf8(expected.disclosure_sha256@);
            vstd::utf8::encode_utf8_decode_utf8(self.token_sha256@);
            vstd::utf8::encode_utf8_decode_utf8(expected.token_sha256@);
        }
        a && b
    }
}

/// A token granted for a manifest always validates that manifest, and a
/// validating token carries that manifest's digest.
pub proof fn lemma_consent_binds_one_manifest(
    token: CloudConsentToken,
    granted: DisclosureManifest,
    presented: DisclosureManifest,
)
    requires
        token.disclosure() == granted.spec_digest(),
        token.token() == spec_token_of(granted.spec_digest()),
    ensures
        (token.disclosure() == presented.spec_digest() && token.token() == spec_token_of(
            presented.spec_digest(),
        )) <==> presented.spec_digest() == granted.spec_digest(),
{
}

/// Byte-wise equality that inspects every byte of equal-length inputs.
pub fn constant_time_eq(left: &[u8], right: &[u8]) -> (eq: bool)
    ensures
        eq == (left@ == right@),
{
    if left.len() != right.len() {
        return false;
    }
    let mut difference: u8 = 0;
    let mut i: usize = 0;
    while i < left.len()
        invariant
            left@.len() == right@.len(),
            0 <= i <= left@.len(),
            (difference == 0) == (forall|j: int| 0 <= j < i ==> left@[j] == right@[j]),
        decreases left@.len() - i,
    {
        let l = left[i];
        let r = right[i];
        let d = difference;
        assert((d | (l ^ r)) == 0u8 <==> (d == 0u8 && l == r)) by (bit_vector);
        difference = difference | (l ^ r);
        i = i + 1;
    }
    assert(difference == 0 ==> left@ =~= right@);
    difference == 0
}

#[derive(Clone, Copy, Debug, PartialEq, Eq, Structural)]
pub enum ExecutionStatus {
    Disabled,
    ConsentRequired,
    ProviderFailed,
    Rejected,
    Accepted,
}

#[derive(Clone, Copy, Debug, PartialEq, Eq, Structural)]
pub enum FailureCode {
    ConsentMissingOrInvalid,
    ProviderMismatch,
    ProviderUnavailable,
    ResponseTooLarge,
    ResponseTooDeep,
    ResponseNotUtf8,
    MalformedJson,
    DuplicateJsonKey,
    SchemaViolation,
    ForbiddenContent,
    InvalidEvidenceReference,
}

#[derive(Clone, Copy, Debug, PartialEq, Eq, Structural)]
pub struct RiskScore(pub u8);

#[derive(Clone, Copy, Debug, PartialEq, Eq, Structural)]
pub struct ConfidenceScore(pub u16);

#[derive(Clone, Debug, PartialEq, Eq)]
pub struct ValidatedSuggestion {
    pub id: String,
    pub label: String,
    pub explanation: String,
    pub evidence_ids: Vec<String>,
    /// Always false; no assisted-intelligence type carries an executable act.
    pub automatic_action: bool,
    /// Recomputed locally solely from the referenced host evidence.
    pub local_risk: RiskScore,
    /// 0..=10_000 basis points, recomputed locally.
    pub local_confidence: ConfidenceScore,
}

#[derive(Clone, Debug, PartialEq, Eq)]
pub struct AssistanceResult {
    pub explanation: String,
    pub suggestions: Vec<ValidatedSuggestion>,
    pub automatic_action: bool,
}

#[derive(Clone, Debug, PartialEq, Eq)]
pub struct AuditRecord {
    pub schema_version: String,
    pub request_id_sha256: String,
    pub purpose: AssistancePurpose,
    pub provider_kind: ProviderKind,
    pub provider: String,
    pub model: String,
    pub prompt_version: String,
    pub prompt_sha256: String,
    /// Hash of the complete caller request, including host-only scoring inputs.
    pub source_request_sha256: String,
    /// Hash of the exact bytes supplied to the provider.
    pub transport_request_sha256: String,
    pub response_sha256: Option<String>,
    pub disclosure_sha256: String,
    pub opt_in_sha256: Option<String>,
    pub status: ExecutionStatus,
    pub failure: Option<FailureCode>,
}

#[derive(Clone, Debug, PartialEq, Eq)]
pub struct AssistanceOutcome {
    pub audit: AuditRecord,
    pub result: Option<AssistanceResult>,
}

} // verus!
