//! Validation of a provider response. A response is data, never an act: it
//! must be small, UTF-8, shallow, JSON without repeated keys, accepted by the
//! closed output schema, and free of commands, paths, SQL, tool calls and
//! bidirectional controls. Risk and confidence are then recomputed from the
//! host's own evidence.

use vstd::prelude::*;
use vstd::utf8::{valid_utf8, decode_utf8};
use crate::json::{Json, JsonValue, view_items, view_members, view_member, lemma_view_items, lemma_view_members, string_views};
use crate::json_read::{ReadFailure, read_document, read_json};
use crate::text::{str_chars, copy_str, same_text, utf8_text};
use crate::ai::types::{LocalRisk, FailureCode, RiskScore, ConfidenceScore, ValidatedSuggestion, AssistanceResult};
use crate::ai::redaction::{regex_match_spans, find_spans, span_view};
use crate::ai::schema::OUTPUT_SCHEMA_TEXT;
use crate::ai::engine::{MAX_RESPONSE_BYTES, MAX_RESPONSE_DEPTH};

verus! {

// ---------------------------------------------------------------------
// Bracket depth

/// The scan behind `json_depth`: bracket nesting outside string literals,
/// from position `i` in the given state. `None` when a bracket closes with
/// nothing open, or the text ends inside a string or with brackets open.
/// Stops with the maximum as soon as it exceeds `MAX_RESPONSE_DEPTH`.
pub open spec fn depth_scan(
    s: Seq<char>,
    i: int,
    depth: int,
    maximum: int,
    in_string: bool,
    escaped: bool,
) -> Option<int>
    decreases s.len() - i,
{
    if !(0 <= i < s.len()) {
        if in_string || depth != 0 {
            None
        } else {
            Some(maximum)
        }
    } else {
        let c = s[i];
        if in_string {
            if escaped {
                depth_scan(s, i + 1, depth, maximum, true, false)
            } else if c == '\\' {
                depth_scan(s, i + 1, depth, maximum, true, true)
            } else if c == '"' {
                depth_scan(s, i + 1, depth, maximum, false, false)
            } else {
                depth_scan(s, i + 1, depth, maximum, true, false)
            }
        } else if c == '"' {
            depth_scan(s, i + 1, depth, maximum, true, false)
        } else if c == '{' || c == '[' {
            let m = if depth + 1 > maximum {
                depth + 1
            } else {
                maximum
            };
            if m > MAX_RESPONSE_DEPTH {
                Some(m)
            } else {
                depth_scan(s, i + 1, depth + 1, m, false, false)
            }
        } else if c == '}' || c == ']' {
            if depth == 0 {
                None
            } else {
                depth_scan(s, i + 1, depth - 1, maximum, false, false)
            }
        } else {
            depth_scan(s, i + 1, depth, maximum, false, false)
        }
    }
}

/// The deepest bracket nesting of a text, outside strings (see
/// `depth_scan`).
pub open spec fn json_depth_of(s: Seq<char>) -> Option<int> {
    depth_scan(s, 0, 0, 0, false, false)
}

// ---------------------------------------------------------------------
// Forbidden content

/// Control characters other than line feed and tab, and the bidirectional
/// formatting characters that can disguise text.
pub open spec fn forbidden_char(c: char) -> bool {
    let u = c as u32;
    ||| ((u < 0x20 || (0x7f <= u <= 0x9f)) && c != '\n' && c != '\t')
    ||| u == 0x061c || u == 0x200e || u == 0x200f
    ||| (0x202a <= u <= 0x202e)
    ||| (0x2066 <= u <= 0x2069)
}

/// Words that name an action, a command, SQL or a tool call.
pub const PROHIBITED_WORDS: &'static str = "(?i)\\b(?:action|command|execute|delete|remove|move|copy|rename|shell|powershell|cmd\\.exe|chmod|curl|wget|tool[_ -]?call|function[_ -]?call|select|insert|update|delete|drop|alter|create|pragma|attach)\\b";

/// Windows and POSIX paths, UNC prefixes, `file://` and parent traversal.
pub const PROHIBITED_PATHS: &'static str = "(?i)(?:[a-z]:[\\\\/]|\\\\\\\\|file://|\\.\\.[\\\\/]|/(?:[a-z0-9._~-]+/)*[a-z0-9._~-]+)";

/// Whether a pattern matches somewhere in the text; a pattern that does not
/// compile counts as a match, so a text is never let through unchecked.
pub open spec fn pattern_hits(pattern: Seq<char>, text: Seq<char>) -> bool {
    regex_match_spans(pattern, text) != Some(Seq::<(int, int)>::empty())
}

/// Whether a text carries forbidden content.
pub open spec fn is_forbidden(text: Seq<char>) -> bool {
    ||| exists|i: int| 0 <= i < text.len() && forbidden_char(#[trigger] text[i])
    ||| pattern_hits(PROHIBITED_WORDS@, text)
    ||| pattern_hits(PROHIBITED_PATHS@, text)
}

// ---------------------------------------------------------------------
// Schema

/// Whether the `jsonschema` crate, with Draft 2020-12, accepts the JSON
/// document in `document` against the schema written in `schema`; false
/// when either text is not JSON that `serde_json` reads.
pub uninterp spec fn schema_accepts(schema: Seq<char>, document: Seq<u8>) -> bool;

/// Calls `serde_json::from_str` and `serde_json::from_slice` to read the two
/// texts, `jsonschema::draft202012::new` to compile the schema and
/// `Validator::validate` on the document. Claimed: the result is the named
/// result `schema_accepts` of the schema text and the document bytes.
#[verifier::external_body]
fn schema_validates(schema: &str, document: &[u8]) -> (ok: bool)
    ensures
        ok == schema_accepts(schema@, document@),
{
    let schema = match serde_json::from_str::<serde_json::Value>(schema) {
        Ok(value) => value,
        Err(_) => return false,
    };
    let document = match serde_json::from_slice::<serde_json::Value>(document) {
        Ok(value) => value,
        Err(_) => return false,
    };
    match jsonschema::draft202012::new(&schema) {
        Ok(validator) => validator.validate(&document).is_ok(),
        Err(_) => false,
    }
}

// ---------------------------------------------------------------------
// The model output

/// One suggestion as the provider wrote it.
pub struct SuggestionDraft {
    pub id: Seq<char>,
    pub label: Seq<char>,
    pub explanation: Seq<char>,
    pub evidence_ids: Seq<Seq<char>>,
}

/// The provider's output as it wrote it.
pub struct OutputDraft {
    pub schema_version: Seq<char>,
    pub automatic_action: bool,
    pub explanation: Seq<char>,
    pub suggestions: Seq<SuggestionDraft>,
}

pub open spec fn str_of(j: Json) -> Option<Seq<char>> {
    match j {
        Json::Str(s) => Some(s),
        _ => None,
    }
}

pub open spec fn bool_of(j: Json) -> Option<bool> {
    match j {
        Json::Bool(b) => Some(b),
        _ => None,
    }
}

/// The strings of an array, when every item is a string.
pub open spec fn strs_of(items: Seq<Json>) -> Option<Seq<Seq<char>>>
    decreases items.len(),
{
    if items.len() == 0 {
        Some(Seq::empty())
    } else {
        match (strs_of(items.drop_last()), str_of(items.last())) {
            (Some(init), Some(last)) => Some(init.push(last)),
            _ => None,
        }
    }
}

/// The value of the first member with the key.
pub open spec fn member_from(members: Seq<(Seq<char>, Json)>, key: Seq<char>, i: int) -> Option<
    Json,
>
    decreases members.len() - i,
{
    if !(0 <= i < members.len()) {
        None
    } else if members[i].0 == key {
        Some(members[i].1)
    } else {
        member_from(members, key, i + 1)
    }
}

pub open spec fn member_of(members: Seq<(Seq<char>, Json)>, key: Seq<char>) -> Option<Json> {
    member_from(members, key, 0)
}

/// Whether every key is one of the four given ones.
pub open spec fn keys_within(members: Seq<(Seq<char>, Json)>, allowed: Seq<Seq<char>>) -> bool {
    forall|i: int| 0 <= i < members.len() ==> allowed.contains(#[trigger] members[i].0)
}

pub open spec fn suggestion_keys() -> Seq<Seq<char>> {
    seq!["id"@, "label"@, "explanation"@, "evidence_ids"@]
}

pub open spec fn output_keys() -> Seq<Seq<char>> {
    seq!["schema_version"@, "automatic_action"@, "explanation"@, "suggestions"@]
}

/// A suggestion from four values, in field order.
pub open spec fn suggestion_from(id: Json, label: Json, explanation: Json, evidence_ids: Json) -> Option<
    SuggestionDraft,
> {
    match (str_of(id), str_of(label), str_of(explanation), evidence_ids) {
        (Some(i), Some(l), Some(e), Json::Array(items)) => match strs_of(items) {
            Some(ids) => Some(SuggestionDraft { id: i, label: l, explanation: e, evidence_ids: ids }),
            None => None,
        },
        _ => None,
    }
}

/// A suggestion read as a struct with exactly these fields: an object with
/// no other key, or an array of the four values in field order.
pub open spec fn suggestion_of(j: Json) -> Option<SuggestionDraft> {
    match j {
        Json::Object(m) => if keys_within(m, suggestion_keys()) {
            match (
                member_of(m, "id"@),
                member_of(m, "label"@),
                member_of(m, "explanation"@),
                member_of(m, "evidence_ids"@),
            ) {
                (Some(a), Some(b), Some(c), Some(d)) => suggestion_from(a, b, c, d),
                _ => None,
            }
        } else {
            None
        },
        Json::Array(items) => if items.len() == 4 {
            suggestion_from(items[0], items[1], items[2], items[3])
        } else {
            None
        },
        _ => None,
    }
}

pub open spec fn suggestions_of(items: Seq<Json>) -> Option<Seq<SuggestionDraft>>
    decreases items.len(),
{
    if items.len() == 0 {
        Some(Seq::empty())
    } else {
        match (suggestions_of(items.drop_last()), suggestion_of(items.last())) {
            (Some(init), Some(last)) => Some(init.push(last)),
            _ => None,
        }
    }
}

/// The output from four values, in field order.
pub open spec fn output_from(version: Json, action: Json, explanation: Json, suggestions: Json) -> Option<
    OutputDraft,
> {
    match (str_of(version), bool_of(action), str_of(explanation), suggestions) {
        (Some(v), Some(a), Some(e), Json::Array(items)) => match suggestions_of(items) {
            Some(s) => Some(
                OutputDraft { schema_version: v, automatic_action: a, explanation: e, suggestions: s },
            ),
            None => None,
        },
        _ => None,
    }
}

/// The output read as a struct with exactly its four fields.
pub open spec fn output_of(j: Json) -> Option<OutputDraft> {
    match j {
        Json::Object(m) => if keys_within(m, output_keys()) {
            match (
                member_of(m, "schema_version"@),
                member_of(m, "automatic_action"@),
                member_of(m, "explanation"@),
                member_of(m, "suggestions"@),
            ) {
                (Some(a), Some(b), Some(c), Some(d)) => output_from(a, b, c, d),
                _ => None,
            }
        } else {
            None
        },
        Json::Array(items) => if items.len() == 4 {
            output_from(items[0], items[1], items[2], items[3])
        } else {
            None
        },
        _ => None,
    }
}

// ---------------------------------------------------------------------
// Scores

/// The local risk and reliability of the first evidence item with the id,
/// looking from position `i`.
pub open spec fn score_from(scores: Seq<(Seq<char>, LocalRisk, u16)>, id: Seq<char>, i: int) -> Option<
    (LocalRisk, u16),
>
    decreases scores.len() - i,
{
    if !(0 <= i < scores.len()) {
        None
    } else if scores[i].0 == id {
        Some((scores[i].1, scores[i].2))
    } else {
        score_from(scores, id, i + 1)
    }
}

/// The highest risk points and the reliability total (saturating at
/// `u64::MAX`) of the first `n` referenced ids; `None` when one of them is
/// not host evidence.
pub open spec fn risk_and_total(
    ids: Seq<Seq<char>>,
    scores: Seq<(Seq<char>, LocalRisk, u16)>,
    n: int,
) -> Option<(int, int)>
    decreases n,
{
    if n <= 0 {
        Some((0, 0))
    } else {
        match (risk_and_total(ids, scores, n - 1), score_from(scores, ids[n - 1], 0)) {
            (Some((risk, total)), Some((level, reliability))) => Some(
                (
                    if level.spec_points() > risk {
                        level.spec_points() as int
                    } else {
                        risk
                    },
                    if total + reliability > u64::MAX {
                        u64::MAX as int
                    } else {
                        total + reliability
                    },
                ),
            ),
            _ => None,
        }
    }
}

/// A suggestion as the host returns it: the provider's text, the host's
/// risk and confidence.
pub struct SuggestionView {
    pub id: Seq<char>,
    pub label: Seq<char>,
    pub explanation: Seq<char>,
    pub evidence_ids: Seq<Seq<char>>,
    pub risk: u8,
    pub confidence: u16,
}

/// One suggestion checked and scored: forbidden content in its label or
/// explanation, then an id that is not host evidence or no id at all, are
/// refused. Risk is the highest local risk of its evidence (100 if it did
/// not fit a byte); confidence is the mean reliability.
pub open spec fn checked_suggestion(d: SuggestionDraft, scores: Seq<(Seq<char>, LocalRisk, u16)>) -> Result<
    SuggestionView,
    FailureCode,
> {
    if is_forbidden(d.label) || is_forbidden(d.explanation) {
        Err(FailureCode::ForbiddenContent)
    } else {
        match risk_and_total(d.evidence_ids, scores, d.evidence_ids.len() as int) {
            None => Err(FailureCode::InvalidEvidenceReference),
            Some((risk, total)) => if d.evidence_ids.len() == 0 || total / (
            d.evidence_ids.len() as int) > u16::MAX {
                Err(FailureCode::InvalidEvidenceReference)
            } else {
                Ok(
                    SuggestionView {
                        id: d.id,
                        label: d.label,
                        explanation: d.explanation,
                        evidence_ids: d.evidence_ids,
                        risk: if risk <= 255 {
                            risk as u8
                        } else {
                            100
                        },
                        confidence: (total / (d.evidence_ids.len() as int)) as u16,
                    },
                )
            },
        }
    }
}

/// The first `n` suggestions checked in order; the first refusal wins.
pub open spec fn checked_suggestions(
    ds: Seq<SuggestionDraft>,
    scores: Seq<(Seq<char>, LocalRisk, u16)>,
    n: int,
) -> Result<Seq<SuggestionView>, FailureCode>
    decreases n,
{
    if n <= 0 {
        Ok(Seq::empty())
    } else {
        match checked_suggestions(ds, scores, n - 1) {
            Err(f) => Err(f),
            Ok(init) => match checked_suggestion(ds[n - 1], scores) {
                Err(f) => Err(f),
                Ok(v) => Ok(init.push(v)),
            },
        }
    }
}

/// An accepted response as the host returns it.
pub struct ResultView {
    pub explanation: Seq<char>,
    pub suggestions: Seq<SuggestionView>,
}

/// The verdict on a response, in the order of the checks: size, UTF-8,
/// bracket depth, JSON without repeated keys, the output schema, the shape
/// of the output, forbidden content and the evidence references.
pub open spec fn response_verdict(bytes: Seq<u8>, scores: Seq<(Seq<char>, LocalRisk, u16)>) -> Result<
    ResultView,
    FailureCode,
> {
    if bytes.len() > MAX_RESPONSE_BYTES {
        Err(FailureCode::ResponseTooLarge)
    } else if !valid_utf8(bytes) {
        Err(FailureCode::ResponseNotUtf8)
    } else {
        let text = decode_utf8(bytes);
        match json_depth_of(text) {
            None => Err(FailureCode::MalformedJson),
            Some(depth) => if depth > MAX_RESPONSE_DEPTH {
                Err(FailureCode::ResponseTooDeep)
            } else {
                match read_document(text) {
                    Err(ReadFailure::Malformed) => Err(FailureCode::MalformedJson),
                    Err(ReadFailure::DuplicateKey) => Err(FailureCode::DuplicateJsonKey),
                    Ok(document) => if !schema_accepts(OUTPUT_SCHEMA_TEXT@, bytes) {
                        Err(FailureCode::SchemaViolation)
                    } else {
                        match output_of(document) {
                            None => Err(FailureCode::MalformedJson),
                            Some(out) => if out.automatic_action || is_forbidden(out.explanation) {
                                Err(FailureCode::ForbiddenContent)
                            } else {
                                match checked_suggestions(
                                    out.suggestions,
                                    scores,
                                    out.suggestions.len() as int,
                                ) {
                                    Err(f) => Err(f),
                                    Ok(views) => Ok(
                                        ResultView {
                                            explanation: out.explanation,
                                            suggestions: views,
                                        },
                                    ),
                                }
                            },
                        }
                    },
                }
            },
        }
    }
}

/// A returned suggestion is exactly the checked one, with no automatic act.
pub open spec fn suggestion_matches(v: ValidatedSuggestion, s: SuggestionView) -> bool {
    &&& v.id@ == s.id
    &&& v.label@ == s.label
    &&& v.explanation@ == s.explanation
    &&& string_views(v.evidence_ids@) == s.evidence_ids
    &&& !v.automatic_action
    &&& v.local_risk == RiskScore(s.risk)
    &&& v.local_confidence == ConfidenceScore(s.confidence)
}

/// A returned result is exactly the accepted one, with no automatic act.
pub open spec fn result_matches(r: AssistanceResult, v: ResultView) -> bool {
    &&& r.explanation@ == v.explanation
    &&& !r.automatic_action
    &&& r.suggestions@.len() == v.suggestions.len()
    &&& forall|i: int|
        0 <= i < v.suggestions.len() ==> suggestion_matches(#[trigger] r.suggestions@[i], v.suggestions[i])
}

} // verus!

verus! {

/// The deepest bracket nesting of a text outside strings; `None` when the
/// brackets or quotes do not balance. Stops as soon as the nesting exceeds
/// `MAX_RESPONSE_DEPTH`.
pub fn json_depth(text: &str) -> (r: Option<usize>)
    ensures
        match r {
            Some(d) => json_depth_of(text@) == Some(d as int),
            None => json_depth_of(text@) is None,
        },
{
    let s = str_chars(text);
    let mut depth: usize = 0;
    let mut maximum: usize = 0;
    let mut in_string = false;
    let mut escaped = false;
    let mut i: usize = 0;
    while i < s.len()
        invariant
            0 <= i <= s@.len(),
            s@ == text@,
            depth <= maximum <= MAX_RESPONSE_DEPTH,
            escaped ==> in_string,
            json_depth_of(text@) == depth_scan(s@, i as int, depth as int, maximum as int, in_string, escaped),
        decreases s@.len() - i,
    {
        let c = s[i];
        if in_string {
            if escaped {
                escaped = false;
            } else if c == '\\' {
                escaped = true;
            } else if c == '"' {
                in_string = false;
            }
        } else if c == '"' {
            in_string = true;
        } else if c == '{' || c == '[' {
            depth = depth + 1;
            if depth > maximum {
                maximum = depth;
            }
            if maximum > MAX_RESPONSE_DEPTH {
                return Some(maximum);
            }
        } else if c == '}' || c == ']' {
            if depth == 0 {
                return None;
            }
            depth = depth - 1;
        }
        i = i + 1;
    }
    if in_string || depth != 0 {
        None
    } else {
        Some(maximum)
    }
}

fn forbidden_character(c: char) -> (b: bool)
    ensures
        b == forbidden_char(c),
{
    let u = c as u32;
    ((u < 0x20 || (0x7f <= u && u <= 0x9f)) && c != '\n' && c != '\t') || u == 0x061c || u
        == 0x200e || u == 0x200f || (0x202a <= u && u <= 0x202e) || (0x2066 <= u && u <= 0x2069)
}

fn hits(pattern: &str, text: &str) -> (b: bool)
    ensures
        b == pattern_hits(pattern@, text@),
{
    match find_spans(pattern, text) {
        None => true,
        Some(spans) => {
            if spans.len() == 0 {
                assert(span_view(spans@) =~= Seq::<(int, int)>::empty());
                false
            } else {
                assert(span_view(spans@).len() > 0);
                true
            }
        },
    }
}

/// Whether a text carries a control or bidirectional character, or matches
/// the prohibited words or paths.
pub fn contains_forbidden(value: &str) -> (b: bool)
    ensures
        b == is_forbidden(value@),
{
    let chars = str_chars(value);
    let mut i: usize = 0;
    while i < chars.len()
        invariant
            0 <= i <= chars@.len(),
            chars@ == value@,
            forall|j: int| 0 <= j < i ==> !forbidden_char(#[trigger] chars@[j]),
        decreases chars@.len() - i,
    {
        if forbidden_character(chars[i]) {
            assert(forbidden_char(value@[i as int]));
            return true;
        }
        i = i + 1;
    }
    hits(PROHIBITED_WORDS, value) || hits(PROHIBITED_PATHS, value)
}

} // verus!

verus! {

/// A suggestion as the provider wrote it, held as text.
struct SuggestionText {
    id: String,
    label: String,
    explanation: String,
    evidence_ids: Vec<String>,
}

impl SuggestionText {
    spec fn view(self) -> SuggestionDraft {
        SuggestionDraft {
            id: self.id@,
            label: self.label@,
            explanation: self.explanation@,
            evidence_ids: string_views(self.evidence_ids@),
        }
    }
}

/// The provider's output, held as text.
struct OutputText {
    schema_version: String,
    automatic_action: bool,
    explanation: String,
    suggestions: Vec<SuggestionText>,
}

spec fn drafts(items: Seq<SuggestionText>) -> Seq<SuggestionDraft> {
    items.map_values(|t: SuggestionText| t.view())
}

impl OutputText {
    spec fn view(self) -> OutputDraft {
        OutputDraft {
            schema_version: self.schema_version@,
            automatic_action: self.automatic_action,
            explanation: self.explanation@,
            suggestions: drafts(self.suggestions@),
        }
    }
}

/// The value of the first member with the key.
fn member_value<'a>(members: &'a Vec<(String, JsonValue)>, key: &str) -> (r: Option<&'a JsonValue>)
    ensures
        match r {
            Some(v) => member_of(view_members(members@), key@) == Some(v@),
            None => member_of(view_members(members@), key@) is None,
        },
{
    proof {
        lemma_view_members(members@);
    }
    let ghost vm = view_members(members@);
    let mut i: usize = 0;
    while i < members.len()
        invariant
            0 <= i <= members@.len(),
            vm == view_members(members@),
            vm.len() == members@.len(),
            forall|x: int| 0 <= x < members@.len() ==> vm[x] == view_member(#[trigger] members@[x]),
            member_of(vm, key@) == member_from(vm, key@, i as int),
        decreases members@.len() - i,
    {
        assert(vm[i as int] == view_member(members@[i as int]));
        if same_text(members[i].0.as_str(), key) {
            return Some(&members[i].1);
        }
        i = i + 1;
    }
    None
}

/// Whether every key is one of the four given ones.
fn keys_among(members: &Vec<(String, JsonValue)>, allowed: &[&str; 4]) -> (b: bool)
    ensures
        b == keys_within(
            view_members(members@),
            seq![allowed[0]@, allowed[1]@, allowed[2]@, allowed[3]@],
        ),
{
    proof {
        lemma_view_members(members@);
    }
    let ghost vm = view_members(members@);
    let ghost set = seq![allowed[0]@, allowed[1]@, allowed[2]@, allowed[3]@];
    let mut i: usize = 0;
    while i < members.len()
        invariant
            0 <= i <= members@.len(),
            vm == view_members(members@),
            set == seq![allowed[0]@, allowed[1]@, allowed[2]@, allowed[3]@],
            vm.len() == members@.len(),
            forall|x: int| 0 <= x < members@.len() ==> vm[x] == view_member(#[trigger] members@[x]),
            forall|x: int| 0 <= x < i ==> set.contains(#[trigger] vm[x].0),
        decreases members@.len() - i,
    {
        let k = members[i].0.as_str();
        assert(vm[i as int].0 == k@);
        let known = same_text(k, allowed[0]) || same_text(k, allowed[1]) || same_text(k, allowed[2])
            || same_text(k, allowed[3]);
        if !known {
            assert(!set.contains(vm[i as int].0));
            return false;
        }
        assert(set[0] == allowed[0]@ && set[1] == allowed[1]@ && set[2] == allowed[2]@ && set[3] == allowed[3]@);
        assert(set.contains(vm[i as int].0));
        i = i + 1;
    }
    true
}

fn str_value(j: &JsonValue) -> (r: Option<String>)
    ensures
        match r {
            Some(t) => str_of(j@) == Some(t@),
            None => str_of(j@) is None,
        },
{
    match j {
        JsonValue::Str(t) => Some(copy_str(t.as_str())),
        _ => None,
    }
}

fn strs_value(items: &Vec<JsonValue>) -> (r: Option<Vec<String>>)
    ensures
        match r {
            Some(v) => strs_of(view_items(items@)) == Some(string_views(v@)),
            None => strs_of(view_items(items@)) is None,
        },
{
    proof {
        lemma_view_items(items@);
    }
    let ghost vi = view_items(items@);
    let mut out: Vec<String> = Vec::new();
    let mut i: usize = 0;
    assert(vi.take(0) =~= Seq::<Json>::empty());
    assert(string_views(out@) =~= Seq::<Seq<char>>::empty());
    while i < items.len()
        invariant
            0 <= i <= items@.len(),
            vi == view_items(items@),
            vi.len() == items@.len(),
            forall|x: int| 0 <= x < items@.len() ==> vi[x] == (#[trigger] items@[x]).view(),
            strs_of(vi.take(i as int)) == Some(string_views(out@)),
        decreases items@.len() - i,
    {
        assert(vi.take(i + 1).drop_last() =~= vi.take(i as int));
        assert(vi.take(i + 1).last() == items@[i as int].view());
        match str_value(&items[i]) {
            None => {
                assert(strs_of(vi.take(i + 1)) is None);
                let ghost k = i + 1;
                proof {
                    lemma_strs_of_prefix(vi, k as int);
                }
                return None;
            },
            Some(t) => {
                let ghost before = out@;
                out.push(t);
                assert(string_views(out@) =~= string_views(before).push(out@.last()@));
            },
        }
        i = i + 1;
    }
    assert(vi.take(i as int) =~= vi);
    Some(out)
}

proof fn lemma_strs_of_prefix(items: Seq<Json>, n: int)
    requires
        0 <= n <= items.len(),
        strs_of(items.take(n)) is None,
    ensures
        strs_of(items) is None,
    decreases items.len() - n,
{
    if n < items.len() {
        assert(items.take(n + 1).drop_last() =~= items.take(n));
        lemma_strs_of_prefix(items, n + 1);
    } else {
        assert(items.take(n) =~= items);
    }
}

} // verus!

verus! {

fn suggestion_from_values(id: &JsonValue, label: &JsonValue, explanation: &JsonValue, evidence_ids: &JsonValue) -> (r: Option<SuggestionText>)
    ensures
        match r {
            Some(t) => suggestion_from(id@, label@, explanation@, evidence_ids@) == Some(t.view()),
            None => suggestion_from(id@, label@, explanation@, evidence_ids@) is None,
        },
{
    let i = match str_value(id) {
        Some(t) => t,
        None => return None,
    };
    let l = match str_value(label) {
        Some(t) => t,
        None => return None,
    };
    let e = match str_value(explanation) {
        Some(t) => t,
        None => return None,
    };
    let items = match evidence_ids {
        JsonValue::Array(items) => items,
        _ => return None,
    };
    match strs_value(items) {
        Some(ids) => Some(SuggestionText { id: i, label: l, explanation: e, evidence_ids: ids }),
        None => None,
    }
}

fn suggestion_value(j: &JsonValue) -> (r: Option<SuggestionText>)
    ensures
        match r {
            Some(t) => suggestion_of(j@) == Some(t.view()),
            None => suggestion_of(j@) is None,
        },
{
    match j {
        JsonValue::Object(m) => {
            let names: [&str; 4] = ["id", "label", "explanation", "evidence_ids"];
            if !keys_among(m, &names) {
                return None;
            }
            let a = match member_value(m, "id") {
                Some(v) => v,
                None => return None,
            };
            let b = match member_value(m, "label") {
                Some(v) => v,
                None => return None,
            };
            let c = match member_value(m, "explanation") {
                Some(v) => v,
                None => return None,
            };
            let d = match member_value(m, "evidence_ids") {
                Some(v) => v,
                None => return None,
            };
            suggestion_from_values(a, b, c, d)
        },
        JsonValue::Array(items) => {
            if items.len() != 4 {
                proof {
                    lemma_view_items(items@);
                }
                return None;
            }
            proof {
                lemma_view_items(items@);
            }
            suggestion_from_values(&items[0], &items[1], &items[2], &items[3])
        },
        _ => None,
    }
}

} // verus!

verus! {

proof fn lemma_suggestions_of_prefix(items: Seq<Json>, n: int)
    requires
        0 <= n <= items.len(),
        suggestions_of(items.take(n)) is None,
    ensures
        suggestions_of(items) is None,
    decreases items.len() - n,
{
    if n < items.len() {
        assert(items.take(n + 1).drop_last() =~= items.take(n));
        lemma_suggestions_of_prefix(items, n + 1);
    } else {
        assert(items.take(n) =~= items);
    }
}

fn suggestions_value(items: &Vec<JsonValue>) -> (r: Option<Vec<SuggestionText>>)
    ensures
        match r {
            Some(v) => suggestions_of(view_items(items@)) == Some(drafts(v@)),
            None => suggestions_of(view_items(items@)) is None,
        },
{
    proof {
        lemma_view_items(items@);
    }
    let ghost vi = view_items(items@);
    let mut out: Vec<SuggestionText> = Vec::new();
    let mut i: usize = 0;
    assert(vi.take(0) =~= Seq::<Json>::empty());
    assert(drafts(out@) =~= Seq::<SuggestionDraft>::empty());
    while i < items.len()
        invariant
            0 <= i <= items@.len(),
            vi == view_items(items@),
            vi.len() == items@.len(),
            forall|x: int| 0 <= x < items@.len() ==> vi[x] == (#[trigger] items@[x]).view(),
            suggestions_of(vi.take(i as int)) == Some(drafts(out@)),
        decreases items@.len() - i,
    {
        assert(vi.take(i + 1).drop_last() =~= vi.take(i as int));
        assert(vi.take(i + 1).last() == items@[i as int].view());
        match suggestion_value(&items[i]) {
            None => {
                assert(suggestions_of(vi.take(i + 1)) is None);
                let ghost k = i + 1;
                proof {
                    lemma_suggestions_of_prefix(vi, k as int);
                }
                return None;
            },
            Some(t) => {
                let ghost before = out@;
                out.push(t);
                assert(drafts(out@) =~= drafts(before).push(out@.last().view()));
            },
        }
        i = i + 1;
    }
    assert(vi.take(i as int) =~= vi);
    Some(out)
}

fn output_from_values(version: &JsonValue, action: &JsonValue, explanation: &JsonValue, suggestions: &JsonValue) -> (r: Option<OutputText>)
    ensures
        match r {
            Some(t) => output_from(version@, action@, explanation@, suggestions@) == Some(t.view()),
            None => output_from(version@, action@, explanation@, suggestions@) is None,
        },
{
    let v = match str_value(version) {
        Some(t) => t,
        None => return None,
    };
    let a = match action {
        JsonValue::Bool(b) => *b,
        _ => return None,
    };
    let e = match str_value(explanation) {
        Some(t) => t,
        None => return None,
    };
    let items = match suggestions {
        JsonValue::Array(items) => items,
        _ => return None,
    };
    match suggestions_value(items) {
        Some(list) => Some(
            OutputText { schema_version: v, automatic_action: a, explanation: e, suggestions: list },
        ),
        None => None,
    }
}

fn output_value(j: &JsonValue) -> (r: Option<OutputText>)
    ensures
        match r {
            Some(t) => output_of(j@) == Some(t.view()),
            None => output_of(j@) is None,
        },
{
    match j {
        JsonValue::Object(m) => {
            let names: [&str; 4] = ["schema_version", "automatic_action", "explanation", "suggestions"];
            if !keys_among(m, &names) {
                return None;
            }
            let a = match member_value(m, "schema_version") {
                Some(v) => v,
                None => return None,
            };
            let b = match member_value(m, "automatic_action") {
                Some(v) => v,
                None => return None,
            };
            let c = match member_value(m, "explanation") {
                Some(v) => v,
                None => return None,
            };
            let d = match member_value(m, "suggestions") {
                Some(v) => v,
                None => return None,
            };
            output_from_values(a, b, c, d)
        },
        JsonValue::Array(items) => {
            proof {
                lemma_view_items(items@);
            }
            if items.len() != 4 {
                return None;
            }
            output_from_values(&items[0], &items[1], &items[2], &items[3])
        },
        _ => None,
    }
}

} // verus!

verus! {

/// The scoring inputs as plain values.
pub open spec fn score_views(scores: Seq<(String, LocalRisk, u16)>) -> Seq<(Seq<char>, LocalRisk, u16)> {
    scores.map_values(|s: (String, LocalRisk, u16)| (s.0@, s.1, s.2))
}

fn score_lookup(scores: &Vec<(String, LocalRisk, u16)>, id: &str) -> (r: Option<(LocalRisk, u16)>)
    ensures
        r == score_from(score_views(scores@), id@, 0),
{
    let ghost sv = score_views(scores@);
    let mut i: usize = 0;
    while i < scores.len()
        invariant
            0 <= i <= scores@.len(),
            sv == score_views(scores@),
            score_from(sv, id@, 0) == score_from(sv, id@, i as int),
        decreases scores@.len() - i,
    {
        assert(sv[i as int] == (scores@[i as int].0@, scores@[i as int].1, scores@[i as int].2));
        if same_text(scores[i].0.as_str(), id) {
            return Some((scores[i].1, scores[i].2));
        }
        i = i + 1;
    }
    None
}

proof fn lemma_risk_and_total_stays_none(
    ids: Seq<Seq<char>>,
    scores: Seq<(Seq<char>, LocalRisk, u16)>,
    k: int,
    n: int,
)
    requires
        0 <= k <= n,
        risk_and_total(ids, scores, k) is None,
    ensures
        risk_and_total(ids, scores, n) is None,
    decreases n - k,
{
    if k < n {
        lemma_risk_and_total_stays_none(ids, scores, k + 1, n);
    }
}

fn copy_strings(v: &Vec<String>) -> (out: Vec<String>)
    ensures
        string_views(out@) == string_views(v@),
{
    let mut out: Vec<String> = Vec::new();
    let mut i: usize = 0;
    while i < v.len()
        invariant
            0 <= i <= v@.len(),
            string_views(out@) == string_views(v@.take(i as int)),
        decreases v@.len() - i,
    {
        let ghost before = out@;
        out.push(copy_str(v[i].as_str()));
        assert(string_views(out@) =~= string_views(before).push(v@[i as int]@));
        assert(string_views(v@.take(i + 1)) =~= string_views(v@.take(i as int)).push(v@[i as int]@));
        i = i + 1;
    }
    assert(v@.take(i as int) =~= v@);
    out
}

/// Check and score one suggestion.
fn check_suggestion(d: &SuggestionText, scores: &Vec<(String, LocalRisk, u16)>) -> (r: Result<
    ValidatedSuggestion,
    FailureCode,
>)
    ensures
        match r {
            Ok(v) => checked_suggestion(d.view(), score_views(scores@)) matches Ok(sv)
                && suggestion_matches(v, sv),
            Err(f) => checked_suggestion(d.view(), score_views(scores@)) == Err::<
                SuggestionView,
                FailureCode,
            >(f),
        },
{
    if contains_forbidden(d.label.as_str()) || contains_forbidden(d.explanation.as_str()) {
        return Err(FailureCode::ForbiddenContent);
    }
    let ghost ids = string_views(d.evidence_ids@);
    let ghost sv = score_views(scores@);
    let mut risk: u16 = 0;
    let mut total: u64 = 0;
    let mut i: usize = 0;
    while i < d.evidence_ids.len()
        invariant
            0 <= i <= d.evidence_ids@.len(),
            ids == string_views(d.evidence_ids@),
            sv == score_views(scores@),
            risk <= 100,
            !is_forbidden(d.label@) && !is_forbidden(d.explanation@),
            risk_and_total(ids, sv, i as int) == Some((risk as int, total as int)),
        decreases d.evidence_ids@.len() - i,
    {
        assert(ids[i as int] == d.evidence_ids@[i as int]@);
        match score_lookup(scores, d.evidence_ids[i].as_str()) {
            None => {
                assert(risk_and_total(ids, sv, i + 1) is None);
                proof {
                    lemma_risk_and_total_stays_none(ids, sv, i + 1, ids.len() as int);
                }
                assert(ids.len() == d.evidence_ids@.len());
                assert(d.view().evidence_ids == ids);
                return Err(FailureCode::InvalidEvidenceReference);
            },
            Some((level, reliability)) => {
                let points = level.points();
                if points > risk {
                    risk = points;
                }
                total = total.saturating_add(reliability as u64);
            },
        }
        i = i + 1;
    }
    let count = d.evidence_ids.len() as u64;
    if count == 0 {
        return Err(FailureCode::InvalidEvidenceReference);
    }
    let mean = total / count;
    if mean > 65535 {
        return Err(FailureCode::InvalidEvidenceReference);
    }
    let risk_byte: u8 = if risk <= 255 {
        risk as u8
    } else {
        100
    };
    Ok(
        ValidatedSuggestion {
            id: copy_str(d.id.as_str()),
            label: copy_str(d.label.as_str()),
            explanation: copy_str(d.explanation.as_str()),
            evidence_ids: copy_strings(&d.evidence_ids),
            automatic_action: false,
            local_risk: RiskScore(risk_byte),
            local_confidence: ConfidenceScore(mean as u16),
        },
    )
}

proof fn lemma_checked_suggestions_stays_err(
    ds: Seq<SuggestionDraft>,
    scores: Seq<(Seq<char>, LocalRisk, u16)>,
    k: int,
    n: int,
)
    requires
        0 <= k <= n,
        checked_suggestions(ds, scores, k) is Err,
    ensures
        checked_suggestions(ds, scores, n) == checked_suggestions(ds, scores, k),
    decreases n - k,
{
    if k < n {
        lemma_checked_suggestions_stays_err(ds, scores, k, n - 1);
    }
}

spec fn with_explanation(explanation: Seq<char>, r: Result<Seq<SuggestionView>, FailureCode>) -> Result<
    ResultView,
    FailureCode,
> {
    match r {
        Err(f) => Err(f),
        Ok(views) => Ok(ResultView { explanation, suggestions: views }),
    }
}

/// No two scoring entries share an evidence id, as in a map keyed by id.
pub open spec fn ids_distinct(scores: Seq<(Seq<char>, LocalRisk, u16)>) -> bool {
    forall|i: int, j: int| 0 <= i < j < scores.len() ==> (#[trigger] scores[i]).0 != (#[trigger] scores[j]).0
}

/// Validate a provider response and score its suggestions from the host's
/// evidence, keyed by evidence id: `Ok` exactly when `response_verdict` accepts it, with the
/// accepted explanation and suggestions, and otherwise the failure the
/// verdict names.
pub fn validate_response(response: &[u8], evidence_scores: &Vec<(String, LocalRisk, u16)>) -> (r: Result<
    AssistanceResult,
    FailureCode,
>)
    requires
        ids_distinct(score_views(evidence_scores@)),
    ensures
        match r {
            Ok(res) => response_verdict(response@, score_views(evidence_scores@)) matches Ok(v)
                && result_matches(res, v),
            Err(f) => response_verdict(response@, score_views(evidence_scores@)) == Err::<
                ResultView,
                FailureCode,
            >(f),
        },
{
    if response.len() > MAX_RESPONSE_BYTES {
        return Err(FailureCode::ResponseTooLarge);
    }
    let text = match utf8_text(response) {
        None => return Err(FailureCode::ResponseNotUtf8),
        Some(t) => t,
    };
    match json_depth(text.as_str()) {
        None => return Err(FailureCode::MalformedJson),
        Some(depth) => {
            if depth > MAX_RESPONSE_DEPTH {
                return Err(FailureCode::ResponseTooDeep);
            }
        },
    }
    let document = match read_json(text.as_str()) {
        Err(ReadFailure::Malformed) => return Err(FailureCode::MalformedJson),
        Err(ReadFailure::DuplicateKey) => return Err(FailureCode::DuplicateJsonKey),
        Ok(v) => v,
    };
    if !schema_validates(OUTPUT_SCHEMA_TEXT, response) {
        return Err(FailureCode::SchemaViolation);
    }
    let output = match output_value(&document) {
        None => return Err(FailureCode::MalformedJson),
        Some(o) => o,
    };
    if output.automatic_action || contains_forbidden(output.explanation.as_str()) {
        return Err(FailureCode::ForbiddenContent);
    }
    let ghost ds = drafts(output.suggestions@);
    let ghost sv = score_views(evidence_scores@);
    assert(output.view().suggestions == ds);
    assert(response_verdict(response@, sv) == with_explanation(
        output.explanation@,
        checked_suggestions(ds, sv, ds.len() as int),
    ));
    let mut suggestions: Vec<ValidatedSuggestion> = Vec::new();
    let mut i: usize = 0;
    while i < output.suggestions.len()
        invariant
            0 <= i <= output.suggestions@.len(),
            response_verdict(response@, sv) == with_explanation(
                output.explanation@,
                checked_suggestions(ds, sv, ds.len() as int),
            ),
            ds == drafts(output.suggestions@),
            sv == score_views(evidence_scores@),
            checked_suggestions(ds, sv, i as int) matches Ok(views) && views.len() == suggestions@.len()
                && forall|x: int| 0 <= x < views.len() ==> suggestion_matches(#[trigger] suggestions@[x], views[x]),
        decreases output.suggestions@.len() - i,
    {
        assert(ds[i as int] == output.suggestions@[i as int].view());
        match check_suggestion(&output.suggestions[i], evidence_scores) {
            Err(f) => {
                assert(checked_suggestions(ds, sv, i + 1) == Err::<Seq<SuggestionView>, FailureCode>(f));
                proof {
                    lemma_checked_suggestions_stays_err(ds, sv, i + 1, ds.len() as int);
                }
                return Err(f);
            },
            Ok(v) => {
                suggestions.push(v);
            },
        }
        i = i + 1;
    }
    Ok(AssistanceResult { explanation: output.explanation, suggestions, automatic_action: false })
}

} // verus!

verus! {

/// Whether every reliability lies within 0..=10000 basis points.
pub open spec fn reliabilities_in_range(scores: Seq<(Seq<char>, LocalRisk, u16)>) -> bool {
    forall|i: int| 0 <= i < scores.len() ==> (#[trigger] scores[i]).2 <= 10000
}

proof fn lemma_score_from_in_range(scores: Seq<(Seq<char>, LocalRisk, u16)>, id: Seq<char>, i: int)
    requires
        reliabilities_in_range(scores),
    ensures
        score_from(scores, id, i) matches Some((_, r)) ==> r <= 10000,
    decreases scores.len() - i,
{
    if 0 <= i < scores.len() && scores[i].0 != id {
        lemma_score_from_in_range(scores, id, i + 1);
    }
}

proof fn lemma_risk_and_total_bounds(
    ids: Seq<Seq<char>>,
    scores: Seq<(Seq<char>, LocalRisk, u16)>,
    n: int,
)
    requires
        0 <= n,
        reliabilities_in_range(scores),
    ensures
        risk_and_total(ids, scores, n) matches Some((risk, total)) ==> 0 <= risk <= 100 && 0
            <= total <= 10000 * n,
    decreases n,
{
    if n > 0 {
        lemma_risk_and_total_bounds(ids, scores, n - 1);
        lemma_score_from_in_range(scores, ids[n - 1], 0);
    }
}

/// Host scores stay in range: when every reliability is within 0..=10000
/// basis points, an accepted suggestion's confidence is within 0..=10000
/// and its risk within 0..=100.
pub proof fn lemma_scores_stay_in_range(
    d: SuggestionDraft,
    scores: Seq<(Seq<char>, LocalRisk, u16)>,
    v: SuggestionView,
)
    requires
        reliabilities_in_range(scores),
        checked_suggestion(d, scores) == Ok::<SuggestionView, FailureCode>(v),
    ensures
        v.confidence <= 10000,
        v.risk <= 100,
{
    let n = d.evidence_ids.len() as int;
    lemma_risk_and_total_bounds(d.evidence_ids, scores, n);
    let (risk, total) = risk_and_total(d.evidence_ids, scores, n)->0;
    assert(total / n <= 10000) by (nonlinear_arith)
        requires
            0 <= total <= 10000 * n,
            n > 0,
    ;
}


/// The risk `risk_and_total` finds for the first `n` ids, 0 if none.
pub open spec fn found_risk(ids: Seq<Seq<char>>, scores: Seq<(Seq<char>, LocalRisk, u16)>, n: int) -> int {
    match risk_and_total(ids, scores, n) {
        Some((risk, _)) => risk,
        None => 0,
    }
}

/// The risk points of the entry `score_from` finds for an id, 0 if none.
pub open spec fn entry_points(scores: Seq<(Seq<char>, LocalRisk, u16)>, id: Seq<char>) -> int {
    match score_from(scores, id, 0) {
        Some((level, _)) => level.spec_points() as int,
        None => 0,
    }
}

/// The entry `score_from` finds is one of the scoring entries with that id;
/// with distinct ids it is the entry of that id.
proof fn lemma_score_from_entry(scores: Seq<(Seq<char>, LocalRisk, u16)>, id: Seq<char>, i: int, j: int)
    requires
        ids_distinct(scores),
        0 <= i <= j < scores.len(),
        scores[j].0 == id,
    ensures
        score_from(scores, id, i) == Some((scores[j].1, scores[j].2)),
    decreases j - i,
{
    if i < j {
        assert(scores[i].0 != scores[j].0);
        lemma_score_from_entry(scores, id, i + 1, j);
    }
}

proof fn lemma_score_from_found(scores: Seq<(Seq<char>, LocalRisk, u16)>, id: Seq<char>, i: int)
    requires
        0 <= i,
        score_from(scores, id, i) is Some,
    ensures
        exists|j: int|
            i <= j < scores.len() && (#[trigger] scores[j]).0 == id && score_from(scores, id, i) == Some(
                (scores[j].1, scores[j].2),
            ),
    decreases scores.len() - i,
{
    if i < scores.len() && scores[i].0 != id {
        lemma_score_from_found(scores, id, i + 1);
        let j = choose|j: int|
            i + 1 <= j < scores.len() && (#[trigger] scores[j]).0 == id && score_from(scores, id, i + 1)
                == Some((scores[j].1, scores[j].2));
        assert(scores[j].0 == id);
    } else if i < scores.len() {
        assert(scores[i].0 == id);
    }
}

/// The risk `risk_and_total` finds is at least the risk points of every
/// referenced entry, and is the risk points of one of them when there is
/// one.
proof fn lemma_risk_is_highest(ids: Seq<Seq<char>>, scores: Seq<(Seq<char>, LocalRisk, u16)>, n: int)
    requires
        0 <= n <= ids.len(),
        risk_and_total(ids, scores, n) is Some,
    ensures
        forall|k: int|
            0 <= k < n ==> #[trigger] score_from(scores, ids[k], 0) is Some && found_risk(ids, scores, n)
                >= entry_points(scores, ids[k]),
        n > 0 ==> exists|k: int|
            0 <= k < n && found_risk(ids, scores, n) == #[trigger] entry_points(scores, ids[k]),
        n == 0 ==> found_risk(ids, scores, n) == 0,
    decreases n,
{
    if n > 0 {
        lemma_risk_and_total_prefix_some(ids, scores, n);
        lemma_risk_is_highest(ids, scores, n - 1);
        let prev = found_risk(ids, scores, n - 1);
        let cur = found_risk(ids, scores, n);
        let lvl = entry_points(scores, ids[n - 1]);
        if lvl > prev {
            assert(cur == lvl);
        } else {
            assert(cur == prev);
            if n - 1 > 0 {
                let k = choose|k: int|
                    0 <= k < n - 1 && prev == #[trigger] entry_points(scores, ids[k]);
                assert(cur == entry_points(scores, ids[k]));
            } else {
                assert(prev == 0);
                assert(cur == lvl);
            }
        }
    }
}

proof fn lemma_risk_and_total_prefix_some(ids: Seq<Seq<char>>, scores: Seq<(Seq<char>, LocalRisk, u16)>, n: int)
    requires
        0 < n,
        risk_and_total(ids, scores, n) is Some,
    ensures
        risk_and_total(ids, scores, n - 1) is Some,
        score_from(scores, ids[n - 1], 0) is Some,
{
}

/// The suggestions of an accepted response are checked one by one.
proof fn lemma_checked_each(
    ds: Seq<SuggestionDraft>,
    scores: Seq<(Seq<char>, LocalRisk, u16)>,
    n: int,
    views: Seq<SuggestionView>,
)
    requires
        0 <= n <= ds.len(),
        checked_suggestions(ds, scores, n) == Ok::<Seq<SuggestionView>, FailureCode>(views),
    ensures
        views.len() == n,
        forall|i: int| 0 <= i < n ==> checked_suggestion(#[trigger] ds[i], scores) == Ok::<SuggestionView, FailureCode>(views[i]),
    decreases n,
{
    if n > 0 {
        let init = checked_suggestions(ds, scores, n - 1)->Ok_0;
        lemma_checked_each(ds, scores, n - 1, init);
        assert(views == init.push(checked_suggestion(ds[n - 1], scores)->Ok_0));
        assert forall|i: int| 0 <= i < n implies checked_suggestion(#[trigger] ds[i], scores) == Ok::<SuggestionView, FailureCode>(views[i]) by {
            if i < n - 1 {
                assert(views[i] == init[i]);
            }
        }
    }
}

/// The suggestion's risk is the risk points of a scoring entry whose id it
/// cites.
pub open spec fn risk_of_a_cited_entry(s: ValidatedSuggestion, scores: Seq<(Seq<char>, LocalRisk, u16)>) -> bool {
    exists|k: int, j: int|
        #![trigger scores[j], s.evidence_ids@[k]]
        0 <= k < s.evidence_ids@.len() && 0 <= j < scores.len() && scores[j].0 == s.evidence_ids@[k]@
            && s.local_risk.0 == scores[j].1.spec_points()
}

/// The risk facts of one accepted suggestion.
proof fn lemma_one_suggestion_risk(
    response: Seq<u8>,
    scores: Seq<(Seq<char>, LocalRisk, u16)>,
    res: AssistanceResult,
    i: int,
)
    requires
        ids_distinct(scores),
        response_verdict(response, scores) matches Ok(v) && result_matches(res, v),
        0 <= i < res.suggestions@.len(),
    ensures
        forall|k: int, j: int|
            #![trigger scores[j], res.suggestions@[i].evidence_ids@[k]]
            0 <= k < res.suggestions@[i].evidence_ids@.len() && 0 <= j < scores.len()
                && scores[j].0 == res.suggestions@[i].evidence_ids@[k]@
                ==> res.suggestions@[i].local_risk.0 >= scores[j].1.spec_points(),
        exists|k: int, j: int|
            #![trigger scores[j], res.suggestions@[i].evidence_ids@[k]]
            0 <= k < res.suggestions@[i].evidence_ids@.len() && 0 <= j < scores.len()
                && scores[j].0 == res.suggestions@[i].evidence_ids@[k]@
                && res.suggestions@[i].local_risk.0 == scores[j].1.spec_points(),
{
    let v = response_verdict(response, scores)->Ok_0;
    let text = decode_utf8(response);
    let document = read_document(text)->Ok_0;
    let out = output_of(document)->0;
    let views = checked_suggestions(out.suggestions, scores, out.suggestions.len() as int)->Ok_0;
    assert(v.suggestions == views);
    lemma_checked_each(out.suggestions, scores, out.suggestions.len() as int, views);
        let r = res.suggestions@[i];
        let d = out.suggestions[i];
        let w = views[i];
        assert(suggestion_matches(r, w));
        assert(checked_suggestion(d, scores) == Ok::<SuggestionView, FailureCode>(w));
        let ids = d.evidence_ids;
        let n = ids.len() as int;
        lemma_risk_is_highest(ids, scores, n);
        let risk = found_risk(ids, scores, n);
        let kk = choose|k: int| 0 <= k < n && risk == #[trigger] entry_points(scores, ids[k]);
        assert(0 <= risk <= 100) by {
            assert(entry_points(scores, ids[kk]) <= 100);
        }
        assert(r.local_risk.0 == risk);
        assert(w.evidence_ids == ids);
        assert forall|k: int| 0 <= k < r.evidence_ids@.len() implies r.evidence_ids@[k]@ == #[trigger] ids[k] by {
            assert(crate::json::string_views(r.evidence_ids@)[k] == r.evidence_ids@[k]@);
        }
        assert forall|k: int, j: int|
            #![trigger scores[j], r.evidence_ids@[k]]
            0 <= k < r.evidence_ids@.len() && 0 <= j < scores.len()
                && scores[j].0 == r.evidence_ids@[k]@ implies r.local_risk.0 >= scores[j].1.spec_points() by {
            assert(ids[k] == r.evidence_ids@[k]@);
            lemma_score_from_entry(scores, ids[k], 0, j);
            assert(score_from(scores, ids[k], 0) is Some);
        }
        lemma_score_from_found(scores, ids[kk], 0);
        let jj = choose|j: int|
            0 <= j < scores.len() && (#[trigger] scores[j]).0 == ids[kk] && score_from(scores, ids[kk], 0) == Some(
                (scores[j].1, scores[j].2),
            );
        assert(ids[kk] == r.evidence_ids@[kk]@);
        assert(r.evidence_ids@.len() == n);
        assert(0 <= kk < r.evidence_ids@.len() && 0 <= jj < scores.len());
        assert(scores[jj].0 == res.suggestions@[i].evidence_ids@[kk]@
            && res.suggestions@[i].local_risk.0 == scores[jj].1.spec_points());
}

/// An accepted suggestion's risk is the highest risk of the evidence it
/// cites: it is at least the risk points of every scoring entry whose id
/// the suggestion cites, and equals the risk points of one of them.
pub proof fn lemma_suggestion_risk_is_highest_cited(
    response: Seq<u8>,
    scores: Seq<(Seq<char>, LocalRisk, u16)>,
    res: AssistanceResult,
)
    requires
        ids_distinct(scores),
        response_verdict(response, scores) matches Ok(v) && result_matches(res, v),
    ensures
        forall|i: int, k: int, j: int|
            #![trigger scores[j], res.suggestions@[i].evidence_ids@[k]]
            0 <= i < res.suggestions@.len() && 0 <= k < res.suggestions@[i].evidence_ids@.len() && 0 <= j
                < scores.len() && scores[j].0 == res.suggestions@[i].evidence_ids@[k]@
                ==> res.suggestions@[i].local_risk.0 >= scores[j].1.spec_points(),
        forall|i: int|
            0 <= i < res.suggestions@.len() ==> risk_of_a_cited_entry(#[trigger] res.suggestions@[i], scores),
{
    assert forall|i: int, k: int, j: int|
        #![trigger scores[j], res.suggestions@[i].evidence_ids@[k]]
        0 <= i < res.suggestions@.len() && 0 <= k < res.suggestions@[i].evidence_ids@.len() && 0 <= j
            < scores.len() && scores[j].0 == res.suggestions@[i].evidence_ids@[k]@
        implies res.suggestions@[i].local_risk.0 >= scores[j].1.spec_points() by {
        lemma_one_suggestion_risk(response, scores, res, i);
    }
    assert forall|i: int| 0 <= i < res.suggestions@.len() implies risk_of_a_cited_entry(
        #[trigger] res.suggestions@[i],
        scores,
    ) by {
        lemma_one_suggestion_risk(response, scores, res, i);
    }
}

} // verus!
