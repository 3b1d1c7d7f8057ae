use dataforge::ai::redaction::redact_text;
use dataforge::ai::response::{contains_forbidden, json_depth, validate_response};
use dataforge::ai::schema::{output_schema, OUTPUT_SCHEMA_ID};
use dataforge::ai::types::{FailureCode, LocalRisk, RedactionConfig, RedactionKind};
use dataforge::digest::{sha256_hex, sha256_hex_text};
use dataforge::json::{canonical, emit, JsonValue};
use dataforge::json_read::{read_json, ReadFailure};

fn round_trip(text: &str) -> Result<String, ReadFailure> {
    read_json(text).map(|value| emit(&value))
}

#[test]
fn documents_read_back_as_written() {
    assert_eq!(round_trip(" { \"a\" : [1, -2.5e3, true, null] } "), Ok("{\"a\":[1,-2.5e3,true,null]}".to_string()));
    assert_eq!(round_trip("\"x\\u0041\\n\""), Ok("\"xA\\n\"".to_string()));
    assert_eq!(round_trip("\"\\ud83d\\ude00\""), Ok("\"\u{1F600}\"".to_string()));
    assert_eq!(round_trip("[]"), Ok("[]".to_string()));
    assert_eq!(round_trip("{}"), Ok("{}".to_string()));
    assert_eq!(round_trip("0"), Ok("0".to_string()));
}

#[test]
fn malformed_documents_are_refused() {
    for text in [
        "", "{", "[1,]", "{\"a\":1,}", "01", "1.", "-", "1e", "tru", "[1 2]", "{1:2}",
        "\"\\ud800\"", "\"\\udc00\"", "\"a\nb\"", "\"\\x\"", "1 2", "nul",
    ] {
        assert_eq!(read_json(text).err(), Some(ReadFailure::Malformed), "{text:?}");
    }
}

#[test]
fn a_repeated_key_is_refused_even_when_spelled_differently() {
    assert_eq!(
        read_json("{\"a\":1,\"\\u0061\":2}").err(),
        Some(ReadFailure::DuplicateKey)
    );
    assert_eq!(
        read_json("[{\"k\":1},{\"k\":2,\"k\":3}]").err(),
        Some(ReadFailure::DuplicateKey)
    );
    assert!(read_json("[{\"k\":1},{\"k\":2}]").is_ok());
}

#[test]
fn canonical_text_sorts_keys() {
    let value = read_json("{\"b\":1,\"a\":{\"d\":2,\"c\":3}}").unwrap();
    assert_eq!(canonical(&value), "{\"a\":{\"c\":3,\"d\":2},\"b\":1}");
    assert_eq!(emit(&value), "{\"b\":1,\"a\":{\"d\":2,\"c\":3}}");
    assert_eq!(emit(&JsonValue::string("q\"\u{1}")), "\"q\\\"\\u0001\"");
}

#[test]
fn the_output_schema_is_json_with_its_id() {
    let schema: serde_json::Value = serde_json::from_str(&output_schema()).unwrap();
    assert_eq!(schema["$id"], OUTPUT_SCHEMA_ID);
    assert_eq!(schema["additionalProperties"], false);
}

#[test]
fn bracket_depth_is_counted_outside_strings() {
    assert_eq!(json_depth("[[1],{\"a\":[2]}]"), Some(3));
    assert_eq!(json_depth("\"[[[\""), Some(0));
    assert_eq!(json_depth("\"\\\"[\""), Some(0));
    assert_eq!(json_depth("]"), None);
    assert_eq!(json_depth("[\""), None);
    assert_eq!(json_depth(&format!("{}]", "[".repeat(11))), Some(11));
}

#[test]
fn forbidden_content_is_recognised() {
    assert!(contains_forbidden("please execute this"));
    assert!(contains_forbidden("see /etc/passwd"));
    assert!(contains_forbidden("file://host/share"));
    assert!(contains_forbidden("bell \u{7}"));
    assert!(contains_forbidden("mark \u{200f}"));
    assert!(!contains_forbidden("A plain explanation.\nWith two lines\tand a tab."));
    assert!(!contains_forbidden("Selection of evidence"));
}

fn scores() -> Vec<(String, LocalRisk, u16)> {
    vec![
        ("e1".to_string(), LocalRisk::Critical, 10_000),
        ("e2".to_string(), LocalRisk::NoRisk, 1),
    ]
}

fn response(suggestions: &str) -> Vec<u8> {
    format!(
        "{{\"schema_version\":\"{OUTPUT_SCHEMA_ID}\",\"automatic_action\":false,\"explanation\":\"Summary.\",\"suggestions\":[{suggestions}]}}"
    )
    .into_bytes()
}

#[test]
fn a_valid_response_is_scored_from_host_evidence() {
    let result = validate_response(
        &response("{\"id\":\"A\",\"label\":\"First\",\"explanation\":\"One.\",\"evidence_ids\":[\"e1\",\"e2\"]}"),
        &scores(),
    )
    .unwrap();
    assert_eq!(result.explanation, "Summary.");
    assert!(!result.automatic_action);
    assert_eq!(result.suggestions.len(), 1);
    let suggestion = &result.suggestions[0];
    assert_eq!(suggestion.id, "A");
    assert_eq!(suggestion.label, "First");
    assert_eq!(suggestion.evidence_ids, vec!["e1".to_string(), "e2".to_string()]);
    assert_eq!(suggestion.local_risk.0, 100);
    assert_eq!(suggestion.local_confidence.0, 5_000);
}

#[test]
fn each_failure_of_a_response_has_its_code() {
    assert_eq!(
        validate_response(&[0xff, 0xfe], &scores()).err(),
        Some(FailureCode::ResponseNotUtf8)
    );
    assert_eq!(
        validate_response(b"]", &scores()).err(),
        Some(FailureCode::MalformedJson)
    );
    assert_eq!(
        validate_response(b"{\"a\" 1}", &scores()).err(),
        Some(FailureCode::MalformedJson)
    );
    let acting = format!(
        "{{\"schema_version\":\"{OUTPUT_SCHEMA_ID}\",\"automatic_action\":true,\"explanation\":\"x\",\"suggestions\":[]}}"
    );
    assert_eq!(
        validate_response(acting.as_bytes(), &scores()).err(),
        Some(FailureCode::SchemaViolation)
    );
    assert_eq!(
        validate_response(&response("{\"id\":\"A\",\"label\":\"First\",\"explanation\":\"Delete it.\",\"evidence_ids\":[\"e1\"]}"), &scores()).err(),
        Some(FailureCode::ForbiddenContent)
    );
    assert_eq!(
        validate_response(&response("{\"id\":\"A\",\"label\":\"First\",\"explanation\":\"One.\",\"evidence_ids\":[\"zz\"]}"), &scores()).err(),
        Some(FailureCode::InvalidEvidenceReference)
    );
}

#[test]
fn redaction_hides_each_class_and_records_it() {
    let config = RedactionConfig {
        redact_paths: true,
        redact_emails: true,
        redact_phone_numbers: false,
        identifiers: vec!["ACME-7".to_string()],
    };
    let (visible, records) = redact_text("ACME-7 wrote to bob@example.org, call +34 600 000 000", &config).unwrap();
    assert!(!visible.contains("ACME-7"));
    assert!(!visible.contains("bob@example.org"));
    assert!(visible.contains("+34 600 000 000"));
    assert!(visible.contains("[REDACTED_IDENTIFIER:"));
    assert!(visible.contains("[REDACTED_EMAIL:"));
    let kinds: Vec<RedactionKind> = records.iter().map(|r| r.kind).collect();
    assert_eq!(kinds, vec![RedactionKind::ExplicitIdentifier, RedactionKind::Email]);
    let (same, again) = redact_text("ACME-7 wrote to bob@example.org, call +34 600 000 000", &config).unwrap();
    assert_eq!(same, visible);
    assert_eq!(again.len(), records.len());
}

#[test]
fn digests_are_lower_case_hex_sha256() {
    assert_eq!(
        sha256_hex_text("abc"),
        "ba7816bf8f01cfea414140de5dae2223b00361a396177a9cb410ff61f20015ad"
    );
    assert_eq!(
        sha256_hex(&[]),
        "e3b0c44298fc1c149afbf4c8996fb92427ae41e4649b934ca495991b7852b855"
    );
}

#[test]
fn an_identifier_is_matched_literally() {
    let config = RedactionConfig {
        redact_paths: false,
        redact_emails: false,
        redact_phone_numbers: false,
        identifiers: vec!["a.c".to_string()],
    };
    let (visible, records) = redact_text("abc a.c", &config).unwrap();
    assert!(visible.starts_with("abc [REDACTED_IDENTIFIER:"));
    assert_eq!(records.len(), 1);
    assert_eq!(records[0].byte_start, 4);
    assert_eq!(records[0].original_bytes, 3);
}

#[test]
fn numbers_outside_the_f64_range_are_malformed() {
    assert_eq!(read_json("1e400").err(), Some(ReadFailure::Malformed));
    assert_eq!(read_json("-1e400").err(), Some(ReadFailure::Malformed));
    assert_eq!(read_json("[1, 2e309]").err(), Some(ReadFailure::Malformed));
    assert!(read_json("1e300").is_ok());
    assert!(read_json("123456789012345678901234567890").is_ok());
    assert!(read_json("1e-400").is_ok());
    // The first problem in reading order decides.
    assert_eq!(
        read_json("{\"a\":1e400,\"a\":1}").err(),
        Some(ReadFailure::Malformed)
    );
    assert_eq!(
        read_json("{\"a\":1,\"a\":1e400}").err(),
        Some(ReadFailure::DuplicateKey)
    );
    let out_of_range = b"{\"schema_version\":1e400}";
    assert_eq!(
        validate_response(out_of_range, &scores()).err(),
        Some(FailureCode::MalformedJson)
    );
}
