use dataforge::db::analysis::stable_id;
use dataforge::db::rules::{rule_matches, Recommended, RuleFacts, RuleOccurrence};

fn occurrence(id: &str, name: &str, read_ok: bool) -> RuleOccurrence {
    RuleOccurrence {
        id: id.to_string(),
        file_name: name.to_string(),
        relative_path: format!("in/{name}"),
        read_ok,
    }
}

fn rule(id: &str, copy_review: bool, high_risk: bool) -> RuleFacts {
    RuleFacts {
        id: id.to_string(),
        version: 2,
        file_name_glob: "*.tmp".to_string(),
        copy_review,
        high_risk,
    }
}

#[test]
fn the_first_matching_rule_is_selected_and_reviews_follow_action_and_risk() {
    let occs = vec![occurrence("o1", "a.tmp", true), occurrence("o2", "b.tmp", false)];
    let rules = vec![rule("r0", false, false), rule("r1", true, false), rule("r2", false, true)];
    let hits = vec![vec![false, true, true], vec![true, true, true]];
    let out = rule_matches("snap", "generic", "abc", &occs, &rules, &hits);
    // The unreadable occurrence gives nothing.
    assert_eq!(out.len(), 2);
    assert_eq!(out[0].occurrence_id, "o1");
    assert_eq!(out[0].priority, 1);
    assert!(out[0].selected);
    assert_eq!(out[0].id, stable_id("rule-match", &["snap", "o1", "r1", "2"]));
    let review = out[0].review.clone().unwrap();
    assert_eq!(review.0, stable_id("rule-review", &[out[0].id.as_str()]));
    assert_eq!(review.1, Recommended::RuleAction);
    assert_eq!(out[1].priority, 2);
    assert!(!out[1].selected);
    assert_eq!(out[1].review.clone().unwrap().1, Recommended::CopyReview);
    assert_eq!(
        out[0].evidence,
        "{\"file_name\":\"a.tmp\",\"file_name_glob\":\"*.tmp\",\"priority\":1,\"profile_id\":\"generic\",\"profile_sha256\":\"abc\",\"relative_path\":\"in/a.tmp\",\"rule_id\":\"r1\",\"rule_version\":2,\"selected\":true}"
    );
    // A selected rule without copy review or high risk asks for no review.
    let plain = rule_matches("snap", "generic", "abc", &vec![occurrence("o3", "c.tmp", true)], &rules, &vec![vec![true, false, false]]);
    assert_eq!(plain.len(), 1);
    assert!(plain[0].review.is_none());
}
