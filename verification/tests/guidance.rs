use dataforge::db::guidance::{
    path_ancestors, review_guidance, reviews_of_occurrence, FolderReviewFacts, FolderScope, ReviewFacts, ReviewRisk,
    ReviewVerdict,
};

fn review(id: &str, risk: ReviewRisk, decision: Option<&str>, rationale: Option<&str>) -> ReviewFacts {
    ReviewFacts {
        item_id: id.to_string(),
        risk,
        decision: decision.map(str::to_string),
        rationale: rationale.map(str::to_string),
    }
}

fn scope(path: &str) -> Option<FolderScope> {
    Some(FolderScope {
        source_root_id: "root".to_string(),
        relative_path: path.to_string(),
    })
}

#[test]
fn folder_reviews_reach_every_occurrence_below_them_once() {
    let own = vec![review("i0", ReviewRisk::Low, None, None)];
    let folders = vec![
        FolderReviewFacts { review: review("f1", ReviewRisk::High, None, None), folder_a: scope("a"), folder_b: scope("a/b") },
        FolderReviewFacts { review: review("f2", ReviewRisk::Medium, None, None), folder_a: scope("a/b"), folder_b: None },
        FolderReviewFacts { review: review("f3", ReviewRisk::Low, None, None), folder_a: scope("z"), folder_b: None },
        FolderReviewFacts { review: review("f4", ReviewRisk::Low, None, None), folder_a: scope(""), folder_b: None },
    ];
    let got = reviews_of_occurrence(&own, &folders, "root", &path_ancestors("a/b"));
    let ids: Vec<&str> = got.iter().map(|r| r.item_id.as_str()).collect();
    // Nearest folder first: a/b (f1, f2), then a (f1 again, skipped), then the root (f4).
    assert_eq!(ids, vec!["i0", "f1", "f2", "f4"]);
    let elsewhere = reviews_of_occurrence(&vec![], &folders, "other-root", &path_ancestors("a/b"));
    assert!(elsewhere.is_empty());
}

#[test]
fn pending_agreeing_and_conflicting_reviews() {
    assert!(review_guidance(&vec![]).is_none());
    let (risk, verdict) = review_guidance(&vec![
        review("i1", ReviewRisk::Medium, Some("COPY_ACTIVE"), Some("fine")),
        review("i2", ReviewRisk::Low, None, None),
        review("i3", ReviewRisk::Low, None, None),
    ])
    .unwrap();
    assert_eq!(risk, ReviewRisk::Medium);
    match verdict {
        ReviewVerdict::Pending { reason } => assert_eq!(reason, "pending human review item(s): i2, i3"),
        other => panic!("{other:?}"),
    }
    let (risk, verdict) = review_guidance(&vec![
        review("i1", ReviewRisk::High, Some("COPY_ACTIVE"), Some("fine")),
        review("i2", ReviewRisk::Low, Some("COPY_ACTIVE"), None),
    ])
    .unwrap();
    assert_eq!(risk, ReviewRisk::High);
    match verdict {
        ReviewVerdict::Decided { action, reason } => {
            assert_eq!(action, "COPY_ACTIVE");
            assert_eq!(reason, "human review decided `COPY_ACTIVE`: i1: fine; i2: no rationale");
        }
        other => panic!("{other:?}"),
    }
    let (_, verdict) = review_guidance(&vec![
        review("i1", ReviewRisk::Low, Some("EXCLUDE"), None),
        review("i2", ReviewRisk::Low, Some("COPY_ACTIVE"), None),
        review("i3", ReviewRisk::Low, Some("EXCLUDE"), None),
    ])
    .unwrap();
    match verdict {
        ReviewVerdict::Conflicting { reason } => {
            assert_eq!(reason, "conflicting human review decisions: COPY_ACTIVE, EXCLUDE")
        }
        other => panic!("{other:?}"),
    }
}

#[test]
fn ancestors_follow_the_platform_path_rules() {
    assert_eq!(path_ancestors("a/b"), vec!["a/b".to_string(), "a".to_string(), String::new()]);
    // Repeated separators collapse, as `Path::ancestors` does.
    assert_eq!(path_ancestors("a//b"), vec!["a//b".to_string(), "a".to_string(), String::new()]);
    assert_eq!(path_ancestors(""), vec![String::new()]);
    let expected: Vec<String> = std::path::Path::new("x\\y/z")
        .ancestors()
        .map(|p| p.display().to_string())
        .collect();
    assert_eq!(path_ancestors("x\\y/z"), expected);
}
