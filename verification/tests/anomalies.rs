use dataforge::db::analysis::stable_id;
use dataforge::db::anomalies::{
    anomaly_candidates, AnomalyKind, AnomalySeverity, FolderFacts, OccurrenceFacts, RelationFacts,
};

fn row(id: &str, parent: &str, name: &str, content: Option<&str>) -> OccurrenceFacts {
    OccurrenceFacts {
        id: id.to_string(),
        source_root_id: "root-1".to_string(),
        parent: parent.to_string(),
        relative_path: format!("{parent}/{name}"),
        display_path: format!("{parent}/{name}"),
        file_name: name.to_string(),
        normalized_name: name.to_lowercase(),
        path_length: 20,
        status: "OK".to_string(),
        error: None,
        path_is_lossy: false,
        content_id: content.map(str::to_string),
    }
}

#[test]
fn same_name_with_different_content_is_a_variant_warning() {
    let rows = vec![
        row("o1", "docs", "Report.pdf", Some("c1")),
        row("o2", "docs", "report.pdf", Some("c2")),
        row("o3", "docs", "report.pdf", Some("c1")),
        row("o4", "other", "report.pdf", Some("c3")),
    ];
    let out = anomaly_candidates("snap-1", &rows, &vec![], &vec![]);
    assert_eq!(out.len(), 3);
    for c in &out {
        assert_eq!(c.kind, AnomalyKind::SameNameDifferentContent);
        assert_eq!(c.severity, AnomalySeverity::Warning);
        assert!(c.requires_review);
    }
    let ids: Vec<&str> = out.iter().map(|c| c.id.as_str()).collect();
    let mut sorted = ids.clone();
    sorted.sort();
    assert_eq!(ids, sorted);
    let first = out
        .iter()
        .find(|c| c.occurrence_id.as_deref() == Some("o1"))
        .unwrap();
    assert_eq!(
        first.id,
        stable_id("occurrence-anomaly", &["snap-1", "o1", "SAME_NAME_DIFFERENT_CONTENT"])
    );
    assert_eq!(
        first.summary,
        "`docs/Report.pdf` shares its name with different content in the same folder"
    );
    let group = stable_id("same-name-group", &["snap-1", "root-1", "docs", "report.pdf"]);
    assert_eq!(
        first.evidence,
        format!(
            "{{\"comparison_name\":\"report.pdf\",\"distinct_contents\":2,\"group_id\":\"{group}\",\"group_occurrences\":3,\"this_content_id\":\"c1\",\"this_relative_path\":\"docs/Report.pdf\"}}"
        )
    );
    // One content in a group is no finding.
    let single = vec![row("o1", "docs", "a.txt", Some("c1")), row("o2", "docs", "a.txt", Some("c1"))];
    assert!(anomaly_candidates("snap-1", &single, &vec![], &vec![]).is_empty());
}

#[test]
fn lossy_unreadable_and_extreme_paths_are_findings() {
    let mut r = row("o9", "deep", "x.txt", None);
    r.path_is_lossy = true;
    r.status = "ERROR".to_string();
    r.error = Some("denied".to_string());
    r.path_length = 240;
    let out = anomaly_candidates("snap-2", &vec![r], &vec![], &vec![]);
    assert_eq!(out.len(), 3);
    let kinds: Vec<AnomalyKind> = out.iter().map(|c| c.kind).collect();
    assert!(kinds.contains(&AnomalyKind::LossyPathIdentity));
    assert!(kinds.contains(&AnomalyKind::UnreadableEntry));
    assert!(kinds.contains(&AnomalyKind::ExtremePath));
    let unreadable = out.iter().find(|c| c.kind == AnomalyKind::UnreadableEntry).unwrap();
    assert_eq!(unreadable.severity, AnomalySeverity::High);
    assert_eq!(unreadable.summary, "`deep/x.txt` was not read normally");
    assert_eq!(unreadable.evidence, "{\"error\":\"denied\",\"scan_status\":\"ERROR\"}");
    let extreme = out.iter().find(|c| c.kind == AnomalyKind::ExtremePath).unwrap();
    assert_eq!(extreme.evidence, "{\"utf16_path_length\":240}");
    let mut short = row("o8", "deep", "y.txt", None);
    short.path_length = 239;
    assert!(anomaly_candidates("snap-2", &vec![short], &vec![], &vec![]).is_empty());
}

#[test]
fn incomplete_folders_and_partial_trees_are_findings() {
    let folder = FolderFacts {
        id: "f1".to_string(),
        relative_path: "inbox".to_string(),
        display_path: "inbox".to_string(),
        path_is_lossy: false,
        status: "ERROR".to_string(),
        error: None,
    };
    let relation = |kind: &str| RelationFacts {
        folder_a: "f1".to_string(),
        folder_b: "f2".to_string(),
        relationship: kind.to_string(),
        shared_files: 5,
        unique_a_files: 2,
        unique_b_files: 3,
        shared_bytes: 500,
        similarity: "0.5".to_string(),
    };
    let out = anomaly_candidates(
        "snap-3",
        &vec![],
        &vec![folder],
        &vec![relation("PARTIAL_TREE_CLONE"), relation("TREE_EMBEDDED"), relation("TREE_CLONE")],
    );
    assert_eq!(out.len(), 3);
    let incomplete = out.iter().find(|c| c.kind == AnomalyKind::UnreadableEntry).unwrap();
    assert_eq!(incomplete.summary, "folder `inbox` is incomplete (ERROR)");
    assert_eq!(incomplete.folder_a.as_deref(), Some("f1"));
    let partial = out.iter().find(|c| c.kind == AnomalyKind::PartialTreeUniqueContent).unwrap();
    assert_eq!(
        partial.summary,
        "related trees contain unique content on both sides (2 vs 3)"
    );
    assert_eq!(
        partial.evidence,
        "{\"relationship\":\"PARTIAL_TREE_CLONE\",\"shared_bytes\":500,\"shared_files\":5,\"similarity\":0.5,\"unique_a_files\":2,\"unique_b_files\":3}"
    );
    let embedded = out.iter().find(|c| c.kind == AnomalyKind::EmbeddedTree).unwrap();
    assert_eq!(embedded.severity, AnomalySeverity::Info);
    assert_eq!(
        embedded.id,
        stable_id("tree-anomaly", &["snap-3", "f1", "f2", "EMBEDDED_TREE"])
    );
}
