use dataforge::db::threads::{
    check_mail_threads, mail_thread_step, MailThreadInput, MailThreadMemberInput, ThreadProblem,
    ThreadStep,
};
use dataforge::db::analysis::stable_id;
use dataforge::db::context::{strongest_alternative, ProfileFitnessSignal};
use dataforge::db::dedup::{
    ancestor_paths, choose_representative, has_copy_marker, location_cost,
    most_restrictive_context, reason_for, representative, score_occurrence,
    worst_ancestor_penalty, Candidate, ContextKind, DuplicateRow, FolderContext, FolderPenalty,
};
use dataforge::db::extraction::{check_segments, is_sha256, SegmentProblem, TextSegmentInput};
use dataforge::db::integrity::integrity_report;
use dataforge::db::representation::{
    content_result_step, validate_representation_shape, ArchiveEntry, ContentRefusal, ContentStep, ContentExtractionInput, DocumentFormat,
    DocumentRepresentation, ExtractionStatus, MailAttachment, PersistenceLimits, RunIdentity,
    ShapeProblem, TextSubject, TextSubjectInput, TextSubjectKind,
};
use dataforge::db::liveness::{liveness_of, RunStage};
use dataforge::db::migrations::{
    migration_step, migrations, sql_checksum, versions_strictly_increasing, Migration,
    MigrationStep,
};
use dataforge::digest::sha256_hex_text;

#[test]
fn copy_markers_are_detected() {
    assert!(has_copy_marker("informe - copia.pdf"));
    assert!(has_copy_marker("informe - copy.pdf"));
    assert!(has_copy_marker("copia de informe.pdf"));
    assert!(has_copy_marker("informe (1).pdf"));
    assert!(has_copy_marker("informe (12).pdf"));
    assert!(!has_copy_marker("informe.pdf"));
    assert!(!has_copy_marker("contrato final.pdf"));
    // Parenthesised text that is not a number is a legitimate name.
    assert!(!has_copy_marker("informe (final).pdf"));
}

#[test]
fn copy_markers_look_only_at_the_stem() {
    assert!(has_copy_marker("copy of notes"));
    assert!(has_copy_marker("acta (3)).txt"));
    assert!(!has_copy_marker("informe ().pdf"));
    assert!(!has_copy_marker("informe.pdf - copia"));
    assert!(has_copy_marker("archivo.tar - copy.gz"));
    assert!(!has_copy_marker(""));
}

#[test]
fn ancestors_walk_up_to_the_root() {
    assert_eq!(ancestor_paths("a/b"), vec!["a/b", "a", ""]);
    assert_eq!(ancestor_paths("a"), vec!["a", ""]);
    assert_eq!(ancestor_paths(""), vec![""]);
    assert_eq!(ancestor_paths("a\\b\\c"), vec!["a\\b\\c", "a\\b", "a", ""]);
}

#[test]
fn ancestors_keep_a_leading_separator_as_the_root() {
    assert_eq!(ancestor_paths("/a"), vec!["/a", ""]);
    assert_eq!(ancestor_paths("a//b"), vec!["a//b", "a/", "a", ""]);
}

#[test]
fn a_generic_location_costs_more_than_a_clean_deep_path() {
    // Inside Descargas (50) at depth 1 vs. a clean path at depth 5.
    let generic = location_cost(50, false, 1);
    let clean_deep = location_cost(0, false, 5);
    assert!(clean_deep < generic, "location dominates depth");
    // A copy marker breaks a tie between equally-located files.
    assert!(location_cost(0, false, 2) < location_cost(0, true, 2));
}

#[test]
fn location_cost_weighs_each_signal() {
    assert_eq!(location_cost(50, false, 1), 5_001);
    assert_eq!(location_cost(0, true, 2), 12);
    assert_eq!(location_cost(3, true, 0), 310);
}

#[test]
fn the_reason_names_every_signal() {
    assert_eq!(
        reason_for(50, Some("Descargas"), true, 3),
        "inside a generic `Descargas` folder (penalty 50); file name carries a copy marker; path depth 3"
    );
    assert_eq!(
        reason_for(0, Some("Descargas"), false, 0),
        "outside any generic folder; clean file name; path depth 0"
    );
    assert_eq!(
        reason_for(7, None, false, -2),
        "outside any generic folder; clean file name; path depth -2"
    );
}

fn penalty(root: &str, path: &str, value: u32, marker: &str) -> FolderPenalty {
    FolderPenalty {
        source_root_id: root.to_string(),
        relative_path: path.to_string(),
        penalty: value,
        marker: Some(marker.to_string()),
    }
}

#[test]
fn the_worst_ancestor_penalty_wins() {
    let entries = vec![
        penalty("r1", "Descargas", 50, "Descargas"),
        penalty("r1", "Descargas/Backup", 30, "Backup"),
        penalty("r2", "Descargas/Backup/x", 90, "Temporales"),
    ];
    let (value, marker) = worst_ancestor_penalty(&entries, "r1", "Descargas/Backup/x");
    assert_eq!(value, 50);
    assert_eq!(marker.as_deref(), Some("Descargas"));
    let (none, no_marker) = worst_ancestor_penalty(&entries, "r1", "Documentos");
    assert_eq!(none, 0);
    assert_eq!(no_marker, None);
}

fn context(path: &str, kind: ContextKind, marker: &str) -> FolderContext {
    FolderContext {
        source_root_id: "r".to_string(),
        relative_path: path.to_string(),
        kind,
        marker: Some(marker.to_string()),
    }
}

#[test]
fn a_protected_folder_wins_over_a_generic_one() {
    let entries = vec![
        context("Expedientes/2024-01", ContextKind::Protected, "expediente"),
        context("Expedientes/2024-01/Copia", ContextKind::Generic, "Copia"),
    ];
    let (kind, marker) = most_restrictive_context(&entries, "r", "Expedientes/2024-01/Copia");
    assert_eq!(kind, ContextKind::Protected);
    assert_eq!(marker.as_deref(), Some("expediente"));
    let (plain, none) = most_restrictive_context(&entries, "r", "Otros");
    assert_eq!(plain, ContextKind::Neutral);
    assert_eq!(none, None);
}

fn candidate(path: &str, cost: i64) -> Candidate {
    Candidate {
        occurrence_id: path.to_string(),
        absolute_path: path.to_string(),
        cost,
        reason: String::new(),
    }
}

#[test]
fn the_cheapest_candidate_represents_the_set_and_ties_break_on_the_path() {
    let candidates = vec![
        candidate("/b/file", 5),
        candidate("/a/file", 5),
        candidate("/c/file", 9),
    ];
    assert_eq!(choose_representative(&candidates), 1);
    let first_of_equals = vec![candidate("/a", 1), candidate("/a", 1)];
    assert_eq!(choose_representative(&first_of_equals), 0);
}

fn row(occurrence: &str, relative: &str, parent: &str, name: &str) -> DuplicateRow {
    DuplicateRow {
        set_id: "set".to_string(),
        occurrence_id: occurrence.to_string(),
        source_root_id: "r1".to_string(),
        root_path: "/data".to_string(),
        relative_path: relative.to_string(),
        parent_relative_path: parent.to_string(),
        normalized_name: name.to_string(),
    }
}

#[test]
fn a_clean_deep_copy_represents_a_set_over_one_in_downloads() {
    let entries = vec![penalty("r1", "Descargas", 50, "Descargas")];
    let rows = vec![
        row("o1", "Descargas/informe.pdf", "Descargas", "informe.pdf"),
        row("o2", "a/b/c/d/informe.pdf", "a/b/c/d", "informe.pdf"),
        row("o3", "a/informe - copia.pdf", "a", "informe - copia.pdf"),
    ];
    let best = representative(&rows, &entries).expect("a non-empty set");
    assert_eq!(best.occurrence_id, "o2");
    assert_eq!(best.cost, 4);
    assert_eq!(
        best.reason,
        "outside any generic folder; clean file name; path depth 4"
    );
    assert!(representative(&Vec::new(), &entries).is_none());

    let scored = score_occurrence(&rows[0], &entries, '/');
    assert_eq!(scored.cost, 5_001);
    assert_eq!(scored.absolute_path, "/data/Descargas/informe.pdf");
}

#[test]
fn migration_versions_are_strictly_increasing() {
    let mut previous = 0;
    for migration in migrations() {
        assert!(migration.version > previous);
        previous = migration.version;
    }
}

#[test]
fn the_catalog_names_every_migration_in_order() {
    let catalog = migrations();
    assert_eq!(catalog.len(), 17);
    assert_eq!(catalog[0].name, "foundation");
    assert_eq!(catalog[16].name, "plugin_ecosystem");
    assert!(versions_strictly_increasing(&catalog));
    let shuffled = vec![
        Migration {
            version: 2,
            name: "b",
        },
        Migration {
            version: 2,
            name: "c",
        },
    ];
    assert!(!versions_strictly_increasing(&shuffled));
}

#[test]
fn checksum_is_stable_across_line_endings() {
    assert_eq!(sql_checksum("a\r\nb"), sql_checksum("a\nb"));
    assert_eq!(sql_checksum("a\nb"), sha256_hex_text("a\nb"));
    assert_ne!(sql_checksum("a\rb"), sql_checksum("a\nb"));
}

#[test]
fn an_applied_migration_is_current_or_drifted() {
    assert_eq!(migration_step(None, "abc"), MigrationStep::Apply);
    assert_eq!(migration_step(Some("abc"), "abc"), MigrationStep::Current);
    assert_eq!(migration_step(Some("abd"), "abc"), MigrationStep::Drifted);
}

#[test]
fn the_strongest_alternative_profile_is_named() {
    let counts = vec![
        ("generic".to_string(), 0),
        ("legal".to_string(), 4),
        ("archive".to_string(), 4),
        ("media".to_string(), 1),
    ];
    let signal = strongest_alternative(&counts).expect("a profile protects more");
    assert_eq!(
        signal,
        ProfileFitnessSignal {
            profile_id: "archive".to_string(),
            unprotected_folders: 4
        }
    );
    assert_eq!(
        signal.message(),
        "profile \"archive\" would protect 4 folders this run leaves unprotected"
    );
    assert!(strongest_alternative(&vec![("generic".to_string(), 0)]).is_none());
}

#[test]
fn an_integrity_report_lists_every_problem() {
    let clean = integrity_report("ok", 0, None, None);
    assert!(clean.is_ok());
    assert!(clean.problems.is_empty());
    let broken = integrity_report(
        "row 3 missing from index",
        2,
        Some("migration 0004 checksum mismatch".to_string()),
        None,
    );
    assert!(!broken.is_ok());
    assert!(!broken.database_ok);
    assert!(!broken.foreign_keys_ok);
    assert!(!broken.migrations_ok);
    assert!(broken.ledger_ok);
    assert_eq!(
        broken.problems,
        vec![
            "integrity_check: row 3 missing from index".to_string(),
            "foreign_key_check: 2 violation(s)".to_string(),
            "migration 0004 checksum mismatch".to_string(),
        ]
    );
}

#[test]
fn a_claim_from_another_process_is_not_ours() {
    let ours = liveness_of("HASH", 42, "host-a", "t0", "t1", 3, 42, "host-a");
    assert!(ours.is_this_process);
    assert!(ours.is_this_host);
    let other = liveness_of("EXECUTE", 43, "host-a", "t0", "t1", 3, 42, "host-a");
    assert!(!other.is_this_process);
    assert!(other.is_this_host);
    let elsewhere = liveness_of("EXECUTE", 42, "host-b", "t0", "t1", -5, 42, "host-a");
    assert!(!elsewhere.is_this_process);
    assert!(!elsewhere.is_this_host);
    assert_eq!(elsewhere.heartbeat_age_seconds, -5);
    assert_eq!(RunStage::Verify.as_str(), "VERIFY");
    assert_eq!(RunStage::Verify.as_str_pascal(), "Verify");
}

#[test]
fn sha256_digests_are_recognised() {
    assert!(is_sha256(&"a".repeat(64)));
    assert!(is_sha256(&sha256_hex_text("x")));
    assert!(!is_sha256(&"A".repeat(64)));
    assert!(!is_sha256(&"a".repeat(63)));
    assert!(!is_sha256(&"g".repeat(64)));
}

fn segment(ordinal: u32, start: u64, text: &str) -> TextSegmentInput {
    TextSegmentInput {
        ordinal,
        char_start: start,
        char_end: start + text.chars().count() as u64,
        text: text.to_string(),
        text_sha256: sha256_hex_text(text),
    }
}

#[test]
fn segments_must_chain_and_hash_to_the_subject() {
    let segments = vec![segment(0, 0, "héllo "), segment(1, 6, "world")];
    let digest = sha256_hex_text("héllo world");
    assert_eq!(check_segments(&segments, 11, Some(&digest), 100), Ok(()));
    assert_eq!(
        check_segments(&segments, 12, Some(&digest), 100),
        Err(SegmentProblem::CharCountMismatch)
    );
    assert_eq!(
        check_segments(&segments, 11, Some(&sha256_hex_text("other")), 100),
        Err(SegmentProblem::DigestMismatch)
    );
    assert_eq!(
        check_segments(&segments, 11, None, 100),
        Err(SegmentProblem::MissingDigest)
    );
    assert_eq!(
        check_segments(&segments, 11, Some(&digest), 5),
        Err(SegmentProblem::InvalidSegment(0))
    );
    let gap = vec![segment(0, 0, "a"), segment(1, 2, "b")];
    assert_eq!(
        check_segments(&gap, 3, None, 100),
        Err(SegmentProblem::InvalidSegment(1))
    );
    assert_eq!(check_segments(&Vec::new(), 0, None, 100), Ok(()));
}

fn run_identity() -> RunIdentity {
    RunIdentity {
        extractor_version: "extractor/1".to_string(),
        config_digest: "c".repeat(64),
    }
}

fn limits() -> PersistenceLimits {
    PersistenceLimits {
        max_text_chars: 1_000,
        text_segment_chars: 100,
    }
}

fn text_input() -> ContentExtractionInput {
    let text = "héllo";
    let digest = sha256_hex_text(text);
    ContentExtractionInput {
        representation: DocumentRepresentation {
            id: 7,
            extractor_version: "extractor/1".to_string(),
            config_digest: "c".repeat(64),
            format: DocumentFormat::Text,
            mime: "text/plain".to_string(),
            status: ExtractionStatus::Extracted,
            normalized_text_sha256: Some(digest.clone()),
            normalized_chars: 5,
            text_truncated: false,
            error: None,
        },
        source_sha256: "a".repeat(64),
        subjects: vec![TextSubjectInput {
            subject: TextSubject {
                id: 70,
                representation_id: 7,
                kind: TextSubjectKind::Document,
                parent_subject_id: None,
                display_name: "greeting.txt".to_string(),
                virtual_path: None,
                mime: "text/plain".to_string(),
                size_bytes: 6,
                normalized_text_sha256: Some(digest.clone()),
                normalized_chars: 5,
                text_truncated: false,
            },
            segments: vec![segment(0, 0, text)],
        }],
        mail_message: None,
        mail_attachments: Vec::new(),
        archive_entries: Vec::new(),
    }
}

#[test]
fn well_formed_extraction_evidence_is_accepted() {
    assert_eq!(
        validate_representation_shape(&text_input(), &run_identity(), limits()),
        Ok(())
    );
}

#[test]
fn each_shape_problem_is_named() {
    let check = |input: &ContentExtractionInput| {
        validate_representation_shape(input, &run_identity(), limits())
    };
    let mut other_run = text_input();
    other_run.representation.extractor_version = "extractor/2".to_string();
    assert_eq!(check(&other_run), Err(ShapeProblem::InvalidIdentity));

    let mut erred = text_input();
    erred.representation.error = Some("boom".to_string());
    assert_eq!(check(&erred), Err(ShapeProblem::ExtractedNotClean));

    let mut limited = text_input();
    limited.representation.status = ExtractionStatus::Limited;
    limited.representation.error = Some("  ".to_string());
    assert_eq!(check(&limited), Err(ShapeProblem::MissingError));

    let mut twice = text_input();
    let copy = twice.subjects[0].clone();
    twice.subjects.push(copy);
    assert_eq!(check(&twice), Err(ShapeProblem::InvalidSubject));

    let small = PersistenceLimits {
        max_text_chars: 4,
        text_segment_chars: 100,
    };
    assert_eq!(
        validate_representation_shape(&text_input(), &run_identity(), small),
        Err(ShapeProblem::TextOverBound)
    );

    let mut placed = text_input();
    placed.subjects[0].subject.virtual_path = Some("inner".to_string());
    assert_eq!(check(&placed), Err(ShapeProblem::DocumentWithParent));

    let mut tampered = text_input();
    tampered.subjects[0].subject.normalized_text_sha256 = Some(sha256_hex_text("other"));
    tampered.representation.normalized_text_sha256 = Some(sha256_hex_text("other"));
    assert_eq!(
        check(&tampered),
        Err(ShapeProblem::Segments {
            subject: 70,
            problem: SegmentProblem::DigestMismatch
        })
    );

    let mut summary = text_input();
    summary.representation.text_truncated = true;
    assert_eq!(check(&summary), Err(ShapeProblem::SummaryMismatch));

    let mut mail = text_input();
    mail.representation.format = DocumentFormat::Eml;
    assert_eq!(check(&mail), Err(ShapeProblem::MissingMail));

    let mut attached = text_input();
    attached.mail_attachments.push(MailAttachment {
        id: 1,
        representation_id: 7,
        ordinal: 0,
        subject_id: 70,
        file_name: "a.pdf".to_string(),
        mime: "application/pdf".to_string(),
        size_bytes: 10,
        sha256: "b".repeat(64),
    });
    assert_eq!(check(&attached), Err(ShapeProblem::AttachmentsNeedEml));
}

fn entry(id: u128, ordinal: u32, path: &str) -> ArchiveEntry {
    ArchiveEntry {
        id,
        representation_id: 7,
        ordinal,
        subject_id: None,
        virtual_path: path.to_string(),
        compressed_bytes: 3,
        size_bytes: 5,
        sha256: Some("d".repeat(64)),
        directory: false,
    }
}

#[test]
fn archive_entries_need_a_zip_and_unique_paths() {
    let mut zip = text_input();
    zip.representation.format = DocumentFormat::Zip;
    zip.archive_entries = vec![entry(1, 0, "a.txt"), entry(2, 1, "b.txt")];
    assert_eq!(
        validate_representation_shape(&zip, &run_identity(), limits()),
        Ok(())
    );
    zip.archive_entries.push(entry(3, 2, "a.txt"));
    assert_eq!(
        validate_representation_shape(&zip, &run_identity(), limits()),
        Err(ShapeProblem::InvalidArchiveEntry)
    );
    let mut text = text_input();
    text.archive_entries = vec![entry(1, 0, "a.txt")];
    assert_eq!(
        validate_representation_shape(&text, &run_identity(), limits()),
        Err(ShapeProblem::EntriesNeedZip)
    );
}

#[test]
fn an_embedded_subject_needs_a_parent_inside_the_representation() {
    let mut zip = text_input();
    zip.representation.format = DocumentFormat::Zip;
    zip.subjects.push(TextSubjectInput {
        subject: TextSubject {
            id: 71,
            representation_id: 7,
            kind: TextSubjectKind::ArchiveEntry,
            parent_subject_id: Some(99),
            display_name: "inner.txt".to_string(),
            virtual_path: Some("inner.txt".to_string()),
            mime: "text/plain".to_string(),
            size_bytes: 0,
            normalized_text_sha256: None,
            normalized_chars: 0,
            text_truncated: false,
        },
        segments: Vec::new(),
    });
    assert_eq!(
        validate_representation_shape(&zip, &run_identity(), limits()),
        Err(ShapeProblem::ParentOutside { subject: 71 })
    );
    zip.subjects[1].subject.parent_subject_id = Some(70);
    let mut with_entry = entry(1, 0, "inner.txt");
    with_entry.subject_id = Some(71);
    zip.archive_entries = vec![with_entry];
    assert_eq!(
        validate_representation_shape(&zip, &run_identity(), limits()),
        Ok(())
    );
}

#[test]
fn stable_ids_are_unambiguous_and_repeatable() {
    assert_eq!(stable_id("x", &["ab", "c"]), stable_id("x", &["ab", "c"]));
    assert_ne!(stable_id("x", &["ab", "c"]), stable_id("x", &["a", "bc"]));
    assert_ne!(stable_id("x", &["a"]), stable_id("y", &["a"]));
    assert_eq!(stable_id("x", &[]).len(), 64);
}

fn member(id: u128, parent: Option<u128>) -> MailThreadMemberInput {
    MailThreadMemberInput {
        representation_id: id,
        parent_representation_id: parent,
    }
}

fn thread(id: u128, members: Vec<MailThreadMemberInput>) -> MailThreadInput {
    MailThreadInput {
        id,
        root_message_id: Some("<root@example.com>".to_string()),
        normalized_subject: Some("budget".to_string()),
        members,
    }
}

#[test]
fn sound_threads_pass_and_each_shape_fault_has_its_problem() {
    let good = vec![
        thread(1, vec![member(10, None), member(11, Some(10)), member(12, Some(11))]),
        thread(2, vec![member(20, None)]),
    ];
    assert_eq!(check_mail_threads(&good), Ok(()));
    assert_eq!(check_mail_threads(&vec![]), Ok(()));
    // A repeated thread id, and an empty thread.
    let repeated = vec![thread(1, vec![member(10, None)]), thread(1, vec![member(20, None)])];
    assert_eq!(check_mail_threads(&repeated), Err(ThreadProblem::Threads));
    assert_eq!(check_mail_threads(&vec![thread(3, vec![])]), Err(ThreadProblem::Threads));
    // A message in two threads, a self-reply, and a reply before its parent.
    let shared = vec![thread(1, vec![member(10, None)]), thread(2, vec![member(10, None)])];
    assert_eq!(check_mail_threads(&shared), Err(ThreadProblem::Members));
    assert_eq!(
        check_mail_threads(&vec![thread(1, vec![member(10, Some(10))])]),
        Err(ThreadProblem::Members)
    );
    assert_eq!(
        check_mail_threads(&vec![thread(1, vec![member(11, Some(10)), member(10, None)])]),
        Err(ThreadProblem::Members)
    );
    // A parent in another thread does not count.
    let elsewhere = vec![thread(1, vec![member(10, None)]), thread(2, vec![member(11, Some(10))])];
    assert_eq!(check_mail_threads(&elsewhere), Err(ThreadProblem::Members));
    // The first problem in order decides.
    let both = vec![thread(1, vec![member(10, Some(10))]), thread(1, vec![member(20, None)])];
    assert_eq!(check_mail_threads(&both), Err(ThreadProblem::Members));
    assert_eq!(
        ThreadProblem::Members.message(),
        "mail thread members are duplicated, cyclic or not parent-first"
    );
}

#[test]
fn sealed_runs_take_only_an_exact_replay() {
    assert_eq!(mail_thread_step(false, true, 2, 2, true), ThreadStep::AlreadyStored(2));
    assert_eq!(mail_thread_step(false, true, 2, 2, false), ThreadStep::Sealed);
    assert_eq!(mail_thread_step(false, false, 0, 2, true), ThreadStep::Sealed);
    assert_eq!(mail_thread_step(true, false, 3, 2, true), ThreadStep::AlreadyStored(3));
    assert_eq!(mail_thread_step(true, false, 3, 2, false), ThreadStep::ReplayDiffers);
    assert_eq!(mail_thread_step(true, false, 0, 0, false), ThreadStep::Nothing);
    assert_eq!(mail_thread_step(true, false, 0, 2, false), ThreadStep::Store);
}

#[test]
fn a_commit_needs_the_canonical_digest_and_a_deterministic_representation() {
    let input = text_input();
    let source = "a".repeat(64);
    let step = |canonical: Option<&str>, mapped, running, existing| {
        content_result_step(canonical, &input, &run_identity(), limits(), mapped, running, existing)
    };
    assert_eq!(step(None, None, true, None), Err(ContentRefusal::NotCanonical));
    assert_eq!(step(Some(&"b".repeat(64)), None, true, None), Err(ContentRefusal::NotCanonical));
    assert_eq!(step(Some(&source), Some((7, true)), false, None), Ok(ContentStep::AlreadyCommitted(7)));
    assert_eq!(step(Some(&source), Some((7, false)), true, None), Err(ContentRefusal::ReplayDiffers));
    assert_eq!(step(Some(&source), None, false, None), Err(ContentRefusal::Sealed));
    assert_eq!(step(Some(&source), None, true, Some((9, true))), Ok(ContentStep::BindExisting(9)));
    assert_eq!(step(Some(&source), None, true, Some((9, false))), Err(ContentRefusal::NonDeterministic));
    assert_eq!(step(Some(&source), None, true, None), Ok(ContentStep::Insert));
    let mut bad = text_input();
    bad.representation.config_digest = "d".repeat(64);
    assert!(matches!(
        content_result_step(Some(&source), &bad, &run_identity(), limits(), None, true, None),
        Err(ContentRefusal::Shape(_))
    ));
}
