//! Structural anomalies of a snapshot: deterministic findings over the
//! scanned occurrences, folders and tree relations. Every finding asks for
//! human review and carries a versioned id, so a rerun finds the same ids.
//!
//! The same name with different content in one folder is a collision, never
//! an exact duplicate. A lossy path, an entry that was not read normally and
//! a path near common Windows limits are findings of their own; so are
//! incomplete folders and trees that only partly agree.

use vstd::prelude::*;
use crate::db::analysis::{stable_id, id_preimage};
use crate::digest::sha256_hex_of;
use crate::json::{Json, JsonValue, json_text, canonical, push_member, view_members};
use crate::text::{decimal, push_str, push_decimal, string_from_chars, same_text, str_chars, chars_less, chars_lt, copy_str};

verus! {

/// What a finding is about.
#[derive(Clone, Copy, Debug, PartialEq, Eq, Structural)]
pub enum AnomalyKind {
    SameNameDifferentContent,
    LossyPathIdentity,
    UnreadableEntry,
    ExtremePath,
    PartialTreeUniqueContent,
    EmbeddedTree,
}

impl AnomalyKind {
    pub open spec fn name(self) -> Seq<char> {
        match self {
            AnomalyKind::SameNameDifferentContent => "SAME_NAME_DIFFERENT_CONTENT"@,
            AnomalyKind::LossyPathIdentity => "LOSSY_PATH_IDENTITY"@,
            AnomalyKind::UnreadableEntry => "UNREADABLE_ENTRY"@,
            AnomalyKind::ExtremePath => "EXTREME_PATH"@,
            AnomalyKind::PartialTreeUniqueContent => "PARTIAL_TREE_UNIQUE_CONTENT"@,
            AnomalyKind::EmbeddedTree => "EMBEDDED_TREE"@,
        }
    }

    /// The stored name of the kind.
    pub fn as_str(self) -> (s: &'static str)
        ensures
            s@ == self.name(),
    {
        match self {
            AnomalyKind::SameNameDifferentContent => "SAME_NAME_DIFFERENT_CONTENT",
            AnomalyKind::LossyPathIdentity => "LOSSY_PATH_IDENTITY",
            AnomalyKind::UnreadableEntry => "UNREADABLE_ENTRY",
            AnomalyKind::ExtremePath => "EXTREME_PATH",
            AnomalyKind::PartialTreeUniqueContent => "PARTIAL_TREE_UNIQUE_CONTENT",
            AnomalyKind::EmbeddedTree => "EMBEDDED_TREE",
        }
    }
}

/// How serious a finding is.
#[derive(Clone, Copy, Debug, PartialEq, Eq, Structural)]
pub enum AnomalySeverity {
    Info,
    Warning,
    High,
}

/// The facts of one scanned occurrence that the rules read.
#[derive(Clone, Debug)]
pub struct OccurrenceFacts {
    pub id: String,
    pub source_root_id: String,
    pub parent: String,
    pub relative_path: String,
    pub display_path: String,
    pub file_name: String,
    pub normalized_name: String,
    /// Length of the path in UTF-16 units.
    pub path_length: u64,
    pub status: String,
    pub error: Option<String>,
    pub path_is_lossy: bool,
    pub content_id: Option<String>,
}

/// The facts of one scanned folder; the display path and whether the raw
/// path is lossy come from its stored raw identity.
#[derive(Clone, Debug)]
pub struct FolderFacts {
    pub id: String,
    pub relative_path: String,
    pub display_path: String,
    pub path_is_lossy: bool,
    pub status: String,
    pub error: Option<String>,
}

/// One stored relation between two folder trees. `similarity` is the JSON
/// text of the stored similarity ratio.
#[derive(Clone, Debug)]
pub struct RelationFacts {
    pub folder_a: String,
    pub folder_b: String,
    pub relationship: String,
    pub shared_files: u64,
    pub unique_a_files: u64,
    pub unique_b_files: u64,
    pub shared_bytes: u64,
    pub similarity: String,
}

/// One finding, ready to be stored. Every finding asks for review.
#[derive(Clone, Debug)]
pub struct AnomalyCandidate {
    pub id: String,
    pub occurrence_id: Option<String>,
    pub folder_a: Option<String>,
    pub folder_b: Option<String>,
    pub kind: AnomalyKind,
    pub severity: AnomalySeverity,
    pub requires_review: bool,
    pub summary: String,
    /// Canonical JSON of the evidence.
    pub evidence: String,
}

/// The abstract form of a finding.
pub struct Finding {
    pub id: Seq<char>,
    pub occurrence_id: Option<Seq<char>>,
    pub folder_a: Option<Seq<char>>,
    pub folder_b: Option<Seq<char>>,
    pub kind: AnomalyKind,
    pub severity: AnomalySeverity,
    pub summary: Seq<char>,
    pub evidence: Json,
}

pub open spec fn opt_view(o: Option<String>) -> Option<Seq<char>> {
    match o {
        Some(s) => Some(s@),
        None => None,
    }
}

/// A candidate states a finding: the same fields, review asked, and the
/// evidence as canonical JSON.
pub open spec fn states(c: AnomalyCandidate, f: Finding) -> bool {
    &&& c.id@ == f.id
    &&& opt_view(c.occurrence_id) == f.occurrence_id
    &&& opt_view(c.folder_a) == f.folder_a
    &&& opt_view(c.folder_b) == f.folder_b
    &&& c.kind == f.kind
    &&& c.severity == f.severity
    &&& c.requires_review
    &&& c.summary@ == f.summary
    &&& c.evidence@ == json_text(f.evidence, true)
}

pub open spec fn opt_json(o: Option<Seq<char>>) -> Json {
    match o {
        Some(s) => Json::Str(s),
        None => Json::Null,
    }
}

/// The versioned id of a finding.
pub open spec fn finding_id(namespace: Seq<char>, parts: Seq<Seq<char>>) -> Seq<char> {
    sha256_hex_of(id_preimage(namespace, parts))
}

// ---------------------------------------------------------------------
// Occurrences

/// Two occurrences are in one name group when both have content and share
/// their source root, folder and comparison name.
pub open spec fn same_group(a: OccurrenceFacts, b: OccurrenceFacts) -> bool {
    &&& a.content_id is Some
    &&& b.content_id is Some
    &&& a.source_root_id@ == b.source_root_id@
    &&& a.parent@ == b.parent@
    &&& a.normalized_name@ == b.normalized_name@
}

/// How many of the first `n` rows are in the group of `r`.
pub open spec fn group_size(rows: Seq<OccurrenceFacts>, r: OccurrenceFacts, n: int) -> int
    decreases n,
{
    if n <= 0 {
        0
    } else {
        group_size(rows, r, n - 1) + if same_group(rows[n - 1], r) {
            1int
        } else {
            0int
        }
    }
}

/// Whether one of the first `n` rows is in the group of `r` with the
/// content `content`.
pub open spec fn content_seen(rows: Seq<OccurrenceFacts>, r: OccurrenceFacts, content: Seq<char>, n: int) -> bool {
    exists|j: int| 0 <= j < n && same_group(#[trigger] rows[j], r) && rows[j].content_id->0@ == content
}

/// How many distinct contents the first `n` rows of the group of `r` hold.
pub open spec fn distinct_contents(rows: Seq<OccurrenceFacts>, r: OccurrenceFacts, n: int) -> int
    decreases n,
{
    if n <= 0 {
        0
    } else {
        distinct_contents(rows, r, n - 1) + if same_group(rows[n - 1], r) && !content_seen(
            rows,
            r,
            rows[n - 1].content_id->0@,
            n - 1,
        ) {
            1int
        } else {
            0int
        }
    }
}

pub open spec fn occurrence_finding_id(snapshot: Seq<char>, row: OccurrenceFacts, kind: AnomalyKind) -> Seq<char> {
    finding_id("occurrence-anomaly"@, seq![snapshot, row.id@, kind.name()])
}

/// The finding on an occurrence that shares its name with different content
/// in its folder.
pub open spec fn same_name_finding(snapshot: Seq<char>, rows: Seq<OccurrenceFacts>, row: OccurrenceFacts) -> Finding {
    let group_id = finding_id(
        "same-name-group"@,
        seq![snapshot, row.source_root_id@, row.parent@, row.normalized_name@],
    );
    Finding {
        id: occurrence_finding_id(snapshot, row, AnomalyKind::SameNameDifferentContent),
        occurrence_id: Some(row.id@),
        folder_a: None,
        folder_b: None,
        kind: AnomalyKind::SameNameDifferentContent,
        severity: AnomalySeverity::Warning,
        summary: "`"@ + row.relative_path@ + "` shares its name with different content in the same folder"@,
        evidence: Json::Object(
            seq![
                ("group_id"@, Json::Str(group_id)),
                ("comparison_name"@, Json::Str(row.normalized_name@)),
                ("group_occurrences"@, Json::Number(decimal(group_size(rows, row, rows.len() as int) as nat))),
                ("distinct_contents"@, Json::Number(decimal(distinct_contents(rows, row, rows.len() as int) as nat))),
                ("this_content_id"@, opt_json(opt_view(row.content_id))),
                ("this_relative_path"@, Json::Str(row.relative_path@)),
            ],
        ),
    }
}

pub open spec fn lossy_finding(snapshot: Seq<char>, row: OccurrenceFacts) -> Finding {
    Finding {
        id: occurrence_finding_id(snapshot, row, AnomalyKind::LossyPathIdentity),
        occurrence_id: Some(row.id@),
        folder_a: None,
        folder_b: None,
        kind: AnomalyKind::LossyPathIdentity,
        severity: AnomalySeverity::High,
        summary: "`"@ + row.display_path@ + "` has a lossy path identity"@,
        evidence: Json::Object(
            seq![
                ("file_name"@, Json::Str(row.file_name@)),
                ("relative_path_display"@, Json::Str(row.display_path@)),
                ("relative_path_storage_key"@, Json::Str(row.relative_path@)),
                ("raw_identity_preserved"@, Json::Bool(true)),
            ],
        ),
    }
}

pub open spec fn unreadable_finding(snapshot: Seq<char>, row: OccurrenceFacts) -> Finding {
    Finding {
        id: occurrence_finding_id(snapshot, row, AnomalyKind::UnreadableEntry),
        occurrence_id: Some(row.id@),
        folder_a: None,
        folder_b: None,
        kind: AnomalyKind::UnreadableEntry,
        severity: AnomalySeverity::High,
        summary: "`"@ + row.relative_path@ + "` was not read normally"@,
        evidence: Json::Object(
            seq![("scan_status"@, Json::Str(row.status@)), ("error"@, opt_json(opt_view(row.error)))],
        ),
    }
}

pub open spec fn extreme_finding(snapshot: Seq<char>, row: OccurrenceFacts) -> Finding {
    Finding {
        id: occurrence_finding_id(snapshot, row, AnomalyKind::ExtremePath),
        occurrence_id: Some(row.id@),
        folder_a: None,
        folder_b: None,
        kind: AnomalyKind::ExtremePath,
        severity: AnomalySeverity::Warning,
        summary: "`"@ + row.relative_path@ + "` is close to or beyond common Windows path limits"@,
        evidence: Json::Object(seq![("utf16_path_length"@, Json::Number(decimal(row.path_length as nat)))]),
    }
}

/// The stored status of an entry that was read normally.
pub const STATUS_OK: &'static str = "OK";

/// Path length, in UTF-16 units, from which a path is close to common
/// Windows limits.
pub const EXTREME_PATH_LENGTH: u64 = 240;

/// The findings on one occurrence that are about the occurrence alone, in
/// order: lossy path, not read normally, extreme path.
pub open spec fn own_findings(snapshot: Seq<char>, row: OccurrenceFacts) -> Seq<Finding> {
    (if row.path_is_lossy {
        seq![lossy_finding(snapshot, row)]
    } else {
        Seq::empty()
    }) + (if row.status@ != STATUS_OK@ {
        seq![unreadable_finding(snapshot, row)]
    } else {
        Seq::empty()
    }) + (if row.path_length >= EXTREME_PATH_LENGTH {
        seq![extreme_finding(snapshot, row)]
    } else {
        Seq::empty()
    })
}

/// The same-name findings among the first `n` rows, in row order: a row is
/// reported when its group holds more than one content.
pub open spec fn same_name_findings(snapshot: Seq<char>, rows: Seq<OccurrenceFacts>, n: int) -> Seq<Finding>
    decreases n,
{
    if n <= 0 {
        Seq::empty()
    } else {
        let r = rows[n - 1];
        same_name_findings(snapshot, rows, n - 1) + if r.content_id is Some && distinct_contents(
            rows,
            r,
            rows.len() as int,
        ) > 1 {
            seq![same_name_finding(snapshot, rows, r)]
        } else {
            Seq::empty()
        }
    }
}

/// The occurrence's own findings for the first `n` rows, in row order.
pub open spec fn occurrence_findings(snapshot: Seq<char>, rows: Seq<OccurrenceFacts>, n: int) -> Seq<Finding>
    decreases n,
{
    if n <= 0 {
        Seq::empty()
    } else {
        occurrence_findings(snapshot, rows, n - 1) + own_findings(snapshot, rows[n - 1])
    }
}


/// The candidates state the findings, one for one, in order.
pub open spec fn all_stated(cs: Seq<AnomalyCandidate>, fs: Seq<Finding>) -> bool {
    &&& cs.len() == fs.len()
    &&& forall|i: int| 0 <= i < cs.len() ==> states(#[trigger] cs[i], fs[i])
}

fn opt_copy(o: &Option<String>) -> (r: Option<String>)
    ensures
        opt_view(r) == opt_view(*o),
{
    match o {
        Some(s) => Some(copy_str(s.as_str())),
        None => None,
    }
}

fn opt_value(o: &Option<String>) -> (v: JsonValue)
    ensures
        v@ == opt_json(opt_view(*o)),
{
    match o {
        Some(s) => JsonValue::string(s.as_str()),
        None => JsonValue::Null,
    }
}

/// "`" + the path + the tail.
fn ticked(path: &str, tail: &str) -> (s: String)
    ensures
        s@ == "`"@ + path@ + tail@,
{
    let mut out: Vec<char> = Vec::new();
    push_str(&mut out, "`");
    push_str(&mut out, path);
    push_str(&mut out, tail);
    string_from_chars(out.as_slice())
}

fn occurrence_id_of(snapshot: &str, row: &OccurrenceFacts, kind: AnomalyKind) -> (id: String)
    ensures
        id@ == occurrence_finding_id(snapshot@, *row, kind),
{
    let parts: Vec<&str> = vec![snapshot, row.id.as_str(), kind.as_str()];
    let id = stable_id("occurrence-anomaly", parts.as_slice());
    assert(crate::db::analysis::part_views(parts@) =~= seq![snapshot@, row.id@, kind.name()]);
    id
}

fn lossy_candidate(snapshot: &str, row: &OccurrenceFacts) -> (c: AnomalyCandidate)
    ensures
        states(c, lossy_finding(snapshot@, *row)),
{
    let mut m: Vec<(String, JsonValue)> = Vec::new();
    push_member(&mut m, "file_name", JsonValue::string(row.file_name.as_str()));
    push_member(&mut m, "relative_path_display", JsonValue::string(row.display_path.as_str()));
    push_member(&mut m, "relative_path_storage_key", JsonValue::string(row.relative_path.as_str()));
    push_member(&mut m, "raw_identity_preserved", JsonValue::boolean(true));
    assert(view_members(m@) =~= lossy_finding(snapshot@, *row).evidence->Object_0);
    let ev = JsonValue::object(m);
    AnomalyCandidate {
        id: occurrence_id_of(snapshot, row, AnomalyKind::LossyPathIdentity),
        occurrence_id: Some(copy_str(row.id.as_str())),
        folder_a: None,
        folder_b: None,
        kind: AnomalyKind::LossyPathIdentity,
        severity: AnomalySeverity::High,
        requires_review: true,
        summary: ticked(row.display_path.as_str(), "` has a lossy path identity"),
        evidence: canonical(&ev),
    }
}

fn unreadable_candidate(snapshot: &str, row: &OccurrenceFacts) -> (c: AnomalyCandidate)
    ensures
        states(c, unreadable_finding(snapshot@, *row)),
{
    let mut m: Vec<(String, JsonValue)> = Vec::new();
    push_member(&mut m, "scan_status", JsonValue::string(row.status.as_str()));
    push_member(&mut m, "error", opt_value(&row.error));
    assert(view_members(m@) =~= unreadable_finding(snapshot@, *row).evidence->Object_0);
    let ev = JsonValue::object(m);
    AnomalyCandidate {
        id: occurrence_id_of(snapshot, row, AnomalyKind::UnreadableEntry),
        occurrence_id: Some(copy_str(row.id.as_str())),
        folder_a: None,
        folder_b: None,
        kind: AnomalyKind::UnreadableEntry,
        severity: AnomalySeverity::High,
        requires_review: true,
        summary: ticked(row.relative_path.as_str(), "` was not read normally"),
        evidence: canonical(&ev),
    }
}

fn extreme_candidate(snapshot: &str, row: &OccurrenceFacts) -> (c: AnomalyCandidate)
    ensures
        states(c, extreme_finding(snapshot@, *row)),
{
    let mut m: Vec<(String, JsonValue)> = Vec::new();
    push_member(&mut m, "utf16_path_length", JsonValue::number(row.path_length));
    assert(view_members(m@) =~= extreme_finding(snapshot@, *row).evidence->Object_0);
    let ev = JsonValue::object(m);
    AnomalyCandidate {
        id: occurrence_id_of(snapshot, row, AnomalyKind::ExtremePath),
        occurrence_id: Some(copy_str(row.id.as_str())),
        folder_a: None,
        folder_b: None,
        kind: AnomalyKind::ExtremePath,
        severity: AnomalySeverity::Warning,
        requires_review: true,
        summary: ticked(row.relative_path.as_str(), "` is close to or beyond common Windows path limits"),
        evidence: canonical(&ev),
    }
}


fn in_group(a: &OccurrenceFacts, b: &OccurrenceFacts) -> (g: bool)
    ensures
        g == same_group(*a, *b),
{
    a.content_id.is_some() && b.content_id.is_some() && same_text(
        a.source_root_id.as_str(),
        b.source_root_id.as_str(),
    ) && same_text(a.parent.as_str(), b.parent.as_str()) && same_text(
        a.normalized_name.as_str(),
        b.normalized_name.as_str(),
    )
}

fn content_of(o: &OccurrenceFacts) -> (c: &str)
    requires
        o.content_id is Some,
    ensures
        c@ == o.content_id->0@,
{
    match &o.content_id {
        Some(c) => c.as_str(),
        None => "",
    }
}

/// Whether a row before `n` in the group of `r` has the content `content`.
fn content_seen_before(rows: &Vec<OccurrenceFacts>, r: &OccurrenceFacts, content: &str, n: usize) -> (b: bool)
    requires
        n <= rows@.len(),
    ensures
        b == content_seen(rows@, *r, content@, n as int),
{
    let mut j: usize = 0;
    while j < n
        invariant
            0 <= j <= n <= rows@.len(),
            forall|k: int| 0 <= k < j ==> !(same_group(#[trigger] rows@[k], *r) && rows@[k].content_id->0@ == content@),
        decreases n - j,
    {
        if in_group(&rows[j], r) {
            if same_text(content_of(&rows[j]), content) {
                return true;
            }
        }
        j = j + 1;
    }
    false
}

/// The size of the group of `r` and how many distinct contents it holds.
fn group_counts(rows: &Vec<OccurrenceFacts>, r: &OccurrenceFacts) -> (counts: (u64, u64))
    ensures
        counts.0 == group_size(rows@, *r, rows@.len() as int),
        counts.1 == distinct_contents(rows@, *r, rows@.len() as int),
{
    let mut size: u64 = 0;
    let mut distinct: u64 = 0;
    let mut i: usize = 0;
    while i < rows.len()
        invariant
            0 <= i <= rows@.len(),
            size == group_size(rows@, *r, i as int),
            distinct == distinct_contents(rows@, *r, i as int),
            distinct <= size <= i,
        decreases rows@.len() - i,
    {
        if in_group(&rows[i], r) {
            size = size + 1;
            let seen = content_seen_before(rows, r, content_of(&rows[i]), i);
            if !seen {
                distinct = distinct + 1;
            }
        }
        i = i + 1;
    }
    (size, distinct)
}

fn same_name_candidate(snapshot: &str, rows: &Vec<OccurrenceFacts>, row: &OccurrenceFacts, size: u64, distinct: u64) -> (c: AnomalyCandidate)
    requires
        size == group_size(rows@, *row, rows@.len() as int),
        distinct == distinct_contents(rows@, *row, rows@.len() as int),
    ensures
        states(c, same_name_finding(snapshot@, rows@, *row)),
{
    let parts: Vec<&str> = vec![
        snapshot,
        row.source_root_id.as_str(),
        row.parent.as_str(),
        row.normalized_name.as_str(),
    ];
    let group_id = stable_id("same-name-group", parts.as_slice());
    assert(crate::db::analysis::part_views(parts@) =~= seq![
        snapshot@,
        row.source_root_id@,
        row.parent@,
        row.normalized_name@,
    ]);
    let mut m: Vec<(String, JsonValue)> = Vec::new();
    push_member(&mut m, "group_id", JsonValue::string(group_id.as_str()));
    push_member(&mut m, "comparison_name", JsonValue::string(row.normalized_name.as_str()));
    push_member(&mut m, "group_occurrences", JsonValue::number(size));
    push_member(&mut m, "distinct_contents", JsonValue::number(distinct));
    push_member(&mut m, "this_content_id", opt_value(&row.content_id));
    push_member(&mut m, "this_relative_path", JsonValue::string(row.relative_path.as_str()));
    assert(view_members(m@) =~= same_name_finding(snapshot@, rows@, *row).evidence->Object_0);
    let ev = JsonValue::object(m);
    AnomalyCandidate {
        id: occurrence_id_of(snapshot, row, AnomalyKind::SameNameDifferentContent),
        occurrence_id: Some(copy_str(row.id.as_str())),
        folder_a: None,
        folder_b: None,
        kind: AnomalyKind::SameNameDifferentContent,
        severity: AnomalySeverity::Warning,
        requires_review: true,
        summary: ticked(row.relative_path.as_str(), "` shares its name with different content in the same folder"),
        evidence: canonical(&ev),
    }
}

proof fn lemma_stated_push(cs: Seq<AnomalyCandidate>, fs: Seq<Finding>, c: AnomalyCandidate, f: Finding)
    requires
        all_stated(cs, fs),
        states(c, f),
    ensures
        all_stated(cs.push(c), fs.push(f)),
{
    assert forall|i: int| 0 <= i < cs.push(c).len() implies states(#[trigger] cs.push(c)[i], fs.push(f)[i]) by {
        if i < cs.len() {
            assert(cs.push(c)[i] == cs[i]);
        }
    }
}

/// The findings on the occurrences of a snapshot: first every occurrence
/// whose folder holds another content under its name, in row order, then
/// each occurrence's own findings, in row order.
pub open spec fn occurrence_part(snapshot: Seq<char>, rows: Seq<OccurrenceFacts>) -> Seq<Finding> {
    same_name_findings(snapshot, rows, rows.len() as int) + occurrence_findings(snapshot, rows, rows.len() as int)
}

fn push_candidate(out: &mut Vec<AnomalyCandidate>, c: AnomalyCandidate, Ghost(fs): Ghost<Seq<Finding>>, Ghost(f): Ghost<Finding>)
    requires
        all_stated(old(out)@, fs),
        states(c, f),
    ensures
        all_stated(final(out)@, fs.push(f)),
{
    proof {
        lemma_stated_push(old(out)@, fs, c, f);
    }
    out.push(c);
}

/// The candidates on the occurrences of a snapshot, stating
/// `occurrence_part` one for one.
fn occurrence_candidates(snapshot: &str, rows: &Vec<OccurrenceFacts>) -> (out: Vec<AnomalyCandidate>)
    ensures
        all_stated(out@, occurrence_part(snapshot@, rows@)),
{
    let mut out: Vec<AnomalyCandidate> = Vec::new();
    let mut i: usize = 0;
    while i < rows.len()
        invariant
            0 <= i <= rows@.len(),
            all_stated(out@, same_name_findings(snapshot@, rows@, i as int)),
        decreases rows@.len() - i,
    {
        let row = &rows[i];
        if row.content_id.is_some() {
            let (size, distinct) = group_counts(rows, row);
            if distinct > 1 {
                let c = same_name_candidate(snapshot, rows, row, size, distinct);
                push_candidate(&mut out, c, Ghost(same_name_findings(snapshot@, rows@, i as int)), Ghost(same_name_finding(snapshot@, rows@, *row)));
            }
        }
        assert(same_name_findings(snapshot@, rows@, i + 1) =~= same_name_findings(snapshot@, rows@, i as int) + if rows@[i as int].content_id is Some && distinct_contents(rows@, rows@[i as int], rows@.len() as int) > 1 {
            seq![same_name_finding(snapshot@, rows@, rows@[i as int])]
        } else {
            Seq::<Finding>::empty()
        });
        i = i + 1;
    }
    let ghost head = same_name_findings(snapshot@, rows@, rows@.len() as int);
    let mut k: usize = 0;
    while k < rows.len()
        invariant
            0 <= k <= rows@.len(),
            head == same_name_findings(snapshot@, rows@, rows@.len() as int),
            all_stated(out@, head + occurrence_findings(snapshot@, rows@, k as int)),
        decreases rows@.len() - k,
    {
        let row = &rows[k];
        let ghost before = head + occurrence_findings(snapshot@, rows@, k as int);
        let ghost mut acc = before;
        if row.path_is_lossy {
            push_candidate(&mut out, lossy_candidate(snapshot, row), Ghost(acc), Ghost(lossy_finding(snapshot@, *row)));
            proof { acc = acc.push(lossy_finding(snapshot@, *row)); }
        }
        if !same_text(row.status.as_str(), STATUS_OK) {
            push_candidate(&mut out, unreadable_candidate(snapshot, row), Ghost(acc), Ghost(unreadable_finding(snapshot@, *row)));
            proof { acc = acc.push(unreadable_finding(snapshot@, *row)); }
        }
        if row.path_length >= EXTREME_PATH_LENGTH {
            push_candidate(&mut out, extreme_candidate(snapshot, row), Ghost(acc), Ghost(extreme_finding(snapshot@, *row)));
            proof { acc = acc.push(extreme_finding(snapshot@, *row)); }
        }
        assert(acc =~= head + occurrence_findings(snapshot@, rows@, k + 1));
        k = k + 1;
    }
    out
}


// ---------------------------------------------------------------------
// Folders and trees

pub open spec fn folder_finding_id(snapshot: Seq<char>, folder: FolderFacts, kind: AnomalyKind) -> Seq<char> {
    finding_id("folder-anomaly"@, seq![snapshot, folder.id@, kind.name()])
}

pub open spec fn folder_lossy_finding(snapshot: Seq<char>, f: FolderFacts) -> Finding {
    Finding {
        id: folder_finding_id(snapshot, f, AnomalyKind::LossyPathIdentity),
        occurrence_id: None,
        folder_a: Some(f.id@),
        folder_b: None,
        kind: AnomalyKind::LossyPathIdentity,
        severity: AnomalySeverity::High,
        summary: "folder `"@ + f.display_path@ + "` has a lossy path identity"@,
        evidence: Json::Object(
            seq![
                ("relative_path_display"@, Json::Str(f.display_path@)),
                ("relative_path_storage_key"@, Json::Str(f.relative_path@)),
                ("raw_identity_preserved"@, Json::Bool(true)),
            ],
        ),
    }
}

pub open spec fn folder_incomplete_finding(snapshot: Seq<char>, f: FolderFacts) -> Finding {
    Finding {
        id: folder_finding_id(snapshot, f, AnomalyKind::UnreadableEntry),
        occurrence_id: None,
        folder_a: Some(f.id@),
        folder_b: None,
        kind: AnomalyKind::UnreadableEntry,
        severity: AnomalySeverity::High,
        summary: "folder `"@ + f.display_path@ + "` is incomplete ("@ + f.status@ + ")"@,
        evidence: Json::Object(
            seq![
                ("relative_path_display"@, Json::Str(f.display_path@)),
                ("relative_path_storage_key"@, Json::Str(f.relative_path@)),
                ("scan_status"@, Json::Str(f.status@)),
                ("error"@, opt_json(opt_view(f.error))),
            ],
        ),
    }
}

/// The findings on a folder: a lossy path, then an incomplete read.
pub open spec fn folder_own_findings(snapshot: Seq<char>, f: FolderFacts) -> Seq<Finding> {
    (if f.path_is_lossy {
        seq![folder_lossy_finding(snapshot, f)]
    } else {
        Seq::empty()
    }) + (if f.status@ != STATUS_OK@ {
        seq![folder_incomplete_finding(snapshot, f)]
    } else {
        Seq::empty()
    })
}

pub open spec fn folder_findings(snapshot: Seq<char>, folders: Seq<FolderFacts>, n: int) -> Seq<Finding>
    decreases n,
{
    if n <= 0 {
        Seq::empty()
    } else {
        folder_findings(snapshot, folders, n - 1) + folder_own_findings(snapshot, folders[n - 1])
    }
}

/// The kind, severity and summary of a tree relation that is a finding:
/// trees that share content but each hold unique content, and a tree
/// embedded in another.
pub open spec fn relation_verdict(r: RelationFacts) -> Option<(AnomalyKind, AnomalySeverity, Seq<char>)> {
    if r.relationship@ == "PARTIAL_TREE_CLONE"@ {
        Some(
            (
                AnomalyKind::PartialTreeUniqueContent,
                AnomalySeverity::Warning,
                "related trees contain unique content on both sides ("@ + decimal(r.unique_a_files as nat)
                    + " vs "@ + decimal(r.unique_b_files as nat) + ")"@,
            ),
        )
    } else if r.relationship@ == "TREE_EMBEDDED"@ {
        Some(
            (
                AnomalyKind::EmbeddedTree,
                AnomalySeverity::Info,
                "one folder tree is embedded in another; preserve until reviewed"@,
            ),
        )
    } else {
        None
    }
}

pub open spec fn relation_finding(snapshot: Seq<char>, r: RelationFacts, kind: AnomalyKind, severity: AnomalySeverity, summary: Seq<char>) -> Finding {
    Finding {
        id: finding_id("tree-anomaly"@, seq![snapshot, r.folder_a@, r.folder_b@, kind.name()]),
        occurrence_id: None,
        folder_a: Some(r.folder_a@),
        folder_b: Some(r.folder_b@),
        kind,
        severity,
        summary,
        evidence: Json::Object(
            seq![
                ("relationship"@, Json::Str(r.relationship@)),
                ("shared_files"@, Json::Number(decimal(r.shared_files as nat))),
                ("unique_a_files"@, Json::Number(decimal(r.unique_a_files as nat))),
                ("unique_b_files"@, Json::Number(decimal(r.unique_b_files as nat))),
                ("shared_bytes"@, Json::Number(decimal(r.shared_bytes as nat))),
                ("similarity"@, Json::Raw(r.similarity@)),
            ],
        ),
    }
}

pub open spec fn relation_findings(snapshot: Seq<char>, rels: Seq<RelationFacts>, n: int) -> Seq<Finding>
    decreases n,
{
    if n <= 0 {
        Seq::empty()
    } else {
        relation_findings(snapshot, rels, n - 1) + match relation_verdict(rels[n - 1]) {
            Some((kind, severity, summary)) => seq![relation_finding(snapshot, rels[n - 1], kind, severity, summary)],
            None => Seq::empty(),
        }
    }
}

fn folder_id_of(snapshot: &str, f: &FolderFacts, kind: AnomalyKind) -> (id: String)
    ensures
        id@ == folder_finding_id(snapshot@, *f, kind),
{
    let parts: Vec<&str> = vec![snapshot, f.id.as_str(), kind.as_str()];
    let id = stable_id("folder-anomaly", parts.as_slice());
    assert(crate::db::analysis::part_views(parts@) =~= seq![snapshot@, f.id@, kind.name()]);
    id
}

fn folder_lossy_candidate(snapshot: &str, f: &FolderFacts) -> (c: AnomalyCandidate)
    ensures
        states(c, folder_lossy_finding(snapshot@, *f)),
{
    let mut m: Vec<(String, JsonValue)> = Vec::new();
    push_member(&mut m, "relative_path_display", JsonValue::string(f.display_path.as_str()));
    push_member(&mut m, "relative_path_storage_key", JsonValue::string(f.relative_path.as_str()));
    push_member(&mut m, "raw_identity_preserved", JsonValue::boolean(true));
    assert(view_members(m@) =~= folder_lossy_finding(snapshot@, *f).evidence->Object_0);
    let ev = JsonValue::object(m);
    let mut s: Vec<char> = Vec::new();
    push_str(&mut s, "folder `");
    push_str(&mut s, f.display_path.as_str());
    push_str(&mut s, "` has a lossy path identity");
    AnomalyCandidate {
        id: folder_id_of(snapshot, f, AnomalyKind::LossyPathIdentity),
        occurrence_id: None,
        folder_a: Some(copy_str(f.id.as_str())),
        folder_b: None,
        kind: AnomalyKind::LossyPathIdentity,
        severity: AnomalySeverity::High,
        requires_review: true,
        summary: string_from_chars(s.as_slice()),
        evidence: canonical(&ev),
    }
}

fn folder_incomplete_candidate(snapshot: &str, f: &FolderFacts) -> (c: AnomalyCandidate)
    ensures
        states(c, folder_incomplete_finding(snapshot@, *f)),
{
    let mut m: Vec<(String, JsonValue)> = Vec::new();
    push_member(&mut m, "relative_path_display", JsonValue::string(f.display_path.as_str()));
    push_member(&mut m, "relative_path_storage_key", JsonValue::string(f.relative_path.as_str()));
    push_member(&mut m, "scan_status", JsonValue::string(f.status.as_str()));
    push_member(&mut m, "error", opt_value(&f.error));
    assert(view_members(m@) =~= folder_incomplete_finding(snapshot@, *f).evidence->Object_0);
    let ev = JsonValue::object(m);
    let mut s: Vec<char> = Vec::new();
    push_str(&mut s, "folder `");
    push_str(&mut s, f.display_path.as_str());
    push_str(&mut s, "` is incomplete (");
    push_str(&mut s, f.status.as_str());
    push_str(&mut s, ")");
    AnomalyCandidate {
        id: folder_id_of(snapshot, f, AnomalyKind::UnreadableEntry),
        occurrence_id: None,
        folder_a: Some(copy_str(f.id.as_str())),
        folder_b: None,
        kind: AnomalyKind::UnreadableEntry,
        severity: AnomalySeverity::High,
        requires_review: true,
        summary: string_from_chars(s.as_slice()),
        evidence: canonical(&ev),
    }
}

fn relation_candidate(snapshot: &str, r: &RelationFacts) -> (c: Option<AnomalyCandidate>)
    ensures
        match relation_verdict(*r) {
            None => c is None,
            Some((kind, severity, summary)) => c matches Some(x) && states(
                x,
                relation_finding(snapshot@, *r, kind, severity, summary),
            ),
        },
{
    let partial = same_text(r.relationship.as_str(), "PARTIAL_TREE_CLONE");
    let embedded = same_text(r.relationship.as_str(), "TREE_EMBEDDED");
    if !partial && !embedded {
        return None;
    }
    let kind = if partial {
        AnomalyKind::PartialTreeUniqueContent
    } else {
        AnomalyKind::EmbeddedTree
    };
    let severity = if partial {
        AnomalySeverity::Warning
    } else {
        AnomalySeverity::Info
    };
    let mut s: Vec<char> = Vec::new();
    if partial {
        push_str(&mut s, "related trees contain unique content on both sides (");
        push_decimal(&mut s, r.unique_a_files);
        push_str(&mut s, " vs ");
        push_decimal(&mut s, r.unique_b_files);
        push_str(&mut s, ")");
    } else {
        push_str(&mut s, "one folder tree is embedded in another; preserve until reviewed");
    }
    let parts: Vec<&str> = vec![snapshot, r.folder_a.as_str(), r.folder_b.as_str(), kind.as_str()];
    let id = stable_id("tree-anomaly", parts.as_slice());
    assert(crate::db::analysis::part_views(parts@) =~= seq![snapshot@, r.folder_a@, r.folder_b@, kind.name()]);
    let mut m: Vec<(String, JsonValue)> = Vec::new();
    push_member(&mut m, "relationship", JsonValue::string(r.relationship.as_str()));
    push_member(&mut m, "shared_files", JsonValue::number(r.shared_files));
    push_member(&mut m, "unique_a_files", JsonValue::number(r.unique_a_files));
    push_member(&mut m, "unique_b_files", JsonValue::number(r.unique_b_files));
    push_member(&mut m, "shared_bytes", JsonValue::number(r.shared_bytes));
    push_member(&mut m, "similarity", JsonValue::Raw(copy_str(r.similarity.as_str())));
    let ghost v = relation_verdict(*r)->0;
    assert(view_members(m@) =~= relation_finding(snapshot@, *r, v.0, v.1, v.2).evidence->Object_0);
    let ev = JsonValue::object(m);
    let summary = string_from_chars(s.as_slice());
    assert(summary@ =~= v.2);
    Some(
        AnomalyCandidate {
            id,
            occurrence_id: None,
            folder_a: Some(copy_str(r.folder_a.as_str())),
            folder_b: Some(copy_str(r.folder_b.as_str())),
            kind,
            severity,
            requires_review: true,
            summary,
            evidence: canonical(&ev),
        },
    )
}


// ---------------------------------------------------------------------
// Order

/// Insert a finding into findings sorted by id: a finding whose id is
/// already there is dropped, so the first one found is kept.
pub open spec fn insert_by_id(s: Seq<Finding>, f: Finding) -> Seq<Finding>
    decreases s.len(),
{
    if s.len() == 0 {
        seq![f]
    } else if s[0].id == f.id {
        s
    } else if !chars_lt(s[0].id, f.id) {
        seq![f] + s
    } else {
        seq![s[0]] + insert_by_id(s.drop_first(), f)
    }
}

/// The findings sorted by id, one per id, the first found of each id kept
/// (a stable sort followed by removing repeated ids).
pub open spec fn sorted_by_id(fs: Seq<Finding>) -> Seq<Finding>
    decreases fs.len(),
{
    if fs.len() == 0 {
        Seq::empty()
    } else {
        insert_by_id(sorted_by_id(fs.drop_last()), fs.last())
    }
}

proof fn lemma_insert_after(s: Seq<Finding>, f: Finding, p: int)
    requires
        0 <= p <= s.len(),
        forall|j: int| 0 <= j < p ==> chars_lt(#[trigger] s[j].id, f.id),
    ensures
        insert_by_id(s, f) == s.take(p) + insert_by_id(s.skip(p), f),
    decreases p,
{
    if p == 0 {
        assert(s.skip(0) =~= s);
        assert(s.take(0) =~= Seq::<Finding>::empty());
    } else {
        crate::text::lemma_chars_lt_irreflexive(f.id);
        assert(chars_lt(s[0].id, f.id));
        let t = s.drop_first();
        assert forall|j: int| 0 <= j < p - 1 implies chars_lt(#[trigger] t[j].id, f.id) by {
            assert(t[j] == s[j + 1]);
        }
        lemma_insert_after(t, f, p - 1);
        assert(t.skip(p - 1) =~= s.skip(p));
        assert(seq![s[0]] + t.take(p - 1) =~= s.take(p));
        assert(s[0].id != f.id);
    }
}

fn id_chars(c: &AnomalyCandidate) -> (v: Vec<char>)
    ensures
        v@ == c.id@,
{
    str_chars(c.id.as_str())
}

/// Insert a candidate into candidates sorted by id, as `insert_by_id` does.
fn insert_candidate(out: &mut Vec<AnomalyCandidate>, c: AnomalyCandidate, Ghost(fs): Ghost<Seq<Finding>>, Ghost(f): Ghost<Finding>)
    requires
        all_stated(old(out)@, fs),
        states(c, f),
    ensures
        all_stated(final(out)@, insert_by_id(fs, f)),
{
    let key = id_chars(&c);
    let mut p: usize = 0;
    while p < out.len()
        invariant
            0 <= p <= out@.len(),
            all_stated(out@, fs),
            states(c, f),
            key@ == f.id,
            forall|j: int| 0 <= j < p ==> chars_lt(#[trigger] fs[j].id, f.id),
        ensures
            0 <= p <= out@.len(),
            forall|j: int| 0 <= j < p ==> chars_lt(#[trigger] fs[j].id, f.id),
            p < out@.len() ==> !chars_lt(fs[p as int].id, f.id),
        decreases out@.len() - p,
    {
        let here = id_chars(&out[p]);
        assert(states(out@[p as int], fs[p as int]));
        if !chars_less(&here, &key) {
            assert(here@ == fs[p as int].id);
            break;
        }
        p = p + 1;
    }
    proof {
        lemma_insert_after(fs, f, p as int);
    }
    if p < out.len() {
        assert(states(out@[p as int], fs[p as int]));
        let same = same_text(out[p].id.as_str(), c.id.as_str());
        assert(same == (fs[p as int].id == f.id));
        if same {
            assert(fs.skip(p as int)[0] == fs[p as int]);
            assert(fs.take(p as int) + fs.skip(p as int) =~= fs);
            return;
        }
    }
    let ghost before = out@;
    out.insert(p, c);
    proof {
        let target = insert_by_id(fs, f);
        if p < before.len() {
            assert(fs.skip(p as int)[0] == fs[p as int]);
        }
        assert(insert_by_id(fs.skip(p as int), f) =~= seq![f] + fs.skip(p as int));
        assert(target =~= fs.take(p as int) + seq![f] + fs.skip(p as int));
        assert forall|i: int| 0 <= i < out@.len() implies states(#[trigger] out@[i], target[i]) by {
            if i < p {
                assert(out@[i] == before[i]);
            } else if i > p {
                assert(out@[i] == before[i - 1]);
            }
        }
    }
}

/// All findings of a snapshot, in the order they are found: the name
/// collisions, each occurrence's own findings, the folders, and the tree
/// relations.
pub open spec fn found(
    snapshot: Seq<char>,
    rows: Seq<OccurrenceFacts>,
    folders: Seq<FolderFacts>,
    relations: Seq<RelationFacts>,
) -> Seq<Finding> {
    occurrence_part(snapshot, rows) + folder_findings(snapshot, folders, folders.len() as int)
        + relation_findings(snapshot, relations, relations.len() as int)
}

/// The structural anomalies of a snapshot, as candidates to store: every
/// finding of `found`, sorted by id with the first of each id kept. Each
/// asks for review.
pub fn anomaly_candidates(
    snapshot_id: &str,
    rows: &Vec<OccurrenceFacts>,
    folders: &Vec<FolderFacts>,
    relations: &Vec<RelationFacts>,
) -> (out: Vec<AnomalyCandidate>)
    ensures
        all_stated(out@, sorted_by_id(found(snapshot_id@, rows@, folders@, relations@))),
{
    let ghost snapshot = snapshot_id@;
    let mut all = occurrence_candidates(snapshot_id, rows);
    let ghost head = occurrence_part(snapshot, rows@);
    let mut i: usize = 0;
    while i < folders.len()
        invariant
            0 <= i <= folders@.len(),
            head == occurrence_part(snapshot, rows@),
            snapshot == snapshot_id@,
            all_stated(all@, head + folder_findings(snapshot, folders@, i as int)),
        decreases folders@.len() - i,
    {
        let f = &folders[i];
        let ghost mut acc = head + folder_findings(snapshot, folders@, i as int);
        if f.path_is_lossy {
            push_candidate(&mut all, folder_lossy_candidate(snapshot_id, f), Ghost(acc), Ghost(folder_lossy_finding(snapshot, *f)));
            proof { acc = acc.push(folder_lossy_finding(snapshot, *f)); }
        }
        if !same_text(f.status.as_str(), STATUS_OK) {
            push_candidate(&mut all, folder_incomplete_candidate(snapshot_id, f), Ghost(acc), Ghost(folder_incomplete_finding(snapshot, *f)));
            proof { acc = acc.push(folder_incomplete_finding(snapshot, *f)); }
        }
        assert(acc =~= head + folder_findings(snapshot, folders@, i + 1));
        i = i + 1;
    }
    let ghost head2 = head + folder_findings(snapshot, folders@, folders@.len() as int);
    let mut k: usize = 0;
    while k < relations.len()
        invariant
            0 <= k <= relations@.len(),
            head2 == occurrence_part(snapshot, rows@) + folder_findings(snapshot, folders@, folders@.len() as int),
            snapshot == snapshot_id@,
            all_stated(all@, head2 + relation_findings(snapshot, relations@, k as int)),
        decreases relations@.len() - k,
    {
        let r = &relations[k];
        let ghost acc = head2 + relation_findings(snapshot, relations@, k as int);
        match relation_candidate(snapshot_id, r) {
            Some(c) => {
                let ghost v = relation_verdict(*r)->0;
                push_candidate(&mut all, c, Ghost(acc), Ghost(relation_finding(snapshot, *r, v.0, v.1, v.2)));
                assert(acc.push(relation_finding(snapshot, *r, v.0, v.1, v.2)) =~= head2 + relation_findings(snapshot, relations@, k + 1));
            },
            None => {
                assert(acc =~= head2 + relation_findings(snapshot, relations@, k + 1));
            },
        }
        k = k + 1;
    }
    let ghost fs = found(snapshot, rows@, folders@, relations@);
    assert(fs =~= head2 + relation_findings(snapshot, relations@, relations@.len() as int));
    let mut out: Vec<AnomalyCandidate> = Vec::new();
    let mut rest = all;
    let mut n: usize = 0;
    let total = rest.len();
    assert(fs.skip(0) =~= fs);
    assert(fs.take(0) =~= Seq::<Finding>::empty());
    while rest.len() > 0
        invariant
            total == fs.len(),
            n + rest@.len() == total,
            all_stated(rest@, fs.skip(n as int)),
            all_stated(out@, sorted_by_id(fs.take(n as int))),
        decreases rest@.len(),
    {
        let ghost rv = rest@;
        let c = rest.remove(0);
        proof {
            assert(states(rv[0], fs.skip(n as int)[0]));
            assert(fs.skip(n as int)[0] == fs[n as int]);
            assert(fs.take(n + 1).drop_last() =~= fs.take(n as int));
            assert(fs.take(n + 1).last() == fs[n as int]);
            assert(fs.skip(n + 1) =~= fs.skip(n as int).drop_first());
            assert forall|i: int| 0 <= i < rest@.len() implies states(#[trigger] rest@[i], fs.skip(n + 1)[i]) by {
                assert(rest@[i] == rv[i + 1]);
                assert(states(rv[i + 1], fs.skip(n as int)[i + 1]));
            }
        }
        insert_candidate(&mut out, c, Ghost(sorted_by_id(fs.take(n as int))), Ghost(fs[n as int]));
        n = n + 1;
    }
    assert(fs.take(fs.len() as int) =~= fs);
    out
}


/// Findings in strictly increasing id order.
pub open spec fn strictly_by_id(s: Seq<Finding>) -> bool {
    forall|i: int, j: int| 0 <= i < j < s.len() ==> chars_lt(#[trigger] s[i].id, #[trigger] s[j].id)
}

proof fn lemma_insert_keeps_order(s: Seq<Finding>, f: Finding)
    requires
        strictly_by_id(s),
    ensures
        strictly_by_id(insert_by_id(s, f)),
        forall|i: int| 0 <= i < insert_by_id(s, f).len() ==> (#[trigger] insert_by_id(s, f)[i]).id == f.id || exists|j: int| 0 <= j < s.len() && s[j] == insert_by_id(s, f)[i],
    decreases s.len(),
{
    let r = insert_by_id(s, f);
    if s.len() == 0 {
    } else if s[0].id == f.id {
        assert forall|i: int| 0 <= i < r.len() implies (#[trigger] r[i]).id == f.id || exists|j: int| 0 <= j < s.len() && s[j] == r[i] by {
            assert(s[i] == r[i]);
        }
    } else if !chars_lt(s[0].id, f.id) {
        crate::text::lemma_chars_lt_total(s[0].id, f.id);
        assert forall|i: int, j: int| 0 <= i < j < r.len() implies chars_lt(#[trigger] r[i].id, #[trigger] r[j].id) by {
            if i == 0 {
                if j > 1 {
                    crate::text::lemma_chars_lt_transitive(f.id, s[0].id, s[j - 1].id);
                }
            } else {
                assert(r[i] == s[i - 1] && r[j] == s[j - 1]);
            }
        }
        assert forall|i: int| 0 <= i < r.len() implies (#[trigger] r[i]).id == f.id || exists|j: int| 0 <= j < s.len() && s[j] == r[i] by {
            if i > 0 {
                assert(s[i - 1] == r[i]);
            }
        }
    } else {
        let t = s.drop_first();
        assert forall|i: int, j: int| 0 <= i < j < t.len() implies chars_lt(#[trigger] t[i].id, #[trigger] t[j].id) by {
            assert(t[i] == s[i + 1] && t[j] == s[j + 1]);
        }
        lemma_insert_keeps_order(t, f);
        let rt = insert_by_id(t, f);
        assert forall|i: int, j: int| 0 <= i < j < r.len() implies chars_lt(#[trigger] r[i].id, #[trigger] r[j].id) by {
            if i == 0 {
                assert(r[j] == rt[j - 1]);
                if rt[j - 1].id == f.id {
                } else {
                    let k = choose|k: int| 0 <= k < t.len() && t[k] == rt[j - 1];
                    assert(t[k] == s[k + 1]);
                }
            } else {
                assert(r[i] == rt[i - 1] && r[j] == rt[j - 1]);
            }
        }
        assert forall|i: int| 0 <= i < r.len() implies (#[trigger] r[i]).id == f.id || exists|j: int| 0 <= j < s.len() && s[j] == r[i] by {
            if i > 0 {
                assert(r[i] == rt[i - 1]);
                if rt[i - 1].id != f.id {
                    let k = choose|k: int| 0 <= k < t.len() && t[k] == rt[i - 1];
                    assert(s[k + 1] == r[i]);
                }
            } else {
                assert(s[0] == r[0]);
            }
        }
    }
}

proof fn lemma_sorted_by_id_ordered(fs: Seq<Finding>)
    ensures
        strictly_by_id(sorted_by_id(fs)),
    decreases fs.len(),
{
    if fs.len() > 0 {
        lemma_sorted_by_id_ordered(fs.drop_last());
        lemma_insert_keeps_order(sorted_by_id(fs.drop_last()), fs.last());
    }
}

/// Each finding is stored once, in id order: the ids of the candidates of a
/// snapshot strictly increase, so no id repeats.
pub proof fn lemma_findings_once_in_id_order(
    snapshot: Seq<char>,
    rows: Seq<OccurrenceFacts>,
    folders: Seq<FolderFacts>,
    relations: Seq<RelationFacts>,
)
    ensures
        strictly_by_id(sorted_by_id(found(snapshot, rows, folders, relations))),
{
    lemma_sorted_by_id_ordered(found(snapshot, rows, folders, relations));
}


/// Every finding kept by `insert_by_id` was inserted or was there before.
proof fn lemma_insert_members(s: Seq<Finding>, f: Finding)
    ensures
        forall|i: int|
            0 <= i < insert_by_id(s, f).len() ==> #[trigger] insert_by_id(s, f)[i] == f || exists|j: int|
                0 <= j < s.len() && s[j] == insert_by_id(s, f)[i],
    decreases s.len(),
{
    let r = insert_by_id(s, f);
    if s.len() == 0 {
    } else if s[0].id == f.id {
        assert forall|i: int| 0 <= i < r.len() implies #[trigger] r[i] == f || exists|j: int| 0 <= j < s.len() && s[j] == r[i] by {
            assert(s[i] == r[i]);
        }
    } else if !chars_lt(s[0].id, f.id) {
        assert forall|i: int| 0 <= i < r.len() implies #[trigger] r[i] == f || exists|j: int| 0 <= j < s.len() && s[j] == r[i] by {
            if i > 0 {
                assert(s[i - 1] == r[i]);
            }
        }
    } else {
        let t = s.drop_first();
        lemma_insert_members(t, f);
        let rt = insert_by_id(t, f);
        assert forall|i: int| 0 <= i < r.len() implies #[trigger] r[i] == f || exists|j: int| 0 <= j < s.len() && s[j] == r[i] by {
            if i == 0 {
                assert(s[0] == r[0]);
            } else {
                assert(r[i] == rt[i - 1]);
                if rt[i - 1] != f {
                    let k = choose|k: int| 0 <= k < t.len() && t[k] == rt[i - 1];
                    assert(s[k + 1] == r[i]);
                }
            }
        }
    }
}

/// Sorting keeps only findings that were found.
proof fn lemma_sorted_members(fs: Seq<Finding>)
    ensures
        forall|i: int|
            0 <= i < sorted_by_id(fs).len() ==> exists|j: int| 0 <= j < fs.len() && fs[j] == #[trigger] sorted_by_id(fs)[i],
    decreases fs.len(),
{
    if fs.len() > 0 {
        let init = fs.drop_last();
        lemma_sorted_members(init);
        let s = sorted_by_id(init);
        lemma_insert_members(s, fs.last());
        assert forall|i: int| 0 <= i < sorted_by_id(fs).len() implies exists|j: int| 0 <= j < fs.len() && fs[j] == #[trigger] sorted_by_id(fs)[i] by {
            let x = sorted_by_id(fs)[i];
            if x == fs.last() {
                assert(fs[fs.len() - 1] == x);
            } else {
                let k = choose|k: int| 0 <= k < s.len() && s[k] == x;
                let j = choose|j: int| 0 <= j < init.len() && init[j] == s[k];
                assert(fs[j] == x);
            }
        }
    }
}

/// Whether a finding is a same-name finding on a row whose group holds
/// another content.
pub open spec fn names_a_collision(f: Finding, rows: Seq<OccurrenceFacts>) -> bool {
    exists|a: int, b: int|
        #![trigger rows[a], rows[b]]
        0 <= a < rows.len() && 0 <= b < rows.len() && f.occurrence_id == Some(rows[a].id@)
            && rows[a].content_id is Some && rows[b].content_id is Some
            && rows[b].source_root_id@ == rows[a].source_root_id@ && rows[b].parent@ == rows[a].parent@
            && rows[b].normalized_name@ == rows[a].normalized_name@
            && rows[b].content_id->0@ != rows[a].content_id->0@
}

/// More than one content in a group means another row of the group holds
/// a different content.
proof fn lemma_distinct_means_other(rows: Seq<OccurrenceFacts>, r: OccurrenceFacts, n: int)
    requires
        0 <= n <= rows.len(),
        r.content_id is Some,
        forall|j: int|
            0 <= j < n && same_group(#[trigger] rows[j], r) ==> rows[j].content_id->0@ == r.content_id->0@,
    ensures
        0 <= distinct_contents(rows, r, n) <= 1,
        distinct_contents(rows, r, n) == 1 ==> exists|j: int| 0 <= j < n && same_group(#[trigger] rows[j], r),
        distinct_contents(rows, r, n) == 0 ==> forall|j: int| 0 <= j < n ==> !same_group(#[trigger] rows[j], r),
    decreases n,
{
    if n > 0 {
        lemma_distinct_means_other(rows, r, n - 1);
        if same_group(rows[n - 1], r) && distinct_contents(rows, r, n - 1) == 1 {
            let j = choose|j: int| 0 <= j < n - 1 && same_group(#[trigger] rows[j], r);
            assert(rows[j].content_id->0@ == rows[n - 1].content_id->0@);
            assert(content_seen(rows, r, rows[n - 1].content_id->0@, n - 1));
        }
        if distinct_contents(rows, r, n) == 0 {
            assert(distinct_contents(rows, r, n - 1) == 0);
            if same_group(rows[n - 1], r) {
                assert(!content_seen(rows, r, rows[n - 1].content_id->0@, n - 1));
                assert(false);
            }
        }
    }
}

proof fn lemma_same_name_findings_collide(snapshot: Seq<char>, rows: Seq<OccurrenceFacts>, n: int)
    requires
        0 <= n <= rows.len(),
    ensures
        forall|i: int|
            0 <= i < same_name_findings(snapshot, rows, n).len() ==> names_a_collision(
                #[trigger] same_name_findings(snapshot, rows, n)[i],
                rows,
            ),
    decreases n,
{
    if n > 0 {
        lemma_same_name_findings_collide(snapshot, rows, n - 1);
        let prev = same_name_findings(snapshot, rows, n - 1);
        let cur = same_name_findings(snapshot, rows, n);
        let r = rows[n - 1];
        if r.content_id is Some && distinct_contents(rows, r, rows.len() as int) > 1 {
            let f = same_name_finding(snapshot, rows, r);
            assert(cur == prev + seq![f]);
            assert(names_a_collision(f, rows)) by {
                if forall|j: int|
                    0 <= j < rows.len() && same_group(#[trigger] rows[j], r) ==> rows[j].content_id->0@
                        == r.content_id->0@ {
                    lemma_distinct_means_other(rows, r, rows.len() as int);
                }
                let b = choose|j: int|
                    !(0 <= j < rows.len() && same_group(#[trigger] rows[j], r) ==> rows[j].content_id->0@
                        == r.content_id->0@);
                assert(rows[n - 1] == r);
                assert(rows[b].content_id->0@ != rows[n - 1].content_id->0@);
            }
            assert forall|i: int| 0 <= i < cur.len() implies names_a_collision(#[trigger] cur[i], rows) by {
                if i < prev.len() {
                    assert(cur[i] == prev[i]);
                }
            }
        } else {
            assert(cur =~= prev);
        }
    }
}

proof fn lemma_other_findings_kinds(snapshot: Seq<char>, rows: Seq<OccurrenceFacts>, folders: Seq<FolderFacts>, relations: Seq<RelationFacts>)
    ensures
        forall|i: int|
            0 <= i < occurrence_findings(snapshot, rows, rows.len() as int).len() ==> (
            #[trigger] occurrence_findings(snapshot, rows, rows.len() as int)[i]).kind
                != AnomalyKind::SameNameDifferentContent,
        forall|i: int|
            0 <= i < folder_findings(snapshot, folders, folders.len() as int).len() ==> (
            #[trigger] folder_findings(snapshot, folders, folders.len() as int)[i]).kind
                != AnomalyKind::SameNameDifferentContent,
        forall|i: int|
            0 <= i < relation_findings(snapshot, relations, relations.len() as int).len() ==> (
            #[trigger] relation_findings(snapshot, relations, relations.len() as int)[i]).kind
                != AnomalyKind::SameNameDifferentContent,
{
    lemma_occurrence_kinds(snapshot, rows, rows.len() as int);
    lemma_folder_kinds(snapshot, folders, folders.len() as int);
    lemma_relation_kinds(snapshot, relations, relations.len() as int);
}

proof fn lemma_occurrence_kinds(snapshot: Seq<char>, rows: Seq<OccurrenceFacts>, n: int)
    requires
        0 <= n <= rows.len(),
    ensures
        forall|i: int|
            0 <= i < occurrence_findings(snapshot, rows, n).len() ==> (#[trigger] occurrence_findings(snapshot, rows, n)[i]).kind
                != AnomalyKind::SameNameDifferentContent,
    decreases n,
{
    if n > 0 {
        lemma_occurrence_kinds(snapshot, rows, n - 1);
        let prev = occurrence_findings(snapshot, rows, n - 1);
        let own = own_findings(snapshot, rows[n - 1]);
        let cur = occurrence_findings(snapshot, rows, n);
        assert(cur == prev + own);
        assert forall|i: int| 0 <= i < cur.len() implies (#[trigger] cur[i]).kind != AnomalyKind::SameNameDifferentContent by {
            if i < prev.len() {
                assert(cur[i] == prev[i]);
            } else {
                assert(cur[i] == own[i - prev.len()]);
            }
        }
    }
}

proof fn lemma_folder_kinds(snapshot: Seq<char>, folders: Seq<FolderFacts>, n: int)
    requires
        0 <= n <= folders.len(),
    ensures
        forall|i: int|
            0 <= i < folder_findings(snapshot, folders, n).len() ==> (#[trigger] folder_findings(snapshot, folders, n)[i]).kind
                != AnomalyKind::SameNameDifferentContent,
    decreases n,
{
    if n > 0 {
        lemma_folder_kinds(snapshot, folders, n - 1);
        let prev = folder_findings(snapshot, folders, n - 1);
        let own = folder_own_findings(snapshot, folders[n - 1]);
        let cur = folder_findings(snapshot, folders, n);
        assert(cur == prev + own);
        assert forall|i: int| 0 <= i < cur.len() implies (#[trigger] cur[i]).kind != AnomalyKind::SameNameDifferentContent by {
            if i < prev.len() {
                assert(cur[i] == prev[i]);
            } else {
                assert(cur[i] == own[i - prev.len()]);
            }
        }
    }
}

proof fn lemma_relation_kinds(snapshot: Seq<char>, rels: Seq<RelationFacts>, n: int)
    requires
        0 <= n <= rels.len(),
    ensures
        forall|i: int|
            0 <= i < relation_findings(snapshot, rels, n).len() ==> (#[trigger] relation_findings(snapshot, rels, n)[i]).kind
                != AnomalyKind::SameNameDifferentContent,
    decreases n,
{
    if n > 0 {
        lemma_relation_kinds(snapshot, rels, n - 1);
        let prev = relation_findings(snapshot, rels, n - 1);
        let cur = relation_findings(snapshot, rels, n);
        assert forall|i: int| 0 <= i < cur.len() implies (#[trigger] cur[i]).kind != AnomalyKind::SameNameDifferentContent by {
            if i < prev.len() {
                assert(cur[i] == prev[i]);
            }
        }
    }
}

/// A same-name warning is raised only for a real collision: the occurrence
/// it names has content, and another occurrence with the same source root,
/// the same folder and the same comparison name holds a different content.
pub proof fn lemma_same_name_needs_a_different_content(
    snapshot: Seq<char>,
    rows: Seq<OccurrenceFacts>,
    folders: Seq<FolderFacts>,
    relations: Seq<RelationFacts>,
    out: Seq<AnomalyCandidate>,
)
    requires
        all_stated(out, sorted_by_id(found(snapshot, rows, folders, relations))),
    ensures
        forall|i: int|
            0 <= i < out.len() && (#[trigger] out[i]).kind == AnomalyKind::SameNameDifferentContent
                ==> exists|a: int, b: int|
                #![trigger rows[a], rows[b]]
                0 <= a < rows.len() && 0 <= b < rows.len() && opt_view(out[i].occurrence_id) == Some(rows[a].id@)
                    && rows[a].content_id is Some && rows[b].content_id is Some
                    && rows[b].source_root_id@ == rows[a].source_root_id@ && rows[b].parent@ == rows[a].parent@
                    && rows[b].normalized_name@ == rows[a].normalized_name@
                    && rows[b].content_id->0@ != rows[a].content_id->0@,
{
    let fs = found(snapshot, rows, folders, relations);
    let sorted = sorted_by_id(fs);
    lemma_sorted_members(fs);
    lemma_same_name_findings_collide(snapshot, rows, rows.len() as int);
    lemma_other_findings_kinds(snapshot, rows, folders, relations);
    let sn = same_name_findings(snapshot, rows, rows.len() as int);
    let on = occurrence_findings(snapshot, rows, rows.len() as int);
    let fo = folder_findings(snapshot, folders, folders.len() as int);
    let re = relation_findings(snapshot, relations, relations.len() as int);
    assert(fs == sn + on + fo + re);
    assert forall|i: int| 0 <= i < out.len() && (#[trigger] out[i]).kind == AnomalyKind::SameNameDifferentContent
        implies names_a_collision(sorted[i], rows) by {
        assert(states(out[i], sorted[i]));
        let j = choose|j: int| 0 <= j < fs.len() && fs[j] == #[trigger] sorted_by_id(fs)[i];
        if j < sn.len() {
            assert(fs[j] == sn[j]);
        } else if j < sn.len() + on.len() {
            assert(fs[j] == on[j - sn.len()]);
        } else if j < sn.len() + on.len() + fo.len() {
            assert(fs[j] == fo[j - sn.len() - on.len()]);
        } else {
            assert(fs[j] == re[j - sn.len() - on.len() - fo.len()]);
        }
    }
}

} // verus!
