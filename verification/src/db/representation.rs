//! The shape of one content's extraction evidence before it is committed:
//! the representation's identity and status, its text subjects and their
//! segments, the subjects' parents, the document summary, and the mail and
//! archive evidence. A malformed child refuses the whole representation.
//!
//! Identifiers are the 128-bit values of the stored UUIDs.

use vstd::prelude::*;
use crate::text::{is_blank, blank, same_text};
use crate::db::extraction::{sha256_shaped, is_sha256, TextSegmentInput, SegmentProblem, segments_verdict, check_segments};

verus! {

#[derive(Clone, Copy, Debug, PartialEq, Eq, Structural)]
pub enum DocumentFormat {
    Text,
    Eml,
    Zip,
    Unsupported,
    /// Any other supported format; the shape rules do not tell them apart.
    Other,
}

#[derive(Clone, Copy, Debug, PartialEq, Eq, Structural)]
pub enum ExtractionStatus {
    Extracted,
    Unsupported,
    Limited,
    Failed,
}

#[derive(Clone, Copy, Debug, PartialEq, Eq, Structural)]
pub enum TextSubjectKind {
    Document,
    MailAttachment,
    ArchiveEntry,
}

/// What a representation claims about one content.
#[derive(Clone, Debug)]
pub struct DocumentRepresentation {
    pub id: u128,
    pub extractor_version: String,
    pub config_digest: String,
    pub format: DocumentFormat,
    pub mime: String,
    pub status: ExtractionStatus,
    pub normalized_text_sha256: Option<String>,
    pub normalized_chars: u64,
    pub text_truncated: bool,
    pub error: Option<String>,
}

/// One text subject: the document itself, or an embedded attachment or
/// archive entry.
#[derive(Clone, Debug)]
pub struct TextSubject {
    pub id: u128,
    pub representation_id: u128,
    pub kind: TextSubjectKind,
    pub parent_subject_id: Option<u128>,
    pub display_name: String,
    pub virtual_path: Option<String>,
    pub mime: String,
    pub size_bytes: u64,
    pub normalized_text_sha256: Option<String>,
    pub normalized_chars: u64,
    pub text_truncated: bool,
}

#[derive(Clone, Debug)]
pub struct TextSubjectInput {
    pub subject: TextSubject,
    pub segments: Vec<TextSegmentInput>,
}

#[derive(Clone, Debug)]
pub struct MailMessage {
    pub representation_id: u128,
    pub body_sha256: Option<String>,
}

#[derive(Clone, Debug)]
pub struct MailAttachment {
    pub id: u128,
    pub representation_id: u128,
    pub ordinal: u32,
    pub subject_id: u128,
    pub file_name: String,
    pub mime: String,
    pub size_bytes: u64,
    pub sha256: String,
}

#[derive(Clone, Debug)]
pub struct ArchiveEntry {
    pub id: u128,
    pub representation_id: u128,
    pub ordinal: u32,
    pub subject_id: Option<u128>,
    pub virtual_path: String,
    pub compressed_bytes: u64,
    pub size_bytes: u64,
    pub sha256: Option<String>,
    pub directory: bool,
}

/// Complete evidence for one content.
#[derive(Clone, Debug)]
pub struct ContentExtractionInput {
    pub representation: DocumentRepresentation,
    pub source_sha256: String,
    pub subjects: Vec<TextSubjectInput>,
    pub mail_message: Option<MailMessage>,
    pub mail_attachments: Vec<MailAttachment>,
    pub archive_entries: Vec<ArchiveEntry>,
}

/// The extractor and configuration a run was started with.
#[derive(Clone, Debug)]
pub struct RunIdentity {
    pub extractor_version: String,
    pub config_digest: String,
}

/// The text bounds a run was configured with.
#[derive(Clone, Copy, Debug)]
pub struct PersistenceLimits {
    pub max_text_chars: u64,
    pub text_segment_chars: u64,
}

/// Why extraction evidence is refused.
#[derive(Clone, Copy, Debug, PartialEq, Eq, Structural)]
pub enum ShapeProblem {
    /// Representation identity, MIME or normalized-text bounds are invalid.
    InvalidIdentity,
    /// An extracted representation must be supported and error-free.
    ExtractedNotClean,
    /// An unsupported representation must use the unsupported format.
    UnsupportedFormat,
    /// Limited and failed representations require an error.
    MissingError,
    /// An invalid or duplicate text subject.
    InvalidSubject,
    /// The normalized character total overflowed.
    TextTotalOverflow,
    /// The normalized text exceeds its configured bound.
    TextOverBound,
    /// The document subject cannot have a parent or virtual path.
    DocumentWithParent,
    /// Embedded subjects require a parent and a virtual path.
    EmbeddedWithoutParent,
    /// A subject's segments are refused.
    Segments { subject: u128, problem: SegmentProblem },
    /// A subject references a parent outside its representation.
    ParentOutside { subject: u128 },
    /// Extracted results require exactly one document subject.
    DocumentCount,
    /// The representation's text summary must match its document subject.
    SummaryMismatch,
    /// A limited result can have at most one document subject.
    TooManyDocuments,
    /// A limited result without a subject cannot claim normalized text.
    LimitedClaimsText,
    /// Unsupported and failed results cannot persist normalized text.
    TextNotAllowed,
    /// Invalid EML metadata.
    InvalidMail,
    /// An extracted EML representation requires message metadata.
    MissingMail,
    /// Mail attachments require an EML representation.
    AttachmentsNeedEml,
    /// Invalid mail attachment evidence.
    InvalidAttachment,
    /// Archive entries require a ZIP representation.
    EntriesNeedZip,
    /// Invalid archive entry evidence.
    InvalidArchiveEntry,
}

pub open spec fn text_opt(o: Option<String>) -> Option<Seq<char>> {
    match o {
        Some(s) => Some(s@),
        None => None,
    }
}

/// An optional digest, when present, is a well-formed SHA-256.
pub open spec fn digest_ok(o: Option<String>) -> bool {
    match o {
        Some(d) => sha256_shaped(d@),
        None => true,
    }
}

pub open spec fn identity_ok(input: ContentExtractionInput, run: RunIdentity) -> bool {
    let r = input.representation;
    &&& r.extractor_version@ == run.extractor_version@
    &&& r.config_digest@ == run.config_digest@
    &&& sha256_shaped(input.source_sha256@)
    &&& !is_blank(r.mime@)
    &&& r.normalized_chars <= i64::MAX
    &&& digest_ok(r.normalized_text_sha256)
}

pub open spec fn status_problem(r: DocumentRepresentation) -> Option<ShapeProblem> {
    match r.status {
        ExtractionStatus::Extracted => if r.error is Some || r.format == DocumentFormat::Unsupported {
            Some(ShapeProblem::ExtractedNotClean)
        } else {
            None
        },
        ExtractionStatus::Unsupported => if r.error is Some || r.format != DocumentFormat::Unsupported {
            Some(ShapeProblem::UnsupportedFormat)
        } else {
            None
        },
        _ => match r.error {
            None => Some(ShapeProblem::MissingError),
            Some(e) => if is_blank(e@) {
                Some(ShapeProblem::MissingError)
            } else {
                None
            },
        },
    }
}

/// Whether one of the subjects has the id.
pub open spec fn has_subject(subs: Seq<TextSubjectInput>, id: u128) -> bool {
    exists|j: int| 0 <= j < subs.len() && (#[trigger] subs[j]).subject.id == id
}

/// A subject's own fields: its representation, an id no earlier subject
/// had, a name and a MIME type, sizes that fit an `i64`, a well-formed
/// digest.
pub open spec fn subject_fields_ok(s: TextSubject, representation_id: u128, earlier: Seq<TextSubjectInput>) -> bool {
    &&& s.representation_id == representation_id
    &&& !has_subject(earlier, s.id)
    &&& !is_blank(s.display_name@)
    &&& !is_blank(s.mime@)
    &&& s.size_bytes <= i64::MAX
    &&& s.normalized_chars <= i64::MAX
    &&& digest_ok(s.normalized_text_sha256)
}

/// One subject checked after the earlier ones, with the running character
/// total: its fields, the total and its bound, its place in the tree, and
/// its segments.
pub open spec fn subject_step(
    si: TextSubjectInput,
    earlier: Seq<TextSubjectInput>,
    representation_id: u128,
    limits: PersistenceLimits,
    total: int,
) -> Result<int, ShapeProblem> {
    let s = si.subject;
    if !subject_fields_ok(s, representation_id, earlier) {
        Err(ShapeProblem::InvalidSubject)
    } else if total + s.normalized_chars > u64::MAX {
        Err(ShapeProblem::TextTotalOverflow)
    } else if total + s.normalized_chars > limits.max_text_chars {
        Err(ShapeProblem::TextOverBound)
    } else if s.kind == TextSubjectKind::Document && (s.parent_subject_id is Some || s.virtual_path is Some) {
        Err(ShapeProblem::DocumentWithParent)
    } else if s.kind != TextSubjectKind::Document && (s.parent_subject_id is None || match s.virtual_path {
        None => true,
        Some(p) => is_blank(p@),
    }) {
        Err(ShapeProblem::EmbeddedWithoutParent)
    } else {
        match segments_verdict(
            si.segments@,
            s.normalized_chars,
            text_opt(s.normalized_text_sha256),
            limits.text_segment_chars,
        ) {
            Err(p) => Err(ShapeProblem::Segments { subject: s.id, problem: p }),
            Ok(_) => Ok(total + s.normalized_chars),
        }
    }
}

/// The first `n` subjects checked in order, and their character total.
pub open spec fn subjects_check(
    subs: Seq<TextSubjectInput>,
    representation_id: u128,
    limits: PersistenceLimits,
    n: int,
) -> Result<int, ShapeProblem>
    decreases n,
{
    if n <= 0 {
        Ok(0)
    } else {
        match subjects_check(subs, representation_id, limits, n - 1) {
            Err(p) => Err(p),
            Ok(total) => subject_step(subs[n - 1], subs.take(n - 1), representation_id, limits, total),
        }
    }
}

/// The first of the first `n` subjects whose parent is not a subject.
pub open spec fn parent_outside(subs: Seq<TextSubjectInput>, n: int) -> Option<u128>
    decreases n,
{
    if n <= 0 {
        None
    } else {
        match parent_outside(subs, n - 1) {
            Some(id) => Some(id),
            None => match subs[n - 1].subject.parent_subject_id {
                Some(parent) => if has_subject(subs, parent) {
                    None
                } else {
                    Some(subs[n - 1].subject.id)
                },
                None => None,
            },
        }
    }
}

/// The document subjects among the first `n`, in order.
pub open spec fn documents(subs: Seq<TextSubjectInput>, n: int) -> Seq<TextSubject>
    decreases n,
{
    if n <= 0 {
        Seq::empty()
    } else if subs[n - 1].subject.kind == TextSubjectKind::Document {
        documents(subs, n - 1).push(subs[n - 1].subject)
    } else {
        documents(subs, n - 1)
    }
}

pub open spec fn summary_matches(r: DocumentRepresentation, d: TextSubject) -> bool {
    &&& text_opt(r.normalized_text_sha256) == text_opt(d.normalized_text_sha256)
    &&& r.normalized_chars == d.normalized_chars
    &&& r.text_truncated == d.text_truncated
}

pub open spec fn documents_problem(r: DocumentRepresentation, subs: Seq<TextSubjectInput>) -> Option<ShapeProblem> {
    let docs = documents(subs, subs.len() as int);
    match r.status {
        ExtractionStatus::Extracted => if docs.len() != 1 {
            Some(ShapeProblem::DocumentCount)
        } else if !summary_matches(r, docs[0]) {
            Some(ShapeProblem::SummaryMismatch)
        } else {
            None
        },
        ExtractionStatus::Limited => if docs.len() > 1 {
            Some(ShapeProblem::TooManyDocuments)
        } else if docs.len() == 1 {
            if !summary_matches(r, docs[0]) {
                Some(ShapeProblem::SummaryMismatch)
            } else {
                None
            }
        } else if r.normalized_text_sha256 is Some || r.normalized_chars != 0 || r.text_truncated {
            Some(ShapeProblem::LimitedClaimsText)
        } else {
            None
        },
        _ => if subs.len() > 0 || r.normalized_text_sha256 is Some || r.normalized_chars != 0
            || r.text_truncated {
            Some(ShapeProblem::TextNotAllowed)
        } else {
            None
        },
    }
}

pub open spec fn mail_problem(r: DocumentRepresentation, mail: Option<MailMessage>) -> Option<ShapeProblem> {
    match mail {
        Some(m) => if r.format != DocumentFormat::Eml || m.representation_id != r.id || !digest_ok(
            m.body_sha256,
        ) {
            Some(ShapeProblem::InvalidMail)
        } else {
            None
        },
        None => if r.format == DocumentFormat::Eml && (r.status == ExtractionStatus::Extracted
            || r.status == ExtractionStatus::Limited) {
            Some(ShapeProblem::MissingMail)
        } else {
            None
        },
    }
}

/// The first subject with the id.
pub open spec fn subject_from(subs: Seq<TextSubjectInput>, id: u128, i: int) -> Option<TextSubject>
    decreases subs.len() - i,
{
    if !(0 <= i < subs.len()) {
        None
    } else if subs[i].subject.id == id {
        Some(subs[i].subject)
    } else {
        subject_from(subs, id, i + 1)
    }
}

/// An attachment in its place: its representation and ordinal, an id no
/// earlier attachment had, a name and a MIME type, a size that fits, a
/// well-formed digest, and a mail-attachment subject whose parent is the
/// document.
pub open spec fn attachment_ok(
    a: MailAttachment,
    ordinal: int,
    earlier: Seq<MailAttachment>,
    r: DocumentRepresentation,
    subs: Seq<TextSubjectInput>,
) -> bool {
    let parent_is_document = match subject_from(subs, a.subject_id, 0) {
        Some(s) => match s.parent_subject_id {
            Some(p) => match subject_from(subs, p, 0) {
                Some(ps) => ps.kind == TextSubjectKind::Document,
                None => false,
            },
            None => false,
        },
        None => false,
    };
    &&& a.representation_id == r.id
    &&& a.ordinal == ordinal
    &&& !(exists|j: int| 0 <= j < earlier.len() && (#[trigger] earlier[j]).id == a.id)
    &&& !is_blank(a.file_name@)
    &&& !is_blank(a.mime@)
    &&& a.size_bytes <= i64::MAX
    &&& sha256_shaped(a.sha256@)
    &&& subject_from(subs, a.subject_id, 0) matches Some(s) && s.kind == TextSubjectKind::MailAttachment
    &&& parent_is_document
}

/// An archive entry in its place: its representation and ordinal, an id
/// and a path no earlier entry had, sizes that fit, a well-formed digest,
/// an archive-entry subject at the same path if it names one, and no
/// subject or digest for a directory.
pub open spec fn entry_ok(
    e: ArchiveEntry,
    ordinal: int,
    earlier: Seq<ArchiveEntry>,
    r: DocumentRepresentation,
    subs: Seq<TextSubjectInput>,
) -> bool {
    let subject_ok = match e.subject_id {
        None => true,
        Some(id) => match subject_from(subs, id, 0) {
            Some(s) => s.kind == TextSubjectKind::ArchiveEntry && text_opt(s.virtual_path) == Some(
                e.virtual_path@,
            ),
            None => false,
        },
    };
    &&& e.representation_id == r.id
    &&& e.ordinal == ordinal
    &&& !(exists|j: int| 0 <= j < earlier.len() && (#[trigger] earlier[j]).id == e.id)
    &&& !(exists|j: int| 0 <= j < earlier.len() && (#[trigger] earlier[j]).virtual_path@ == e.virtual_path@)
    &&& !is_blank(e.virtual_path@)
    &&& e.compressed_bytes <= i64::MAX
    &&& e.size_bytes <= i64::MAX
    &&& digest_ok(e.sha256)
    &&& subject_ok
    &&& !(e.directory && (e.subject_id is Some || e.sha256 is Some))
}

pub open spec fn attachments_ok(input: ContentExtractionInput) -> bool {
    let atts = input.mail_attachments@;
    forall|i: int|
        0 <= i < atts.len() ==> attachment_ok(
            #[trigger] atts[i],
            i,
            atts.take(i),
            input.representation,
            input.subjects@,
        )
}

pub open spec fn entries_ok(input: ContentExtractionInput) -> bool {
    let entries = input.archive_entries@;
    forall|i: int|
        0 <= i < entries.len() ==> entry_ok(
            #[trigger] entries[i],
            i,
            entries.take(i),
            input.representation,
            input.subjects@,
        )
}

/// The verdict on extraction evidence, in the order of the checks.
pub open spec fn shape_verdict(input: ContentExtractionInput, run: RunIdentity, limits: PersistenceLimits) -> Result<
    (),
    ShapeProblem,
> {
    let r = input.representation;
    let subs = input.subjects@;
    if !identity_ok(input, run) {
        Err(ShapeProblem::InvalidIdentity)
    } else {
        match status_problem(r) {
            Some(p) => Err(p),
            None => match subjects_check(subs, r.id, limits, subs.len() as int) {
                Err(p) => Err(p),
                Ok(_) => match parent_outside(subs, subs.len() as int) {
                    Some(id) => Err(ShapeProblem::ParentOutside { subject: id }),
                    None => match documents_problem(r, subs) {
                        Some(p) => Err(p),
                        None => match mail_problem(r, input.mail_message) {
                            Some(p) => Err(p),
                            None => if input.mail_attachments@.len() > 0 && r.format
                                != DocumentFormat::Eml {
                                Err(ShapeProblem::AttachmentsNeedEml)
                            } else if !attachments_ok(input) {
                                Err(ShapeProblem::InvalidAttachment)
                            } else if input.archive_entries@.len() > 0 && r.format
                                != DocumentFormat::Zip {
                                Err(ShapeProblem::EntriesNeedZip)
                            } else if !entries_ok(input) {
                                Err(ShapeProblem::InvalidArchiveEntry)
                            } else {
                                Ok(())
                            },
                        },
                    },
                },
            },
        }
    }
}

} // verus!

verus! {

fn same_opt_text(a: &Option<String>, b: &Option<String>) -> (eq: bool)
    ensures
        eq == (text_opt(*a) == text_opt(*b)),
{
    match (a, b) {
        (Some(x), Some(y)) => crate::text::same_text(x.as_str(), y.as_str()),
        (None, None) => true,
        _ => false,
    }
}

fn digest_ok_exec(o: &Option<String>) -> (ok: bool)
    ensures
        ok == digest_ok(*o),
{
    match o {
        Some(d) => is_sha256(d.as_str()),
        None => true,
    }
}

fn check_identity(input: &ContentExtractionInput, run: &RunIdentity) -> (ok: bool)
    ensures
        ok == identity_ok(*input, *run),
{
    let r = &input.representation;
    crate::text::same_text(r.extractor_version.as_str(), run.extractor_version.as_str())
        && crate::text::same_text(r.config_digest.as_str(), run.config_digest.as_str())
        && is_sha256(input.source_sha256.as_str()) && !blank(r.mime.as_str())
        && r.normalized_chars <= 0x7fff_ffff_ffff_ffff && digest_ok_exec(&r.normalized_text_sha256)
}

fn check_status(r: &DocumentRepresentation) -> (p: Option<ShapeProblem>)
    ensures
        p == status_problem(*r),
{
    match r.status {
        ExtractionStatus::Extracted => if r.error.is_some() || r.format == DocumentFormat::Unsupported {
            Some(ShapeProblem::ExtractedNotClean)
        } else {
            None
        },
        ExtractionStatus::Unsupported => if r.error.is_some() || r.format != DocumentFormat::Unsupported {
            Some(ShapeProblem::UnsupportedFormat)
        } else {
            None
        },
        _ => match &r.error {
            None => Some(ShapeProblem::MissingError),
            Some(e) => if blank(e.as_str()) {
                Some(ShapeProblem::MissingError)
            } else {
                None
            },
        },
    }
}

/// Whether one of the first `n` subjects has the id.
fn subject_among(subs: &Vec<TextSubjectInput>, n: usize, id: u128) -> (found: bool)
    requires
        n <= subs@.len(),
    ensures
        found == has_subject(subs@.take(n as int), id),
{
    let ghost first = subs@.take(n as int);
    let mut j: usize = 0;
    while j < n
        invariant
            0 <= j <= n <= subs@.len(),
            first == subs@.take(n as int),
            forall|k: int| 0 <= k < j ==> (#[trigger] first[k]).subject.id != id,
        decreases n - j,
    {
        assert(first[j as int] == subs@[j as int]);
        if subs[j].subject.id == id {
            return true;
        }
        j = j + 1;
    }
    false
}

proof fn lemma_subjects_check_stays_err(
    subs: Seq<TextSubjectInput>,
    representation_id: u128,
    limits: PersistenceLimits,
    k: int,
    n: int,
)
    requires
        0 <= k <= n,
        subjects_check(subs, representation_id, limits, k) is Err,
    ensures
        subjects_check(subs, representation_id, limits, n) == subjects_check(
            subs,
            representation_id,
            limits,
            k,
        ),
    decreases n - k,
{
    if k < n {
        lemma_subjects_check_stays_err(subs, representation_id, limits, k, n - 1);
    }
}

fn check_subject(
    subs: &Vec<TextSubjectInput>,
    i: usize,
    representation_id: u128,
    limits: PersistenceLimits,
    total: u64,
) -> (r: Result<u64, ShapeProblem>)
    requires
        i < subs@.len(),
    ensures
        match r {
            Ok(t) => subject_step(subs@[i as int], subs@.take(i as int), representation_id, limits, total as int)
                == Ok::<int, ShapeProblem>(t as int),
            Err(p) => subject_step(subs@[i as int], subs@.take(i as int), representation_id, limits, total as int)
                == Err::<int, ShapeProblem>(p),
        },
{
    let si = &subs[i];
    let s = &si.subject;
    let fields_ok = s.representation_id == representation_id && !subject_among(subs, i, s.id)
        && !blank(s.display_name.as_str()) && !blank(s.mime.as_str()) && s.size_bytes
        <= 0x7fff_ffff_ffff_ffff && s.normalized_chars <= 0x7fff_ffff_ffff_ffff && digest_ok_exec(
        &s.normalized_text_sha256,
    );
    if !fields_ok {
        return Err(ShapeProblem::InvalidSubject);
    }
    let new_total = match total.checked_add(s.normalized_chars) {
        None => return Err(ShapeProblem::TextTotalOverflow),
        Some(t) => t,
    };
    if new_total > limits.max_text_chars {
        return Err(ShapeProblem::TextOverBound);
    }
    if s.kind == TextSubjectKind::Document {
        if s.parent_subject_id.is_some() || s.virtual_path.is_some() {
            return Err(ShapeProblem::DocumentWithParent);
        }
    } else {
        let no_path = match &s.virtual_path {
            None => true,
            Some(p) => blank(p.as_str()),
        };
        if s.parent_subject_id.is_none() || no_path {
            return Err(ShapeProblem::EmbeddedWithoutParent);
        }
    }
    let digest = match &s.normalized_text_sha256 {
        Some(d) => Some(d.as_str()),
        None => None,
    };
    assert(match digest {
        Some(d) => Some(d@),
        None => None::<Seq<char>>,
    } == text_opt(s.normalized_text_sha256));
    match check_segments(&si.segments, s.normalized_chars, digest, limits.text_segment_chars) {
        Err(p) => Err(ShapeProblem::Segments { subject: s.id, problem: p }),
        Ok(()) => Ok(new_total),
    }
}

fn check_subjects(subs: &Vec<TextSubjectInput>, representation_id: u128, limits: PersistenceLimits) -> (r: Result<u64, ShapeProblem>)
    ensures
        match r {
            Ok(t) => subjects_check(subs@, representation_id, limits, subs@.len() as int) == Ok::<
                int,
                ShapeProblem,
            >(t as int),
            Err(p) => subjects_check(subs@, representation_id, limits, subs@.len() as int) == Err::<
                int,
                ShapeProblem,
            >(p),
        },
{
    let mut total: u64 = 0;
    let mut i: usize = 0;
    while i < subs.len()
        invariant
            0 <= i <= subs@.len(),
            subjects_check(subs@, representation_id, limits, i as int) == Ok::<int, ShapeProblem>(
                total as int,
            ),
        decreases subs@.len() - i,
    {
        match check_subject(subs, i, representation_id, limits, total) {
            Err(p) => {
                proof {
                    lemma_subjects_check_stays_err(
                        subs@,
                        representation_id,
                        limits,
                        i + 1,
                        subs@.len() as int,
                    );
                }
                return Err(p);
            },
            Ok(t) => {
                total = t;
            },
        }
        i = i + 1;
    }
    Ok(total)
}

proof fn lemma_parent_outside_stays(subs: Seq<TextSubjectInput>, k: int, n: int)
    requires
        0 <= k <= n,
        parent_outside(subs, k) is Some,
    ensures
        parent_outside(subs, n) == parent_outside(subs, k),
    decreases n - k,
{
    if k < n {
        lemma_parent_outside_stays(subs, k, n - 1);
    }
}

fn find_parent_outside(subs: &Vec<TextSubjectInput>) -> (r: Option<u128>)
    ensures
        r == parent_outside(subs@, subs@.len() as int),
{
    assert(subs@.take(subs@.len() as int) =~= subs@);
    let mut i: usize = 0;
    while i < subs.len()
        invariant
            0 <= i <= subs@.len(),
            subs@.take(subs@.len() as int) == subs@,
            parent_outside(subs@, i as int) is None,
        decreases subs@.len() - i,
    {
        match subs[i].subject.parent_subject_id {
            Some(parent) => {
                if !subject_among(subs, subs.len(), parent) {
                    proof {
                        lemma_parent_outside_stays(subs@, i + 1, subs@.len() as int);
                    }
                    return Some(subs[i].subject.id);
                }
            },
            None => {},
        }
        i = i + 1;
    }
    None
}

fn summary_matches_exec(r: &DocumentRepresentation, d: &TextSubject) -> (ok: bool)
    ensures
        ok == summary_matches(*r, *d),
{
    same_opt_text(&r.normalized_text_sha256, &d.normalized_text_sha256) && r.normalized_chars
        == d.normalized_chars && r.text_truncated == d.text_truncated
}

fn check_documents(r: &DocumentRepresentation, subs: &Vec<TextSubjectInput>) -> (p: Option<ShapeProblem>)
    ensures
        p == documents_problem(*r, subs@),
{
    let mut count: usize = 0;
    let mut first: usize = 0;
    let mut i: usize = 0;
    while i < subs.len()
        invariant
            0 <= i <= subs@.len(),
            count == documents(subs@, i as int).len(),
            count <= i,
            count > 0 ==> first < i && documents(subs@, i as int)[0] == subs@[first as int].subject,
        decreases subs@.len() - i,
    {
        if subs[i].subject.kind == TextSubjectKind::Document {
            if count == 0 {
                first = i;
            }
            count = count + 1;
        }
        i = i + 1;
    }
    match r.status {
        ExtractionStatus::Extracted => if count != 1 {
            Some(ShapeProblem::DocumentCount)
        } else if !summary_matches_exec(r, &subs[first].subject) {
            Some(ShapeProblem::SummaryMismatch)
        } else {
            None
        },
        ExtractionStatus::Limited => if count > 1 {
            Some(ShapeProblem::TooManyDocuments)
        } else if count == 1 {
            if !summary_matches_exec(r, &subs[first].subject) {
                Some(ShapeProblem::SummaryMismatch)
            } else {
                None
            }
        } else if r.normalized_text_sha256.is_some() || r.normalized_chars != 0 || r.text_truncated {
            Some(ShapeProblem::LimitedClaimsText)
        } else {
            None
        },
        _ => if subs.len() > 0 || r.normalized_text_sha256.is_some() || r.normalized_chars != 0
            || r.text_truncated {
            Some(ShapeProblem::TextNotAllowed)
        } else {
            None
        },
    }
}

fn check_mail(r: &DocumentRepresentation, mail: &Option<MailMessage>) -> (p: Option<ShapeProblem>)
    ensures
        p == mail_problem(*r, *mail),
{
    match mail {
        Some(m) => if r.format != DocumentFormat::Eml || m.representation_id != r.id
            || !digest_ok_exec(&m.body_sha256) {
            Some(ShapeProblem::InvalidMail)
        } else {
            None
        },
        None => if r.format == DocumentFormat::Eml && (r.status == ExtractionStatus::Extracted
            || r.status == ExtractionStatus::Limited) {
            Some(ShapeProblem::MissingMail)
        } else {
            None
        },
    }
}

/// The position of the first subject with the id.
fn subject_position(subs: &Vec<TextSubjectInput>, id: u128) -> (r: Option<usize>)
    ensures
        match r {
            Some(k) => k < subs@.len() && subject_from(subs@, id, 0) == Some(subs@[k as int].subject),
            None => subject_from(subs@, id, 0) is None,
        },
{
    let mut i: usize = 0;
    while i < subs.len()
        invariant
            0 <= i <= subs@.len(),
            subject_from(subs@, id, 0) == subject_from(subs@, id, i as int),
        decreases subs@.len() - i,
    {
        if subs[i].subject.id == id {
            return Some(i);
        }
        i = i + 1;
    }
    None
}

} // verus!

verus! {

fn attachment_fits(input: &ContentExtractionInput, i: usize) -> (ok: bool)
    requires
        i < input.mail_attachments@.len(),
    ensures
        ok == attachment_ok(
            input.mail_attachments@[i as int],
            i as int,
            input.mail_attachments@.take(i as int),
            input.representation,
            input.subjects@,
        ),
{
    let atts = &input.mail_attachments;
    let a = &atts[i];
    let subs = &input.subjects;
    let ghost earlier = atts@.take(i as int);
    let mut unique = true;
    let mut j: usize = 0;
    while j < i
        invariant
            0 <= j <= i < atts@.len(),
            earlier == atts@.take(i as int),
            *a == atts@[i as int],
            unique == !(exists|k: int| 0 <= k < j && (#[trigger] earlier[k]).id == a.id),
        decreases i - j,
    {
        assert(earlier[j as int] == atts@[j as int]);
        if atts[j].id == a.id {
            unique = false;
        }
        j = j + 1;
    }
    let subject = subject_position(subs, a.subject_id);
    let (subject_kind_ok, parent_is_document) = match subject {
        None => (false, false),
        Some(k) => {
            let sub = &subs[k].subject;
            let parent_doc = match sub.parent_subject_id {
                None => false,
                Some(p) => match subject_position(subs, p) {
                    None => false,
                    Some(q) => subs[q].subject.kind == TextSubjectKind::Document,
                },
            };
            (sub.kind == TextSubjectKind::MailAttachment, parent_doc)
        },
    };
    a.representation_id == input.representation.id && a.ordinal as usize == i && unique && !blank(
        a.file_name.as_str(),
    ) && !blank(a.mime.as_str()) && a.size_bytes <= 0x7fff_ffff_ffff_ffff && is_sha256(a.sha256.as_str())
        && subject_kind_ok && parent_is_document
}

fn check_attachments(input: &ContentExtractionInput) -> (ok: bool)
    ensures
        ok == attachments_ok(*input),
{
    let mut i: usize = 0;
    while i < input.mail_attachments.len()
        invariant
            0 <= i <= input.mail_attachments@.len(),
            forall|k: int|
                0 <= k < i ==> attachment_ok(
                    #[trigger] input.mail_attachments@[k],
                    k,
                    input.mail_attachments@.take(k),
                    input.representation,
                    input.subjects@,
                ),
        decreases input.mail_attachments@.len() - i,
    {
        if !attachment_fits(input, i) {
            return false;
        }
        i = i + 1;
    }
    true
}

fn entry_fits(input: &ContentExtractionInput, i: usize) -> (ok: bool)
    requires
        i < input.archive_entries@.len(),
    ensures
        ok == entry_ok(
            input.archive_entries@[i as int],
            i as int,
            input.archive_entries@.take(i as int),
            input.representation,
            input.subjects@,
        ),
{
    let entries = &input.archive_entries;
    let e = &entries[i];
    let subs = &input.subjects;
    let ghost earlier = entries@.take(i as int);
    let mut unique_id = true;
    let mut unique_path = true;
    let mut j: usize = 0;
    while j < i
        invariant
            0 <= j <= i < entries@.len(),
            earlier == entries@.take(i as int),
            *e == entries@[i as int],
            unique_id == !(exists|k: int| 0 <= k < j && (#[trigger] earlier[k]).id == e.id),
            unique_path == !(exists|k: int|
                0 <= k < j && (#[trigger] earlier[k]).virtual_path@ == e.virtual_path@),
        decreases i - j,
    {
        assert(earlier[j as int] == entries@[j as int]);
        if entries[j].id == e.id {
            unique_id = false;
        }
        if crate::text::same_text(entries[j].virtual_path.as_str(), e.virtual_path.as_str()) {
            unique_path = false;
        }
        j = j + 1;
    }
    let subject_ok = match e.subject_id {
        None => true,
        Some(id) => match subject_position(subs, id) {
            None => false,
            Some(k) => {
                let sub = &subs[k].subject;
                let same_path = match &sub.virtual_path {
                    Some(p) => crate::text::same_text(p.as_str(), e.virtual_path.as_str()),
                    None => false,
                };
                sub.kind == TextSubjectKind::ArchiveEntry && same_path
            },
        },
    };
    e.representation_id == input.representation.id && e.ordinal as usize == i && unique_id
        && unique_path && !blank(e.virtual_path.as_str()) && e.compressed_bytes
        <= 0x7fff_ffff_ffff_ffff && e.size_bytes <= 0x7fff_ffff_ffff_ffff && digest_ok_exec(&e.sha256)
        && subject_ok && !(e.directory && (e.subject_id.is_some() || e.sha256.is_some()))
}

fn check_entries(input: &ContentExtractionInput) -> (ok: bool)
    ensures
        ok == entries_ok(*input),
{
    let mut i: usize = 0;
    while i < input.archive_entries.len()
        invariant
            0 <= i <= input.archive_entries@.len(),
            forall|k: int|
                0 <= k < i ==> entry_ok(
                    #[trigger] input.archive_entries@[k],
                    k,
                    input.archive_entries@.take(k),
                    input.representation,
                    input.subjects@,
                ),
        decreases input.archive_entries@.len() - i,
    {
        if !entry_fits(input, i) {
            return false;
        }
        i = i + 1;
    }
    true
}

/// Check the shape of one content's extraction evidence against the run it
/// belongs to and the run's text bounds: `Ok` exactly when
/// `shape_verdict` accepts it, and otherwise the first problem found.
pub fn validate_representation_shape(
    input: &ContentExtractionInput,
    run: &RunIdentity,
    limits: PersistenceLimits,
) -> (r: Result<(), ShapeProblem>)
    ensures
        r == shape_verdict(*input, *run, limits),
{
    let r = &input.representation;
    if !check_identity(input, run) {
        return Err(ShapeProblem::InvalidIdentity);
    }
    if let Some(p) = check_status(r) {
        return Err(p);
    }
    if let Err(p) = check_subjects(&input.subjects, r.id, limits) {
        return Err(p);
    }
    if let Some(id) = find_parent_outside(&input.subjects) {
        return Err(ShapeProblem::ParentOutside { subject: id });
    }
    if let Some(p) = check_documents(r, &input.subjects) {
        return Err(p);
    }
    if let Some(p) = check_mail(r, &input.mail_message) {
        return Err(p);
    }
    if input.mail_attachments.len() > 0 && r.format != DocumentFormat::Eml {
        return Err(ShapeProblem::AttachmentsNeedEml);
    }
    if !check_attachments(input) {
        return Err(ShapeProblem::InvalidAttachment);
    }
    if input.archive_entries.len() > 0 && r.format != DocumentFormat::Zip {
        return Err(ShapeProblem::EntriesNeedZip);
    }
    if !check_entries(input) {
        return Err(ShapeProblem::InvalidArchiveEntry);
    }
    Ok(())
}

} // verus!

verus! {

/// What committing an extraction result does once its evidence passes.
#[derive(Clone, Copy, Debug, PartialEq, Eq, Structural)]
pub enum ContentStep {
    /// The run already maps the content to this representation; the result
    /// is a replay of it.
    AlreadyCommitted(u128),
    /// Another run of the same extractor and configuration stored an
    /// equivalent representation; the run is bound to it.
    BindExisting(u128),
    /// The representation and its children are stored.
    Insert,
}

/// Why an extraction result is not committed.
#[derive(Clone, Copy, Debug, PartialEq, Eq, Structural)]
pub enum ContentRefusal {
    /// The source digest is not the content's canonical digest.
    NotCanonical,
    /// The evidence has the wrong shape.
    Shape(ShapeProblem),
    /// The run already committed a different representation of the content.
    ReplayDiffers,
    /// The run is sealed.
    Sealed,
    /// The same extractor and configuration gave a different representation
    /// before.
    NonDeterministic,
}

/// The decision of a commit: the source must carry the content's canonical
/// digest; a content the run already mapped is a replay, accepted only when
/// the evidence is well shaped and equivalent to what was committed; a
/// sealed run takes nothing new; new evidence must be well shaped; an
/// equivalent representation stored before is reused, a different one is
/// non-determinism; otherwise the result is stored.
///
/// `canonical_sha256` is the content's hashed digest, if any; `mapped` the
/// representation this run already maps the content to, with whether it is
/// equivalent to the input's; `existing` the same for a representation of
/// the same extractor and configuration from another run.
pub open spec fn content_step(
    canonical_sha256: Option<Seq<char>>,
    input: ContentExtractionInput,
    run: RunIdentity,
    limits: PersistenceLimits,
    mapped: Option<(u128, bool)>,
    running: bool,
    existing: Option<(u128, bool)>,
) -> Result<ContentStep, ContentRefusal> {
    if canonical_sha256 != Some(input.source_sha256@) {
        Err(ContentRefusal::NotCanonical)
    } else if let Some((id, equivalent)) = mapped {
        match shape_verdict(input, run, limits) {
            Err(p) => Err(ContentRefusal::Shape(p)),
            Ok(()) => if equivalent {
                Ok(ContentStep::AlreadyCommitted(id))
            } else {
                Err(ContentRefusal::ReplayDiffers)
            },
        }
    } else if !running {
        Err(ContentRefusal::Sealed)
    } else {
        match shape_verdict(input, run, limits) {
            Err(p) => Err(ContentRefusal::Shape(p)),
            Ok(()) => match existing {
                Some((id, equivalent)) => if equivalent {
                    Ok(ContentStep::BindExisting(id))
                } else {
                    Err(ContentRefusal::NonDeterministic)
                },
                None => Ok(ContentStep::Insert),
            },
        }
    }
}

/// Decide how an extraction result is committed, as `content_step` says.
pub fn content_result_step(
    canonical_sha256: Option<&str>,
    input: &ContentExtractionInput,
    run: &RunIdentity,
    limits: PersistenceLimits,
    mapped: Option<(u128, bool)>,
    running: bool,
    existing: Option<(u128, bool)>,
) -> (r: Result<ContentStep, ContentRefusal>)
    ensures
        r == content_step(
            match canonical_sha256 {
                Some(d) => Some(d@),
                None => None,
            },
            *input,
            *run,
            limits,
            mapped,
            running,
            existing,
        ),
{
    let canonical = match canonical_sha256 {
        Some(d) => same_text(d, input.source_sha256.as_str()),
        None => false,
    };
    if !canonical {
        return Err(ContentRefusal::NotCanonical);
    }
    if let Some((id, equivalent)) = mapped {
        if let Err(p) = validate_representation_shape(input, run, limits) {
            return Err(ContentRefusal::Shape(p));
        }
        return if equivalent {
            Ok(ContentStep::AlreadyCommitted(id))
        } else {
            Err(ContentRefusal::ReplayDiffers)
        };
    }
    if !running {
        return Err(ContentRefusal::Sealed);
    }
    if let Err(p) = validate_representation_shape(input, run, limits) {
        return Err(ContentRefusal::Shape(p));
    }
    match existing {
        Some((id, equivalent)) => if equivalent {
            Ok(ContentStep::BindExisting(id))
        } else {
            Err(ContentRefusal::NonDeterministic)
        },
        None => Ok(ContentStep::Insert),
    }
}

} // verus!
