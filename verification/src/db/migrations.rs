//! The ordered, checksummed migrations of the schema. Each runs once and
//! its checksum is recorded; on every open the checksums of applied
//! migrations are verified again, so silent schema drift is detected.

use vstd::prelude::*;
use vstd::utf8::encode_utf8;
use crate::digest::{sha256_hex, sha256_hex_of};
use crate::text::{str_chars, string_from_chars, same_text};
use vstd::string::StrSliceExecFns;

verus! {

/// One migration of the schema.
#[derive(Clone, Copy, Debug)]
pub struct Migration {
    pub version: i64,
    pub name: &'static str,
}

/// The names of the migrations of this build, in version order.
pub open spec fn migration_names() -> Seq<Seq<char>> {
    seq![
        "foundation"@,
        "inventory"@,
        "planning"@,
        "execution_manifest"@,
        "path_identity"@,
        "structure"@,
        "contexts"@,
        "representatives"@,
        "tree_relations"@,
        "structural_review"@,
        "derived_evidence_seal"@,
        "execution_partial_lease"@,
        "content_similarity"@,
        "content_intelligence"@,
        "hash_queue_index"@,
        "media_intelligence"@,
        "plugin_ecosystem"@,
    ]
}

/// The number of migrations this build knows.
pub const MIGRATION_COUNT: usize = 17;

/// Every migration known to this build, in order: versions 1 to 17, each
/// with its name.
pub fn migrations() -> (out: Vec<Migration>)
    ensures
        out@.len() == MIGRATION_COUNT,
        forall|i: int| 0 <= i < out@.len() ==> (#[trigger] out@[i]).version == i + 1,
        forall|i: int| 0 <= i < out@.len() ==> (#[trigger] out@[i]).name@ == migration_names()[i],
{
    let mut out: Vec<Migration> = Vec::new();
    out.push(Migration { version: 1, name: "foundation" });
    out.push(Migration { version: 2, name: "inventory" });
    out.push(Migration { version: 3, name: "planning" });
    out.push(Migration { version: 4, name: "execution_manifest" });
    out.push(Migration { version: 5, name: "path_identity" });
    out.push(Migration { version: 6, name: "structure" });
    out.push(Migration { version: 7, name: "contexts" });
    out.push(Migration { version: 8, name: "representatives" });
    out.push(Migration { version: 9, name: "tree_relations" });
    out.push(Migration { version: 10, name: "structural_review" });
    out.push(Migration { version: 11, name: "derived_evidence_seal" });
    out.push(Migration { version: 12, name: "execution_partial_lease" });
    out.push(Migration { version: 13, name: "content_similarity" });
    out.push(Migration { version: 14, name: "content_intelligence" });
    out.push(Migration { version: 15, name: "hash_queue_index" });
    out.push(Migration { version: 16, name: "media_intelligence" });
    out.push(Migration { version: 17, name: "plugin_ecosystem" });
    out
}

/// Migration versions are strictly increasing.
pub proof fn lemma_versions_strictly_increasing(list: Seq<Migration>, i: int, j: int)
    requires
        forall|k: int| 0 <= k < list.len() ==> (#[trigger] list[k]).version == k + 1,
        0 <= i < j < list.len(),
    ensures
        list[i].version < list[j].version,
{
}

/// Whether the versions of a list strictly increase.
pub fn versions_strictly_increasing(list: &Vec<Migration>) -> (ok: bool)
    ensures
        ok == forall|i: int, j: int|
            0 <= i < j < list@.len() ==> (#[trigger] list@[i]).version < (#[trigger] list@[j]).version,
{
    let mut i: usize = 1;
    while i < list.len()
        invariant
            1 <= i,
            i <= list@.len() || list@.len() == 0,
            forall|a: int, b: int|
                0 <= a < b < i && b < list@.len() ==> (#[trigger] list@[a]).version < (#[trigger] list@[b]).version,
        decreases list@.len() - i,
    {
        if list[i - 1].version >= list[i].version {
            return false;
        }
        assert forall|a: int, b: int|
            0 <= a < b < i + 1 && b < list@.len() implies (#[trigger] list@[a]).version < (#[trigger] list@[b]).version by {
            if b == i as int && a < i - 1 {
                assert(list@[a].version < list@[i - 1].version);
            }
        }
        i = i + 1;
    }
    true
}

// ---------------------------------------------------------------------
// Checksums

/// The text with every CR LF pair replaced by LF, scanning from the left.
pub open spec fn normalized(s: Seq<char>) -> Seq<char>
    decreases s.len(),
{
    if s.len() == 0 {
        s
    } else if s.len() >= 2 && s[0] == '\r' && s[1] == '\n' {
        seq!['\n'] + normalized(s.skip(2))
    } else {
        seq![s[0]] + normalized(s.skip(1))
    }
}

/// The checksum of a migration: SHA-256 of its text with line endings
/// normalised, so it is stable across line-ending conventions.
pub open spec fn checksum_of(sql: Seq<char>) -> Seq<char> {
    sha256_hex_of(encode_utf8(normalized(sql)))
}

pub fn sql_checksum(sql: &str) -> (digest: String)
    ensures
        digest@ == checksum_of(sql@),
{
    let s = str_chars(sql);
    let mut out: Vec<char> = Vec::new();
    let mut i: usize = 0;
    assert(s@.skip(0) =~= s@);
    assert(out@ + normalized(s@) =~= normalized(s@));
    while i < s.len()
        invariant
            0 <= i <= s@.len(),
            s@ == sql@,
            normalized(sql@) == out@ + normalized(s@.skip(i as int)),
        decreases s@.len() - i,
    {
        let ghost rest = s@.skip(i as int);
        if i + 1 < s.len() && s[i] == '\r' && s[i + 1] == '\n' {
            assert(rest.skip(2) =~= s@.skip(i + 2));
            out.push('\n');
            i = i + 2;
        } else {
            assert(rest.skip(1) =~= s@.skip(i + 1));
            out.push(s[i]);
            i = i + 1;
        }
    }
    assert(s@.skip(i as int) =~= Seq::<char>::empty());
    assert(out@ + Seq::<char>::empty() =~= out@);
    let text = string_from_chars(out.as_slice());
    let bytes = text.as_str().as_bytes_vec();
    sha256_hex(bytes.as_slice())
}

/// The same text with LF line endings written as CR LF.
pub open spec fn with_crlf(s: Seq<char>) -> Seq<char>
    decreases s.len(),
{
    if s.len() == 0 {
        s
    } else if s[0] == '\n' {
        seq!['\r', '\n'] + with_crlf(s.skip(1))
    } else {
        seq![s[0]] + with_crlf(s.skip(1))
    }
}

pub open spec fn no_carriage_return(s: Seq<char>) -> bool {
    forall|i: int| 0 <= i < s.len() ==> s[i] != '\r'
}

proof fn lemma_normalized_undoes_crlf(s: Seq<char>)
    requires
        no_carriage_return(s),
    ensures
        normalized(with_crlf(s)) == s,
    decreases s.len(),
{
    if s.len() > 0 {
        lemma_normalized_undoes_crlf(s.skip(1));
        let w = with_crlf(s);
        if s[0] == '\n' {
            assert(w.skip(2) =~= with_crlf(s.skip(1)));
        } else {
            assert(w.skip(1) =~= with_crlf(s.skip(1)));
            if w.len() >= 2 {
                assert(w[0] == s[0]);
            }
        }
        assert(s =~= seq![s[0]] + s.skip(1));
    }
}

/// The checksum is stable across line endings: a text written with LF
/// line endings and the same text written with CR LF have one checksum.
pub proof fn lemma_checksum_ignores_line_endings(s: Seq<char>)
    requires
        no_carriage_return(s),
    ensures
        checksum_of(with_crlf(s)) == checksum_of(s),
{
    lemma_normalized_undoes_crlf(s);
    lemma_normalized_plain(s);
}

proof fn lemma_normalized_plain(s: Seq<char>)
    requires
        no_carriage_return(s),
    ensures
        normalized(s) == s,
    decreases s.len(),
{
    if s.len() > 0 {
        lemma_normalized_plain(s.skip(1));
        assert(s =~= seq![s[0]] + s.skip(1));
    }
}

/// What opening a database does with one migration.
#[derive(Clone, Copy, Debug, PartialEq, Eq, Structural)]
pub enum MigrationStep {
    /// Applied with this build's checksum: nothing to do.
    Current,
    /// Not applied yet: run it and record its checksum.
    Apply,
    /// Applied with another checksum: the schema drifted, refuse.
    Drifted,
}

/// The step for a migration, from the checksum recorded when it was
/// applied, if it was, and its checksum in this build.
pub fn migration_step(stored: Option<&str>, current: &str) -> (step: MigrationStep)
    ensures
        step == match stored {
            None => MigrationStep::Apply,
            Some(s) => if s@ == current@ {
                MigrationStep::Current
            } else {
                MigrationStep::Drifted
            },
        },
{
    match stored {
        None => MigrationStep::Apply,
        Some(s) => if same_text(s, current) {
            MigrationStep::Current
        } else {
            MigrationStep::Drifted
        },
    }
}

} // verus!
