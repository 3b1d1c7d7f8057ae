//! The verdict of a database and ledger integrity pass.

use vstd::prelude::*;
use crate::text::{push_str, push_decimal, decimal, string_from_chars};

verus! {

/// Result of a full integrity pass.
#[derive(Clone, Debug)]
pub struct IntegrityReport {
    /// `PRAGMA integrity_check` returned `ok`.
    pub database_ok: bool,
    /// `PRAGMA foreign_key_check` returned no violations.
    pub foreign_keys_ok: bool,
    /// Applied migrations match the checksums of this build.
    pub migrations_ok: bool,
    /// The audit event chain verifies.
    pub ledger_ok: bool,
    /// A description of every problem found.
    pub problems: Vec<String>,
}

impl IntegrityReport {
    /// Whether every check passed.
    pub fn is_ok(&self) -> (ok: bool)
        ensures
            ok == (self.database_ok && self.foreign_keys_ok && self.migrations_ok && self.ledger_ok),
    {
        self.database_ok && self.foreign_keys_ok && self.migrations_ok && self.ledger_ok
    }
}

pub open spec fn text_opt(o: Option<String>) -> Option<Seq<char>> {
    match o {
        Some(s) => Some(s@),
        None => None,
    }
}

/// The problems of a pass, in the order of the checks.
pub open spec fn problems_of(
    integrity_verdict: Seq<char>,
    foreign_key_violations: u64,
    migrations_problem: Option<Seq<char>>,
    ledger_problem: Option<Seq<char>>,
) -> Seq<Seq<char>> {
    let a = if integrity_verdict != "ok"@ {
        seq!["integrity_check: "@ + integrity_verdict]
    } else {
        Seq::empty()
    };
    let b = if foreign_key_violations > 0 {
        seq!["foreign_key_check: "@ + decimal(foreign_key_violations as nat) + " violation(s)"@]
    } else {
        Seq::empty()
    };
    let c = match migrations_problem {
        Some(p) => seq![p],
        None => Seq::empty(),
    };
    let d = match ledger_problem {
        Some(p) => seq![p],
        None => Seq::empty(),
    };
    a + b + c + d
}

/// The report of a pass from what each check found: the database's own
/// verdict, the number of foreign-key violations, and the problem the
/// migration and ledger checks reported, if any.
pub fn integrity_report(
    integrity_verdict: &str,
    foreign_key_violations: u64,
    migrations_problem: Option<String>,
    ledger_problem: Option<String>,
) -> (r: IntegrityReport)
    ensures
        r.database_ok == (integrity_verdict@ == "ok"@),
        r.foreign_keys_ok == (foreign_key_violations == 0),
        r.migrations_ok == migrations_problem is None,
        r.ledger_ok == ledger_problem is None,
        r.problems@.map_values(|p: String| p@) == problems_of(
            integrity_verdict@,
            foreign_key_violations,
            text_opt(migrations_problem),
            text_opt(ledger_problem),
        ),
{
    let ghost m = text_opt(migrations_problem);
    let ghost l = text_opt(ledger_problem);
    let mut problems: Vec<String> = Vec::new();
    let database_ok = crate::text::same_text(integrity_verdict, "ok");
    if !database_ok {
        let mut out: Vec<char> = Vec::new();
        push_str(&mut out, "integrity_check: ");
        push_str(&mut out, integrity_verdict);
        problems.push(string_from_chars(out.as_slice()));
    }
    let foreign_keys_ok = foreign_key_violations == 0;
    if !foreign_keys_ok {
        let mut out: Vec<char> = Vec::new();
        push_str(&mut out, "foreign_key_check: ");
        push_decimal(&mut out, foreign_key_violations);
        push_str(&mut out, " violation(s)");
        problems.push(string_from_chars(out.as_slice()));
    }
    let migrations_ok = migrations_problem.is_none();
    match migrations_problem {
        Some(p) => problems.push(p),
        None => {},
    }
    let ledger_ok = ledger_problem.is_none();
    match ledger_problem {
        Some(p) => problems.push(p),
        None => {},
    }
    assert(problems@.map_values(|p: String| p@) =~= problems_of(
        integrity_verdict@,
        foreign_key_violations,
        m,
        l,
    ));
    IntegrityReport { database_ok, foreign_keys_ok, migrations_ok, ledger_ok, problems }
}

} // verus!
