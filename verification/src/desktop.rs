//! The error shape the desktop shell delivers to its frontend: a stable
//! code for each kind of failure, and the failure's own message.

use vstd::prelude::*;
use crate::text::{copy_str, push_str, string_from_chars};

verus! {

/// The kinds of failure an engine command reports.
#[derive(Clone, Copy, Debug, PartialEq, Eq, Structural)]
pub enum ErrorKind {
    InvalidTransition,
    Validation,
    NotFound,
    Conflict,
    Database,
    LedgerIntegrity,
    Serialization,
    Io,
}

impl ErrorKind {
    pub open spec fn code(self) -> Seq<char> {
        match self {
            ErrorKind::InvalidTransition => "invalid_transition"@,
            ErrorKind::Validation => "validation"@,
            ErrorKind::NotFound => "not_found"@,
            ErrorKind::Conflict => "conflict"@,
            ErrorKind::Database => "database"@,
            ErrorKind::LedgerIntegrity => "ledger_integrity"@,
            ErrorKind::Serialization => "serialization"@,
            ErrorKind::Io => "io"@,
        }
    }

    /// The stable frontend code of the kind.
    pub fn as_code(self) -> (code: &'static str)
        ensures
            code@ == self.code(),
    {
        match self {
            ErrorKind::InvalidTransition => "invalid_transition",
            ErrorKind::Validation => "validation",
            ErrorKind::NotFound => "not_found",
            ErrorKind::Conflict => "conflict",
            ErrorKind::Database => "database",
            ErrorKind::LedgerIntegrity => "ledger_integrity",
            ErrorKind::Serialization => "serialization",
            ErrorKind::Io => "io",
        }
    }
}

/// Error shape delivered to the frontend.
#[derive(Clone, Debug, PartialEq, Eq)]
pub struct ErrorDto {
    pub code: String,
    pub message: String,
}

impl ErrorDto {
    /// The shape of a failure of the given kind, with its message.
    pub fn from_error(kind: ErrorKind, message: &str) -> (dto: ErrorDto)
        ensures
            dto.code@ == kind.code(),
            dto.message@ == message@,
    {
        ErrorDto { code: copy_str(kind.as_code()), message: copy_str(message) }
    }

    /// The shape of a command whose worker itself failed.
    pub fn worker_failed(detail: &str) -> (dto: ErrorDto)
        ensures
            dto.code@ == "internal"@,
            dto.message@ == "desktop command worker failed: "@ + detail@,
    {
        let mut out: Vec<char> = Vec::new();
        push_str(&mut out, "desktop command worker failed: ");
        push_str(&mut out, detail);
        ErrorDto { code: copy_str("internal"), message: string_from_chars(out.as_slice()) }
    }
}

} // verus!
