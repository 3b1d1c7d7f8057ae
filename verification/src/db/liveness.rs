//! Which long stage holds a project, and what can be known about the run
//! holding it. Only two questions have factual answers: whether the claim is
//! this process's own, and whether it was made on this machine.

use vstd::prelude::*;
use crate::text::{same_text, copy_str};

verus! {

/// A long stage that can claim a project while it runs.
#[derive(Clone, Copy, Debug, PartialEq, Eq, Structural)]
pub enum RunStage {
    Scan,
    Hash,
    Analyze,
    Execute,
    Verify,
}

impl RunStage {
    pub open spec fn stored_name(self) -> Seq<char> {
        match self {
            RunStage::Scan => "SCAN"@,
            RunStage::Hash => "HASH"@,
            RunStage::Analyze => "ANALYZE"@,
            RunStage::Execute => "EXECUTE"@,
            RunStage::Verify => "VERIFY"@,
        }
    }

    pub open spec fn variant_name(self) -> Seq<char> {
        match self {
            RunStage::Scan => "Scan"@,
            RunStage::Hash => "Hash"@,
            RunStage::Analyze => "Analyze"@,
            RunStage::Execute => "Execute"@,
            RunStage::Verify => "Verify"@,
        }
    }

    /// The stored spelling.
    pub fn as_str(self) -> (s: &'static str)
        ensures
            s@ == self.stored_name(),
    {
        match self {
            RunStage::Scan => "SCAN",
            RunStage::Hash => "HASH",
            RunStage::Analyze => "ANALYZE",
            RunStage::Execute => "EXECUTE",
            RunStage::Verify => "VERIFY",
        }
    }

    /// The variant's own spelling.
    pub fn as_str_pascal(self) -> (s: &'static str)
        ensures
            s@ == self.variant_name(),
    {
        match self {
            RunStage::Scan => "Scan",
            RunStage::Hash => "Hash",
            RunStage::Analyze => "Analyze",
            RunStage::Execute => "Execute",
            RunStage::Verify => "Verify",
        }
    }
}

/// What is known about the run holding a project.
#[derive(Clone, Debug, PartialEq, Eq)]
pub struct RunLiveness {
    pub stage: String,
    pub pid: i64,
    pub host: String,
    pub started_at: String,
    pub heartbeat_at: String,
    /// Seconds since the last heartbeat; negative when the clock moved
    /// backwards, which is evidence too.
    pub heartbeat_age_seconds: i64,
    /// The claim was made by the process asking.
    pub is_this_process: bool,
    /// The claim was made on the machine asking.
    pub is_this_host: bool,
}

/// The liveness of a stored claim, as seen by the process `own_pid` on
/// `own_host`: the claim is this process's only when both the pid and the
/// host are its own.
pub fn liveness_of(
    stage: &str,
    pid: i64,
    claim_host: &str,
    started_at: &str,
    heartbeat_at: &str,
    heartbeat_age_seconds: i64,
    own_pid: i64,
    own_host: &str,
) -> (r: RunLiveness)
    ensures
        r.stage@ == stage@,
        r.pid == pid,
        r.host@ == claim_host@,
        r.started_at@ == started_at@,
        r.heartbeat_at@ == heartbeat_at@,
        r.heartbeat_age_seconds == heartbeat_age_seconds,
        r.is_this_host == (claim_host@ == own_host@),
        r.is_this_process == (pid == own_pid && claim_host@ == own_host@),
{
    let this_host = same_text(claim_host, own_host);
    RunLiveness {
        stage: copy_str(stage),
        pid,
        host: copy_str(claim_host),
        started_at: copy_str(started_at),
        heartbeat_at: copy_str(heartbeat_at),
        heartbeat_age_seconds,
        is_this_process: pid == own_pid && this_host,
        is_this_host: this_host,
    }
}

} // verus!
