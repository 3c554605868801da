//! Scan runs and risk findings.

use vstd::prelude::*;

use crate::model::sid::{NormalizedPath, Sid};

verus! {

/// One scan of a target. Points in time are milliseconds since the Unix epoch.
#[derive(Debug, Clone)]
pub struct ScanRun {
    pub id: String,
    pub started_at: i64,
    pub finished_at: Option<i64>,
    pub target: String,
    pub errors: Vec<ScanError>,
}

/// Error met during a scan.
#[derive(Debug, Clone)]
pub struct ScanError {
    pub path: Option<NormalizedPath>,
    pub message: String,
}

/// Severity of a risk.
#[derive(Debug, Clone, Copy, PartialEq, Eq, Structural)]
pub enum RiskSeverity {
    Info,
    Low,
    Medium,
    High,
    Critical,
}

/// A risk that a rule found.
#[derive(Debug, Clone)]
pub struct RiskFinding {
    pub rule_id: String,
    pub severity: RiskSeverity,
    pub description: String,
    pub affected_path: Option<NormalizedPath>,
    pub affected_identity: Option<Sid>,
    /// `true` where the evaluation behind the finding was incomplete.
    pub incomplete: bool,
}

} // verus!
