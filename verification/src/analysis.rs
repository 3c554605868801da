//! What an analysis takes in and gives back.

use vstd::hash_map::StringHashMap;
use vstd::prelude::*;

use crate::error::CoreError;
use crate::export::target::ExportTarget;
use crate::model::access::{
    EffectivePermission, FileSystemObject, LocalGroupEvalStatus, ShareMaskStatus,
};
use crate::model::identity::{AccessContext, Identity};
use crate::model::membership::GroupMembership;
use crate::model::scan::{RiskFinding, ScanError};
use crate::model::sid::Sid;
use crate::model::trustee::PathTrustees;

verus! {

/// What to scan.
#[derive(Debug)]
pub struct ScanRequest {
    pub target: String,
}

/// What a scan read, and what it could not read.
#[derive(Debug)]
pub struct ScanResult {
    pub objects: Vec<FileSystemObject>,
    pub errors: Vec<ScanError>,
}

/// Everything that the evaluation of one object for one identity needs.
pub struct PermissionEvaluationInput {
    pub identity: Identity,
    pub group_memberships: Vec<GroupMembership>,
    pub file_system_object: FileSystemObject,
    pub share_status: ShareMaskStatus,
    /// Local groups of the target server that the identity belongs to.
    pub local_group_sids: Vec<Sid>,
    pub local_group_status: LocalGroupEvalStatus,
    pub access_context: AccessContext,
    /// Number of entries of the share DACL that could not be interpreted.
    pub unsupported_share_ace_count: usize,
    /// Names for the explanation, by SID.
    pub sid_names: StringHashMap<String>,
    /// Nested domain groups were not resolved.
    pub group_resolution_via_sam_fallback: bool,
    /// The configured directory base does not index the identity.
    pub identity_not_in_configured_ldap_base: bool,
    /// Whether the identity is disabled is not known.
    pub identity_disabled_status_unknown: bool,
    /// Why the lookup of the identity failed, where it did.
    pub identity_lookup_failure_reason: Option<String>,
    /// Why the groups are not complete, where they are not.
    pub group_resolution_failure_reason: Option<String>,
    /// The identity was found as a Foreign Security Principal.
    pub identity_resolved_via_fsp: bool,
    /// The groups came from a Global Catalog.
    pub group_resolution_via_global_catalog: bool,
}

/// What risk rules look at.
#[derive(Debug)]
pub struct RiskContext {
    pub findings: Vec<EffectivePermission>,
}

/// The outcome of an analysis.
#[derive(Debug)]
pub struct AnalysisResult {
    pub permissions: Vec<EffectivePermission>,
    pub risk_findings: Vec<RiskFinding>,
    /// Who is on the DACL of each path, without an identity in view.
    pub path_trustees: Vec<PathTrustees>,
}

impl Default for AnalysisResult {
    fn default() -> (r: Self)
        ensures
            r.permissions@.len() == 0,
            r.risk_findings@.len() == 0,
            r.path_trustees@.len() == 0,
    {
        AnalysisResult {
            permissions: Vec::new(),
            risk_findings: Vec::new(),
            path_trustees: Vec::new(),
        }
    }
}

/// Reads file system objects or shares.
pub trait Scanner {
    /// Scans a target.
    fn scan(&self, request: ScanRequest) -> Result<ScanResult, CoreError>;
}

/// Finds identities and their groups.
pub trait IdentityResolver {
    /// The identity with a SID.
    fn resolve_identity(&self, sid: &Sid) -> Result<Identity, CoreError>;

    /// All groups of a SID, direct and nested.
    fn resolve_group_memberships(&self, sid: &Sid) -> Result<Vec<GroupMembership>, CoreError>;
}

/// Computes effective permissions.
pub trait PermissionEvaluator {
    /// Evaluates one object for one identity.
    fn evaluate(&self, input: PermissionEvaluationInput) -> Result<EffectivePermission, CoreError>;
}

/// Looks for a risk.
pub trait RiskRule {
    /// The findings of the rule.
    fn evaluate(&self, context: &RiskContext) -> Vec<RiskFinding>;
}

/// Writes an analysis to a file.
pub trait Exporter {
    /// Exports the result to the target.
    fn export(&self, result: &AnalysisResult, target: ExportTarget) -> Result<(), CoreError>;
}

} // verus!
