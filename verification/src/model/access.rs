//! Access control data and the permissions derived from it.

use vstd::prelude::*;

use crate::model::diagnostic::PermissionDiagnostic;
use crate::model::identity::Identity;
use crate::model::sid::{NormalizedPath, Sid};

verus! {

/// Raw Windows access mask.
#[derive(Debug, Clone, Copy, PartialEq, Eq, Structural)]
pub struct AccessMask(pub u32);

/// Kind of an access control entry.
#[derive(Debug, Clone, Copy, PartialEq, Eq, Structural)]
pub enum AceKind {
    Allow,
    Deny,
}

/// Single entry of an access control list.
#[derive(Debug)]
pub struct AceEntry {
    pub kind: AceKind,
    pub sid: Sid,
    pub mask: AccessMask,
    pub inherited: bool,
    pub inheritance_flags: u32,
    pub propagation_flags: u32,
}

impl Clone for AceEntry {
    fn clone(&self) -> (r: Self)
        ensures
            r == *self,
    {
        AceEntry {
            kind: self.kind,
            sid: self.sid.clone(),
            mask: self.mask,
            inherited: self.inherited,
            inheritance_flags: self.inheritance_flags,
            propagation_flags: self.propagation_flags,
        }
    }
}

/// An entry of a type that cannot be interpreted.
#[derive(Debug, Clone, Copy, PartialEq, Eq, Structural)]
pub struct UnsupportedAce {
    /// Raw `AceType` of the header.
    pub ace_type: u8,
    /// Raw `AceFlags` of the header.
    pub flags: u8,
    /// The mask that follows the header.
    pub mask: u32,
}

/// File system object with its access control data.
#[derive(Debug, Clone)]
pub struct FileSystemObject {
    pub path: NormalizedPath,
    pub is_directory: bool,
    pub owner_sid: Option<Sid>,
    pub dacl: Vec<AceEntry>,
    pub inheritance_disabled: bool,
    pub is_reparse_point: bool,
    /// Entries whose type is not supported.
    pub unsupported_aces: Vec<UnsupportedAce>,
    /// `true` where the DACL is NULL: full access for everyone, unlike an empty
    /// DACL, which means no access.
    pub null_dacl: bool,
    /// Hash of the raw security descriptor, where one was read.
    pub sd_hash: Option<u64>,
}

/// SMB share.
#[derive(Debug, Clone)]
pub struct Share {
    pub name: String,
    pub unc_path: String,
    pub local_path: Option<NormalizedPath>,
    pub is_admin_share: bool,
}

/// Permission on a share.
#[derive(Debug)]
pub struct SharePermission {
    pub share_name: String,
    pub sid: Sid,
    pub mask: AccessMask,
    pub kind: AceKind,
}

/// What became of the share DACL in a result.
#[derive(Debug, Clone, PartialEq, Eq)]
pub enum ShareEvalStatus {
    /// No SMB context: the result shows NTFS permissions only.
    NotApplicable,
    /// The share DACL was read and applied.
    Applied,
    /// The share DACL is NULL: no restriction on the SMB side.
    Unrestricted,
    /// The share DACL could not be read.
    ReadFailed(String),
}

impl Default for ShareEvalStatus {
    fn default() -> (r: Self)
        ensures
            r is NotApplicable,
    {
        ShareEvalStatus::NotApplicable
    }
}

/// State of the share side going into an evaluation.
#[derive(Debug, PartialEq, Eq)]
pub enum ShareMaskStatus {
    /// No SMB context.
    NotApplicable,
    /// The share DACL was read; this is the computed mask.
    Applied(AccessMask),
    /// The share DACL is NULL.
    Unrestricted,
    /// The share DACL could not be read.
    ReadFailed(String),
}

impl Clone for ShareMaskStatus {
    fn clone(&self) -> (r: Self)
        ensures
            r == *self,
    {
        match self {
            ShareMaskStatus::NotApplicable => ShareMaskStatus::NotApplicable,
            ShareMaskStatus::Applied(m) => ShareMaskStatus::Applied(*m),
            ShareMaskStatus::Unrestricted => ShareMaskStatus::Unrestricted,
            ShareMaskStatus::ReadFailed(reason) => ShareMaskStatus::ReadFailed(reason.clone()),
        }
    }
}

impl Default for ShareMaskStatus {
    fn default() -> (r: Self)
        ensures
            r is NotApplicable,
    {
        ShareMaskStatus::NotApplicable
    }
}

/// What became of the local groups of the target server in a result.
#[derive(Debug, PartialEq, Eq)]
pub enum LocalGroupEvalStatus {
    /// Local groups were not requested.
    NotQueried,
    /// The local groups belong to the token.
    Applied,
    /// The local groups could not be resolved; the token is incomplete.
    NotAvailable(String),
}

impl Clone for LocalGroupEvalStatus {
    fn clone(&self) -> (r: Self)
        ensures
            r == *self,
    {
        match self {
            LocalGroupEvalStatus::NotQueried => LocalGroupEvalStatus::NotQueried,
            LocalGroupEvalStatus::Applied => LocalGroupEvalStatus::Applied,
            LocalGroupEvalStatus::NotAvailable(reason) => LocalGroupEvalStatus::NotAvailable(
                reason.clone(),
            ),
        }
    }
}

impl Default for LocalGroupEvalStatus {
    fn default() -> (r: Self)
        ensures
            r is NotQueried,
    {
        LocalGroupEvalStatus::NotQueried
    }
}

/// A trustee with the bits that its entries contributed to the NTFS result.
#[derive(Debug, Clone)]
pub struct ContributingAce {
    pub sid: Sid,
    pub mask: AccessMask,
}

/// The steps that explain a permission.
#[derive(Debug, Clone)]
pub struct PermissionPath {
    pub steps: Vec<String>,
}

/// Effective permission of an identity on a path.
#[derive(Debug, Clone)]
pub struct EffectivePermission {
    pub identity: Identity,
    pub path: NormalizedPath,
    pub ntfs_mask: AccessMask,
    pub share_mask: Option<AccessMask>,
    /// The more restrictive combination of NTFS and share.
    pub effective_mask: AccessMask,
    pub path_explanation: PermissionPath,
    pub share_status: ShareEvalStatus,
    pub local_group_status: LocalGroupEvalStatus,
    /// Trustees that contributed at least one bit.
    pub contributing_sids: Vec<ContributingAce>,
    /// Number of entries that could not be evaluated.
    pub unsupported_ace_count: usize,
    /// Entries whose trustee belongs to the token of the identity.
    pub matched_aces: Vec<AceEntry>,
    /// Markers for what an auditor should know beyond the rights.
    pub diagnostics: Vec<PermissionDiagnostic>,
}

impl EffectivePermission {
    /// Whether the evaluation has gaps, so that the rights may be wrong.
    pub open spec fn has_gaps(self) -> bool {
        ||| self.share_status is ReadFailed
        ||| self.unsupported_ace_count > 0
        ||| self.local_group_status is NotAvailable
        ||| exists|i: int|
            0 <= i < self.diagnostics@.len() && (#[trigger] self.diagnostics@[i]).marks_gap()
    }

    /// Decides whether the evaluation has gaps.
    pub fn is_incomplete(&self) -> (r: bool)
        ensures
            r == self.has_gaps(),
    {
        if let ShareEvalStatus::ReadFailed(_) = self.share_status {
            return true;
        }
        if self.unsupported_ace_count > 0 {
            return true;
        }
        if let LocalGroupEvalStatus::NotAvailable(_) = self.local_group_status {
            return true;
        }
        for i in 0..self.diagnostics.len()
            invariant
                !(self.share_status is ReadFailed),
                self.unsupported_ace_count == 0,
                !(self.local_group_status is NotAvailable),
                forall|j: int| 0 <= j < i ==> !(#[trigger] self.diagnostics@[j]).marks_gap(),
        {
            if self.diagnostics[i].is_incompleteness_trigger() {
                assert(self.diagnostics@[i as int].marks_gap());
                return true;
            }
        }
        false
    }
}

/// Whatever may make the rights wrong makes the evaluation incomplete: a share that could
/// not be read, entries that could not be evaluated, missing local groups, and every marker
/// that stands for a gap. Without any of these it is complete, whatever else is noted.
pub proof fn law_every_gap_counts(p: EffectivePermission, i: int)
    ensures
        p.share_status is ReadFailed ==> p.has_gaps(),
        p.unsupported_ace_count > 0 ==> p.has_gaps(),
        p.local_group_status is NotAvailable ==> p.has_gaps(),
        0 <= i < p.diagnostics@.len() && p.diagnostics@[i].marks_gap() ==> p.has_gaps(),
        p.has_gaps() ==> p.share_status is ReadFailed || p.unsupported_ace_count > 0
            || p.local_group_status is NotAvailable || exists|k: int|
            0 <= k < p.diagnostics@.len() && (#[trigger] p.diagnostics@[k]).marks_gap(),
{
}

} // verus!
