//! The data the analyzer works on.

pub mod access;
pub mod diagnostic;
pub mod identity;
pub mod membership;
pub mod rights;
pub mod scan;
pub mod sid;
pub mod trust;
pub mod trustee;

pub use access::{
    AccessMask, AceEntry, AceKind, ContributingAce, EffectivePermission, FileSystemObject,
    LocalGroupEvalStatus, PermissionPath, Share, ShareEvalStatus, ShareMaskStatus, SharePermission,
    UnsupportedAce,
};
pub use diagnostic::{DiagnosticSeverity, PermissionDiagnostic};
pub use identity::{AccessContext, Identity, IdentityKind};
pub use membership::{
    group_sid_history_diagnostics, members_view_rejection, privileged_group_role, GroupMembersReport,
    GroupMembership, MemberNode, MemberVia, MembershipPath, MembershipPathSource, MembershipReport,
};
pub use rights::{NormalizedRights, RightsTable};
pub use scan::{RiskFinding, RiskSeverity, ScanError, ScanRun};
pub use sid::{NormalizedPath, Sid};
pub use trust::{DomainTrust, TrustAttributes, TrustDirection};
pub use trustee::{PathTrustee, PathTrusteeEntry, PathTrustees, TrusteeCategory};
