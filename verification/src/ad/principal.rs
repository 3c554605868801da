//! Resolution of principals: one pipeline for all forms of input.

use vstd::prelude::*;

use crate::ad::resolver::bare;
use crate::error::CoreError;
use crate::model::diagnostic::PermissionDiagnostic;
use crate::model::identity;
use crate::model::identity::{clone_text, Identity, IdentityKind};
use crate::model::membership;
use crate::model::membership::GroupMembership;
use crate::model::sid::Sid;
use crate::text;

verus! {

/// What the user gave to name a principal.
#[derive(Debug)]
pub enum PrincipalInput {
    /// Raw input, to be classified by its syntax.
    Auto(String),
    /// `DOMAIN\user`.
    DomainQualified(String),
    /// `user@domain.tld`.
    Upn(String),
    /// `sAMAccountName` only.
    SamAccount(String),
    /// `S-1-…`.
    Sid(Sid),
    /// A name picked from a search.
    DisplayName(String),
}

/// What a [`PrincipalInput`] says.
pub enum InputView {
    Auto(Seq<char>),
    DomainQualified(Seq<char>),
    Upn(Seq<char>),
    SamAccount(Seq<char>),
    Sid(Seq<char>),
    DisplayName(Seq<char>),
}

impl View for PrincipalInput {
    type V = InputView;

    open spec fn view(&self) -> InputView {
        match self {
            PrincipalInput::Auto(s) => InputView::Auto(s@),
            PrincipalInput::DomainQualified(s) => InputView::DomainQualified(s@),
            PrincipalInput::Upn(s) => InputView::Upn(s@),
            PrincipalInput::SamAccount(s) => InputView::SamAccount(s@),
            PrincipalInput::Sid(s) => InputView::Sid(s@),
            PrincipalInput::DisplayName(s) => InputView::DisplayName(s@),
        }
    }
}

/// The form of a raw input that is not blank.
pub open spec fn classified(t: Seq<char>) -> InputView {
    if "S-1-"@.is_prefix_of(t) {
        InputView::Sid(t)
    } else if t.contains('\\') {
        InputView::DomainQualified(t)
    } else if t.contains('@') {
        InputView::Upn(t)
    } else {
        InputView::SamAccount(t)
    }
}

/// Whether an input is raw and blank.
pub open spec fn is_blank(input: InputView) -> bool {
    input matches InputView::Auto(s) && text::trimmed(s).len() == 0
}

/// The form of an input, with raw input classified.
pub open spec fn form_of(input: InputView) -> InputView {
    match input {
        InputView::Auto(s) => classified(text::trimmed(s)),
        other => other,
    }
}

/// The message for blank input.
pub open spec fn blank_message() -> Seq<char> {
    "Empty identity input — provide DOMAIN\\user, user@domain.tld, sAMAccountName or SID"@
}

impl PrincipalInput {
    /// Classifies raw input by its syntax, trimmed; other input stays as it is.
    pub fn classify(self) -> (r: Result<Self, CoreError>)
        ensures
            is_blank(self@) ==> (r matches Err(CoreError::Validation(m)) && m@
                == blank_message()),
            !is_blank(self@) ==> (r matches Ok(c) && c@ == form_of(self@)),
    {
        match self {
            PrincipalInput::Auto(raw) => {
                let t: &str = text::trim(raw.as_str());
                if t.is_empty() {
                    return Err(
                        CoreError::Validation(
                            "Empty identity input — provide DOMAIN\\user, user@domain.tld, sAMAccountName or SID".to_owned(),
                        ),
                    );
                }
                if text::starts_with(t, "S-1-") {
                    Ok(PrincipalInput::Sid(Sid(t.to_owned())))
                } else if text::contains_char(t, '\\') {
                    Ok(PrincipalInput::DomainQualified(t.to_owned()))
                } else if text::contains_char(t, '@') {
                    Ok(PrincipalInput::Upn(t.to_owned()))
                } else {
                    Ok(PrincipalInput::SamAccount(t.to_owned()))
                }
            },
            other => Ok(other),
        }
    }
}

/// Where a principal was found, relative to the configured directory base.
#[derive(Debug, PartialEq, Eq)]
pub enum IdentityScopeStatus {
    /// Found under the base.
    InsideConfiguredLdapBase,
    /// Not under the base, but the local security authority knows the SID.
    OutsideConfiguredLdapBase,
    /// Known to neither.
    OrphanedSid,
    /// The directory could not be asked.
    LookupFailed { reason: String },
}

/// What an [`IdentityScopeStatus`] says.
pub enum ScopeView {
    Inside,
    Outside,
    Orphaned,
    Failed(Seq<char>),
}

impl View for IdentityScopeStatus {
    type V = ScopeView;

    open spec fn view(&self) -> ScopeView {
        match self {
            IdentityScopeStatus::InsideConfiguredLdapBase => ScopeView::Inside,
            IdentityScopeStatus::OutsideConfiguredLdapBase => ScopeView::Outside,
            IdentityScopeStatus::OrphanedSid => ScopeView::Orphaned,
            IdentityScopeStatus::LookupFailed { reason } => ScopeView::Failed(reason@),
        }
    }
}

/// How the groups of a principal were resolved.
#[derive(Debug, PartialEq, Eq)]
pub enum GroupResolutionStatus {
    /// By the directory, recursively.
    LdapRecursive,
    /// By the account database: direct domain groups and local groups only.
    SamFlat,
    /// Not, because of an error.
    Failed { reason: String },
    /// Not, on purpose.
    NotAttempted,
}

/// What a [`GroupResolutionStatus`] says.
pub enum GroupsView {
    LdapRecursive,
    SamFlat,
    Failed(Seq<char>),
    NotAttempted,
}

impl View for GroupResolutionStatus {
    type V = GroupsView;

    open spec fn view(&self) -> GroupsView {
        match self {
            GroupResolutionStatus::LdapRecursive => GroupsView::LdapRecursive,
            GroupResolutionStatus::SamFlat => GroupsView::SamFlat,
            GroupResolutionStatus::Failed { reason } => GroupsView::Failed(reason@),
            GroupResolutionStatus::NotAttempted => GroupsView::NotAttempted,
        }
    }
}

/// What is known of the `disabled` flag of an account.
#[derive(Debug, Clone, Copy, PartialEq, Eq, Structural)]
pub enum DisabledStatus {
    Known(bool),
    Unknown,
}

impl DisabledStatus {
    /// `true` only where the account is known to be disabled.
    pub fn as_bool_conservative(self) -> (r: bool)
        ensures
            r == (self == DisabledStatus::Known(true)),
    {
        match self {
            DisabledStatus::Known(b) => b,
            DisabledStatus::Unknown => false,
        }
    }
}

/// Outcome of the resolution of a principal.
#[derive(Debug)]
pub struct PrincipalResolution {
    pub sid: Sid,
    pub identity: Identity,
    pub memberships: Vec<GroupMembership>,
    pub scope_status: IdentityScopeStatus,
    pub group_resolution_status: GroupResolutionStatus,
    pub disabled_status: DisabledStatus,
    pub diagnostics: Vec<PermissionDiagnostic>,
    /// The principal was found as a Foreign Security Principal: groups in its
    /// own forest are unknown.
    pub resolved_via_fsp: bool,
    /// The groups came from a Global Catalog: only universal groups are complete.
    pub resolved_via_global_catalog: bool,
}

/// What a [`PrincipalResolution`] says.
pub struct ResolutionView {
    pub sid: Seq<char>,
    pub identity: identity::IdentityView,
    pub memberships: Seq<membership::GroupMembershipView>,
    pub scope: ScopeView,
    pub groups: GroupsView,
    pub disabled_status: DisabledStatus,
    pub diagnostics: Seq<PermissionDiagnostic>,
    pub via_fsp: bool,
    pub via_global_catalog: bool,
}

impl View for PrincipalResolution {
    type V = ResolutionView;

    open spec fn view(&self) -> ResolutionView {
        ResolutionView {
            sid: self.sid@,
            identity: self.identity@,
            memberships: membership::membership_views(self.memberships@),
            scope: self.scope_status@,
            groups: self.group_resolution_status@,
            disabled_status: self.disabled_status,
            diagnostics: self.diagnostics@,
            via_fsp: self.resolved_via_fsp,
            via_global_catalog: self.resolved_via_global_catalog,
        }
    }
}

/// The flags that an evaluation takes over from a resolution.
#[derive(Debug, PartialEq, Eq)]
pub struct EngineFlags {
    pub identity_not_in_configured_ldap_base: bool,
    pub identity_disabled_status_unknown: bool,
    pub group_resolution_via_sam_fallback: bool,
    pub identity_lookup_failure_reason: Option<String>,
    pub group_resolution_failure_reason: Option<String>,
    pub identity_resolved_via_fsp: bool,
    pub group_resolution_via_global_catalog: bool,
}

/// Why the groups of a resolution are not complete. Groups that were skipped
/// count where the principal is real but outside the base.
pub open spec fn group_failure(scope: ScopeView, groups: GroupsView) -> Option<Seq<char>> {
    match groups {
        GroupsView::Failed(reason) => Some(reason),
        GroupsView::NotAttempted => if scope is Outside {
            Some("group resolution skipped: identity is outside the configured LDAP base"@)
        } else {
            None
        },
        _ => None,
    }
}

impl PrincipalResolution {
    /// Derives the flags for an evaluation from the state of the resolution.
    pub fn engine_flags(&self) -> (r: EngineFlags)
        ensures
            r.identity_not_in_configured_ldap_base == (self@.scope is Outside),
            r.identity_disabled_status_unknown == (self@.disabled_status is Unknown),
            r.group_resolution_via_sam_fallback == (self@.groups is SamFlat),
            text::text_of(r.identity_lookup_failure_reason) == (match self@.scope {
                ScopeView::Failed(reason) => Some(reason),
                _ => None,
            }),
            text::text_of(r.group_resolution_failure_reason) == group_failure(
                self@.scope,
                self@.groups,
            ),
            r.identity_resolved_via_fsp == self@.via_fsp,
            r.group_resolution_via_global_catalog == self@.via_global_catalog,
    {
        let outside: bool = match &self.scope_status {
            IdentityScopeStatus::OutsideConfiguredLdapBase => true,
            _ => false,
        };
        let identity_lookup_failure_reason: Option<String> = match &self.scope_status {
            IdentityScopeStatus::LookupFailed { reason } => Some(reason.clone()),
            _ => None,
        };
        let group_resolution_failure_reason: Option<String> = match &self.group_resolution_status {
            GroupResolutionStatus::Failed { reason } => Some(reason.clone()),
            GroupResolutionStatus::NotAttempted => if outside {
                Some(
                    "group resolution skipped: identity is outside the configured LDAP base".to_owned(),
                )
            } else {
                None
            },
            _ => None,
        };
        EngineFlags {
            identity_not_in_configured_ldap_base: outside,
            identity_disabled_status_unknown: match self.disabled_status {
                DisabledStatus::Unknown => true,
                DisabledStatus::Known(_) => false,
            },
            group_resolution_via_sam_fallback: match &self.group_resolution_status {
                GroupResolutionStatus::SamFlat => true,
                _ => false,
            },
            identity_lookup_failure_reason,
            group_resolution_failure_reason,
            identity_resolved_via_fsp: self.resolved_via_fsp,
            group_resolution_via_global_catalog: self.resolved_via_global_catalog,
        }
    }
}

/// Account data from the local security authority.
#[derive(Debug)]
pub struct LsaAccountInfo {
    pub name: String,
    pub domain: String,
    pub kind: IdentityKind,
}

impl Clone for LsaAccountInfo {
    fn clone(&self) -> (r: Self)
        ensures
            r == *self,
    {
        LsaAccountInfo { name: self.name.clone(), domain: self.domain.clone(), kind: self.kind }
    }
}

/// A directory that can be asked for identities and groups.
pub trait IdentityBackend {
    /// The identity with a SID, where it is under the base.
    fn lookup_identity_by_sid(&self, sid: &Sid) -> Result<Option<Identity>, CoreError>;

    /// The identity with a user principal name.
    fn lookup_identity_by_upn(&self, upn: &str) -> Result<Option<(Sid, Identity)>, CoreError>;

    /// All identities with an account name.
    fn lookup_identities_by_sam(&self, sam: &str) -> Result<Vec<(Sid, Identity)>, CoreError>;

    /// The groups of a principal, recursively.
    fn resolve_memberships(&self, sid: &Sid) -> Result<Vec<GroupMembership>, CoreError>;

    /// Whether the whole forest is searched, as with a Global Catalog. A backend that
    /// does not say so searches its base alone.
    fn is_forest_wide(&self) -> (r: bool)
        default_ensures
            !r,
    {
        false
    }
}

/// A local security authority that can be asked for accounts.
pub trait LsaBackend {
    /// The SID of a name.
    fn lookup_sid_for_name(&self, name: &str) -> Result<Sid, CoreError>;

    /// The account with a SID.
    fn lookup_account_for_sid(&self, sid: &Sid) -> Result<LsaAccountInfo, CoreError>;
}

/// Stands in where there is no local security authority: every lookup fails.
pub struct NoLsaBackend;

/// The message where names cannot be looked up.
pub open spec fn no_lsa_message() -> Seq<char> {
    "Name-based identity input requires Windows LSA — not available on this platform"@
}

impl LsaBackend for NoLsaBackend {
    fn lookup_sid_for_name(&self, _name: &str) -> (r: Result<Sid, CoreError>)
        ensures
            r matches Err(CoreError::Validation(m)) && m@ == no_lsa_message(),
    {
        Err(
            CoreError::Validation(
                "Name-based identity input requires Windows LSA — not available on this platform".to_owned(),
            ),
        )
    }

    fn lookup_account_for_sid(&self, _sid: &Sid) -> (r: Result<LsaAccountInfo, CoreError>)
        ensures
            r matches Err(CoreError::Validation(m)) && m@
                == "LSA reverse lookup requires Windows — not available on this platform"@,
    {
        Err(
            CoreError::Validation(
                "LSA reverse lookup requires Windows — not available on this platform".to_owned(),
            ),
        )
    }
}

/// What is known of the flag of an identity that the directory returned.
pub fn disabled_from_ldap(identity: &Identity) -> (r: DisabledStatus)
    ensures
        r == DisabledStatus::Known(identity.disabled),
{
    DisabledStatus::Known(identity.disabled)
}

/// The markers for where a principal was found and whether it is disabled.
pub open spec fn status_markers(
    scope: ScopeView,
    disabled_status: DisabledStatus,
    identity_disabled: bool,
) -> Seq<PermissionDiagnostic> {
    (if scope is Outside {
        seq![PermissionDiagnostic::IdentityNotInConfiguredLdapBase]
    } else {
        Seq::empty()
    }) + (if disabled_status is Unknown {
        seq![PermissionDiagnostic::IdentityDisabledStatusUnknown]
    } else if identity_disabled {
        seq![PermissionDiagnostic::IdentityDisabled]
    } else {
        Seq::empty()
    })
}

/// Adds the markers for where a principal was found and whether it is disabled.
pub fn push_diagnostics(
    diagnostics: &mut Vec<PermissionDiagnostic>,
    scope: &IdentityScopeStatus,
    disabled_status: DisabledStatus,
    identity_disabled: bool,
)
    ensures
        final(diagnostics)@ == old(diagnostics)@ + status_markers(
            scope@,
            disabled_status,
            identity_disabled,
        ),
{
    if let IdentityScopeStatus::OutsideConfiguredLdapBase = scope {
        diagnostics.push(PermissionDiagnostic::IdentityNotInConfiguredLdapBase);
    }
    if let DisabledStatus::Unknown = disabled_status {
        diagnostics.push(PermissionDiagnostic::IdentityDisabledStatusUnknown);
    } else if identity_disabled {
        diagnostics.push(PermissionDiagnostic::IdentityDisabled);
    }
    assert(diagnostics@ =~= old(diagnostics)@ + status_markers(
        scope@,
        disabled_status,
        identity_disabled,
    ));
}

/// The markers for where a principal was found and whether it is disabled.
fn markers(scope: &IdentityScopeStatus, disabled_status: DisabledStatus, identity_disabled: bool) -> (r:
    Vec<PermissionDiagnostic>)
    ensures
        r@ == status_markers(scope@, disabled_status, identity_disabled),
{
    let mut d: Vec<PermissionDiagnostic> = Vec::new();
    push_diagnostics(&mut d, scope, disabled_status, identity_disabled);
    assert(Seq::<PermissionDiagnostic>::empty() + status_markers(
        scope@,
        disabled_status,
        identity_disabled,
    ) =~= status_markers(scope@, disabled_status, identity_disabled));
    d
}

/// The groups of a reply, and how they were resolved.
pub open spec fn groups_of(reply: Result<Vec<GroupMembership>, CoreError>) -> (
    Seq<membership::GroupMembershipView>,
    GroupsView,
) {
    match reply {
        Ok(m) => (membership::membership_views(m@), GroupsView::LdapRecursive),
        Err(e) => (Seq::empty(), GroupsView::Failed(e.text())),
    }
}

/// Takes the groups from a reply; an error leaves none, and says why.
pub fn groups_from_reply(reply: Result<Vec<GroupMembership>, CoreError>) -> (r: (
    Vec<GroupMembership>,
    GroupResolutionStatus,
))
    ensures
        (membership::membership_views(r.0@), r.1@) == groups_of(reply),
{
    match reply {
        Ok(m) => (m, GroupResolutionStatus::LdapRecursive),
        Err(e) => {
            let none: Vec<GroupMembership> = Vec::new();
            assert(membership::membership_views(none@) =~= Seq::empty());
            (none, GroupResolutionStatus::Failed { reason: e.message() })
        },
    }
}

/// The resolution of a principal that the directory knows.
pub open spec fn hit_view(
    sid: Seq<char>,
    identity: identity::IdentityView,
    groups: (Seq<membership::GroupMembershipView>, GroupsView),
    forest_wide: bool,
) -> ResolutionView {
    ResolutionView {
        sid,
        identity,
        memberships: groups.0,
        scope: ScopeView::Inside,
        groups: groups.1,
        disabled_status: DisabledStatus::Known(identity.disabled),
        diagnostics: status_markers(
            ScopeView::Inside,
            DisabledStatus::Known(identity.disabled),
            identity.disabled,
        ),
        via_fsp: false,
        via_global_catalog: forest_wide,
    }
}

/// Makes the resolution of a principal that the directory knows.
pub fn hit_resolution(
    sid: Sid,
    identity: Identity,
    groups: Result<Vec<GroupMembership>, CoreError>,
    forest_wide: bool,
) -> (r: PrincipalResolution)
    ensures
        r@ == hit_view(sid@, identity@, groups_of(groups), forest_wide),
{
    let (memberships, group_resolution_status) = groups_from_reply(groups);
    let disabled_status: DisabledStatus = disabled_from_ldap(&identity);
    let scope_status: IdentityScopeStatus = IdentityScopeStatus::InsideConfiguredLdapBase;
    let diagnostics: Vec<PermissionDiagnostic> = markers(
        &scope_status,
        disabled_status,
        identity.disabled,
    );
    PrincipalResolution {
        sid,
        identity,
        memberships,
        scope_status,
        group_resolution_status,
        disabled_status,
        diagnostics,
        resolved_via_fsp: false,
        resolved_via_global_catalog: forest_wide,
    }
}

/// A text, where it is not empty.
pub open spec fn unless_empty(s: Seq<char>, otherwise: Option<Seq<char>>) -> Option<Seq<char>> {
    if s.len() == 0 {
        otherwise
    } else {
        Some(s)
    }
}

/// A resolution without groups.
pub open spec fn groupless_view(
    identity: identity::IdentityView,
    scope: ScopeView,
    diagnostics: Seq<PermissionDiagnostic>,
) -> ResolutionView {
    ResolutionView {
        sid: identity.sid,
        identity,
        memberships: Seq::empty(),
        scope,
        groups: GroupsView::NotAttempted,
        disabled_status: DisabledStatus::Unknown,
        diagnostics,
        via_fsp: false,
        via_global_catalog: false,
    }
}

/// Makes a resolution without groups.
fn groupless(
    sid: Sid,
    identity: Identity,
    scope_status: IdentityScopeStatus,
    diagnostics: Vec<PermissionDiagnostic>,
) -> (r: PrincipalResolution)
    requires
        sid@ == identity@.sid,
    ensures
        r@ == groupless_view(identity@, scope_status@, diagnostics@),
{
    let r: PrincipalResolution = PrincipalResolution {
        sid,
        identity,
        memberships: Vec::new(),
        scope_status,
        group_resolution_status: GroupResolutionStatus::NotAttempted,
        disabled_status: DisabledStatus::Unknown,
        diagnostics,
        resolved_via_fsp: false,
        resolved_via_global_catalog: false,
    };
    assert(r@.memberships =~= Seq::empty());
    r
}

/// The identity that an account stands for, with what is known without it.
pub open spec fn account_identity(
    sid: Seq<char>,
    account: LsaAccountInfo,
    name: Option<Seq<char>>,
    domain: Option<Seq<char>>,
) -> identity::IdentityView {
    identity::IdentityView {
        name: unless_empty(account.name@, name),
        domain: unless_empty(account.domain@, domain),
        ..identity::bare_identity(sid, account.kind)
    }
}

/// Makes the identity that an account stands for.
fn identity_of_account(
    sid: &Sid,
    account: LsaAccountInfo,
    name: Option<String>,
    domain: Option<String>,
) -> (r: Identity)
    ensures
        r@ == account_identity(sid@, account, text::text_of(name), text::text_of(domain)),
{
    let mut identity: Identity = bare(sid, account.kind);
    identity.name = if account.name.as_str().is_empty() {
        name
    } else {
        Some(account.name)
    };
    identity.domain = if account.domain.as_str().is_empty() {
        domain
    } else {
        Some(account.domain)
    };
    identity
}

/// The resolution of a SID that the directory does not know: outside the base
/// where the local authority knows it, an orphan otherwise.
pub open spec fn miss_view(
    sid: Seq<char>,
    account: Option<Result<LsaAccountInfo, CoreError>>,
) -> ResolutionView {
    match account {
        Some(Ok(a)) => groupless_view(
            account_identity(sid, a, None, None),
            ScopeView::Outside,
            status_markers(ScopeView::Outside, DisabledStatus::Unknown, false),
        ),
        _ => groupless_view(
            identity::bare_identity(sid, IdentityKind::Orphaned),
            ScopeView::Orphaned,
            Seq::empty(),
        ),
    }
}

/// Makes the resolution of a SID that the directory does not know. `account` is
/// what the local authority said, where there is one.
pub fn miss_resolution(sid: Sid, account: Option<Result<LsaAccountInfo, CoreError>>) -> (r:
    PrincipalResolution)
    ensures
        r@ == miss_view(sid@, account),
{
    match account {
        Some(Ok(a)) => {
            let identity: Identity = identity_of_account(&sid, a, None, None);
            let scope: IdentityScopeStatus = IdentityScopeStatus::OutsideConfiguredLdapBase;
            let d: Vec<PermissionDiagnostic> = markers(&scope, DisabledStatus::Unknown, false);
            groupless(sid, identity, scope, d)
        },
        _ => orphaned_resolution(sid),
    }
}

/// Makes the resolution of a SID that nobody knows.
pub fn orphaned_resolution(sid: Sid) -> (r: PrincipalResolution)
    ensures
        r@ == miss_view(sid@, None),
{
    let identity: Identity = bare(&sid, IdentityKind::Orphaned);
    groupless(sid, identity, IdentityScopeStatus::OrphanedSid, Vec::new())
}

/// The resolution of a SID where the directory could not be asked.
pub open spec fn failed_view(sid: Seq<char>, reason: Seq<char>) -> ResolutionView {
    groupless_view(
        identity::bare_identity(sid, IdentityKind::Unknown),
        ScopeView::Failed(reason),
        Seq::empty(),
    )
}

/// Makes the resolution of a SID where the directory could not be asked.
pub fn failed_lookup_resolution(sid: Sid, reason: String) -> (r: PrincipalResolution)
    ensures
        r@ == failed_view(sid@, reason@),
{
    let identity: Identity = bare(&sid, IdentityKind::Unknown);
    groupless(sid, identity, IdentityScopeStatus::LookupFailed { reason }, Vec::new())
}

/// The resolution of a principal found as a Foreign Security Principal. Its
/// name, domain and kind come from the local authority where it knows them;
/// whether it is disabled is known to its own forest only.
pub open spec fn fsp_view(
    sid: Seq<char>,
    fsp: identity::IdentityView,
    account: Option<Result<LsaAccountInfo, CoreError>>,
    groups: (Seq<membership::GroupMembershipView>, GroupsView),
    forest_wide: bool,
) -> ResolutionView {
    ResolutionView {
        sid,
        identity: match account {
            Some(Ok(a)) => account_identity(sid, a, fsp.name, fsp.domain),
            _ => fsp,
        },
        memberships: groups.0,
        scope: ScopeView::Inside,
        groups: groups.1,
        disabled_status: DisabledStatus::Unknown,
        diagnostics: seq![
            PermissionDiagnostic::IdentityDisabledStatusUnknown,
            PermissionDiagnostic::IdentityResolvedViaForeignSecurityPrincipal,
        ],
        via_fsp: true,
        via_global_catalog: forest_wide,
    }
}

/// Makes the resolution of a principal found as a Foreign Security Principal.
pub fn fsp_resolution(
    sid: Sid,
    fsp: Identity,
    account: Option<Result<LsaAccountInfo, CoreError>>,
    groups: Result<Vec<GroupMembership>, CoreError>,
    forest_wide: bool,
) -> (r: PrincipalResolution)
    ensures
        r@ == fsp_view(sid@, fsp@, account, groups_of(groups), forest_wide),
{
    let (memberships, group_resolution_status) = groups_from_reply(groups);
    let identity: Identity = match account {
        Some(Ok(a)) => identity_of_account(
            &sid,
            a,
            clone_text(&fsp.name),
            clone_text(&fsp.domain),
        ),
        _ => fsp,
    };
    let disabled_status: DisabledStatus = DisabledStatus::Unknown;
    let scope_status: IdentityScopeStatus = IdentityScopeStatus::InsideConfiguredLdapBase;
    let mut diagnostics: Vec<PermissionDiagnostic> = markers(&scope_status, disabled_status, false);
    diagnostics.push(PermissionDiagnostic::IdentityResolvedViaForeignSecurityPrincipal);
    let r: PrincipalResolution = PrincipalResolution {
        sid,
        identity,
        memberships,
        scope_status,
        group_resolution_status,
        disabled_status,
        diagnostics,
        resolved_via_fsp: true,
        resolved_via_global_catalog: forest_wide,
    };
    assert(r@.diagnostics =~= fsp_view(
        sid@,
        fsp@,
        account,
        groups_of(groups),
        forest_wide,
    ).diagnostics);
    r
}

/// The message for a user principal name that was not found.
pub open spec fn upn_miss_message(upn: Seq<char>, forest_wide: bool) -> Seq<char> {
    if forest_wide {
        "UPN '"@ + upn
            + "' not found in the Global Catalog — the search was forest-wide. Check the spelling or use DOMAIN\\user / direct SID."@
    } else {
        "UPN '"@ + upn
            + "' not found under the configured LDAP base. For forest-wide UPN resolution bind against a Global Catalog (--global-catalog, port 3269/3268) or use DOMAIN\\user / direct SID."@
    }
}

/// The error for a user principal name that was not found.
pub fn upn_miss(upn: &str, forest_wide: bool) -> (r: CoreError)
    ensures
        r matches CoreError::Validation(m) && m@ == upn_miss_message(upn@, forest_wide),
{
    let subject: String = "UPN '".to_owned().concat(upn);
    CoreError::Validation(
        if forest_wide {
            subject.concat(
                "' not found in the Global Catalog — the search was forest-wide. Check the spelling or use DOMAIN\\user / direct SID.",
            )
        } else {
            subject.concat(
                "' not found under the configured LDAP base. For forest-wide UPN resolution bind against a Global Catalog (--global-catalog, port 3269/3268) or use DOMAIN\\user / direct SID.",
            )
        },
    )
}

/// The one identity with an account name: an error where there is none, or
/// more than one.
pub open spec fn sam_error(sam: Seq<char>, hits: nat) -> Option<Seq<char>> {
    if hits > 1 {
        Some(
            "Ambiguous sAMAccountName '"@ + sam + "' — "@ + text::decimal(hits)
                + " matches found. Use 'DOMAIN\\user' or 'user@domain.tld' to disambiguate."@,
        )
    } else if hits == 0 {
        Some("sAMAccountName '"@ + sam + "' not found under the configured LDAP base."@)
    } else {
        None
    }
}

/// Picks the one identity with an account name.
pub fn single_match(sam: &str, hits: Vec<(Sid, Identity)>) -> (r: Result<
    (Sid, Identity),
    CoreError,
>)
    ensures
        (match sam_error(sam@, hits@.len()) {
            Some(m) => r matches Err(CoreError::Validation(x)) && x@ == m,
            None => r == Ok::<(Sid, Identity), CoreError>(hits@[0]),
        }),
{
    let mut hits: Vec<(Sid, Identity)> = hits;
    if hits.len() > 1 {
        let mut m: String = "Ambiguous sAMAccountName '".to_owned().concat(sam).concat("' — ");
        text::push_decimal(&mut m, hits.len() as u64);
        m.append(" matches found. Use 'DOMAIN\\user' or 'user@domain.tld' to disambiguate.");
        return Err(CoreError::Validation(m));
    }
    match hits.pop() {
        Some(hit) => Ok(hit),
        None => Err(
            CoreError::Validation(
                "sAMAccountName '".to_owned().concat(sam).concat(
                    "' not found under the configured LDAP base.",
                ),
            ),
        ),
    }
}

/// Resolves principals with a directory and, where there is one, a local
/// security authority.
pub struct PrincipalResolver<B: IdentityBackend, L: LsaBackend> {
    pub identity_backend: B,
    pub lsa_backend: Option<L>,
}

impl<B: IdentityBackend, L: LsaBackend> PrincipalResolver<B, L> {
    /// A resolver over these backends.
    pub fn new(identity_backend: B, lsa_backend: Option<L>) -> (r: Self)
        ensures
            r.identity_backend == identity_backend,
            r.lsa_backend == lsa_backend,
    {
        PrincipalResolver { identity_backend, lsa_backend }
    }

    /// Whether `groups` may be what the directory says about the groups of `sid`.
    pub open spec fn may_group(self, sid: Sid, groups: Result<Vec<GroupMembership>, CoreError>) -> bool {
        call_ensures(B::resolve_memberships, (&self.identity_backend, &sid), groups)
    }

    /// Whether `forest_wide` may be what the directory says of its reach.
    pub open spec fn may_reach(self, forest_wide: bool) -> bool {
        call_ensures(B::is_forest_wide, (&self.identity_backend,), forest_wide)
    }

    /// Whether `account` may be what the local authority says about `sid`.
    pub open spec fn may_account(
        self,
        sid: Sid,
        account: Option<Result<LsaAccountInfo, CoreError>>,
    ) -> bool {
        match self.lsa_backend {
            Some(lsa) => account matches Some(a) && call_ensures(
                L::lookup_account_for_sid,
                (&lsa, &sid),
                a,
            ),
            None => account is None,
        }
    }

    /// Whether `r` follows from a hit of the directory.
    pub open spec fn follows_from_hit(
        self,
        sid: Sid,
        identity: Identity,
        r: Result<PrincipalResolution, CoreError>,
    ) -> bool {
        exists|groups: Result<Vec<GroupMembership>, CoreError>, forest_wide: bool|
            #![trigger self.may_group(sid, groups), self.may_reach(forest_wide)]
            self.may_group(sid, groups) && self.may_reach(forest_wide) && (r matches Ok(p) && p@
                == hit_view(sid@, identity@, groups_of(groups), forest_wide))
    }

    /// Whether `r` follows from asking for a SID: a plain hit gives the identity
    /// with its groups, a hit on a Foreign Security Principal is enriched by the
    /// local authority, a miss is cross-checked with it, and an error is kept
    /// as such.
    pub open spec fn follows_from_sid(
        self,
        sid: Sid,
        reply: Result<Option<Identity>, CoreError>,
        r: Result<PrincipalResolution, CoreError>,
    ) -> bool {
        match reply {
            Ok(Some(identity)) => if identity.kind == IdentityKind::ForeignSecurityPrincipal {
                exists|
                    account: Option<Result<LsaAccountInfo, CoreError>>,
                    groups: Result<Vec<GroupMembership>, CoreError>,
                    forest_wide: bool,
                |
                    #![trigger self.may_account(sid, account), self.may_group(sid, groups), self.may_reach(forest_wide)]
                    self.may_account(sid, account) && self.may_group(sid, groups)
                        && self.may_reach(forest_wide) && (r matches Ok(p) && p@ == fsp_view(
                        sid@,
                        identity@,
                        account,
                        groups_of(groups),
                        forest_wide,
                    ))
            } else {
                self.follows_from_hit(sid, identity, r)
            },
            Ok(None) => exists|account: Option<Result<LsaAccountInfo, CoreError>>|
                #[trigger] self.may_account(sid, account) && (r matches Ok(p) && p@ == miss_view(
                    sid@,
                    account,
                )),
            Err(e) => r matches Ok(p) && p@ == failed_view(sid@, e.text()),
        }
    }

    /// Whether `r` is a resolution of `sid`.
    pub open spec fn resolves_sid(self, sid: Sid, r: Result<PrincipalResolution, CoreError>) -> bool {
        exists|reply: Result<Option<Identity>, CoreError>|
            #[trigger] call_ensures(
                B::lookup_identity_by_sid,
                (&self.identity_backend, &sid),
                reply,
            ) && self.follows_from_sid(sid, reply, r)
    }

    /// What the local authority says about a SID, where there is one.
    fn ask_account(&self, sid: &Sid) -> (r: Option<Result<LsaAccountInfo, CoreError>>)
        ensures
            self.may_account(*sid, r),
    {
        match &self.lsa_backend {
            Some(lsa) => Some(lsa.lookup_account_for_sid(sid)),
            None => None,
        }
    }

    /// Resolves a SID.
    pub fn resolve_by_sid(&self, sid: Sid) -> (r: Result<PrincipalResolution, CoreError>)
        ensures
            r is Ok,
            self.resolves_sid(sid, r),
    {
        let reply: Result<Option<Identity>, CoreError> =
            self.identity_backend.lookup_identity_by_sid(&sid);
        let ghost said = reply;
        match reply {
            Ok(Some(identity)) => {
                let groups: Result<Vec<GroupMembership>, CoreError> =
                    self.identity_backend.resolve_memberships(&sid);
                let forest_wide: bool = self.identity_backend.is_forest_wide();
                assert(self.may_group(sid, groups));
                assert(self.may_reach(forest_wide));
                if identity.kind == IdentityKind::ForeignSecurityPrincipal {
                    let account: Option<Result<LsaAccountInfo, CoreError>> = self.ask_account(&sid);
                    let p: PrincipalResolution = fsp_resolution(
                        sid,
                        identity,
                        account,
                        groups,
                        forest_wide,
                    );
                    let r: Result<PrincipalResolution, CoreError> = Ok(p);
                    assert(self.follows_from_sid(sid, said, r));
                    return r;
                }
                let p: PrincipalResolution = hit_resolution(sid, identity, groups, forest_wide);
                let r: Result<PrincipalResolution, CoreError> = Ok(p);
                assert(self.follows_from_sid(sid, said, r));
                r
            },
            Ok(None) => {
                let account: Option<Result<LsaAccountInfo, CoreError>> = self.ask_account(&sid);
                let p: PrincipalResolution = miss_resolution(sid, account);
                let r: Result<PrincipalResolution, CoreError> = Ok(p);
                assert(self.follows_from_sid(sid, said, r));
                r
            },
            Err(e) => {
                let r: Result<PrincipalResolution, CoreError> = Ok(
                    failed_lookup_resolution(sid, e.message()),
                );
                assert(self.follows_from_sid(sid, said, r));
                r
            },
        }
    }

    /// Whether `r` follows from looking a name up: without a local authority
    /// that is an error; otherwise the SID of the name is resolved like any other.
    pub open spec fn resolves_name(
        self,
        name: Seq<char>,
        r: Result<PrincipalResolution, CoreError>,
    ) -> bool {
        match self.lsa_backend {
            None => r matches Err(CoreError::Validation(m)) && m@ == no_lsa_message(),
            Some(lsa) => exists|asked: &str, reply: Result<Sid, CoreError>| #[trigger]
                call_ensures(L::lookup_sid_for_name, (&lsa, asked), reply) && asked@ == name && (
                match reply {
                    Ok(sid) => self.resolves_sid(sid, r),
                    Err(e) => r == Err::<PrincipalResolution, CoreError>(e),
                }),
        }
    }

    /// Resolves a name that the local authority knows.
    pub fn resolve_by_lsa_name(&self, name: &str) -> (r: Result<PrincipalResolution, CoreError>)
        ensures
            self.resolves_name(name@, r),
    {
        match &self.lsa_backend {
            None => Err(
                CoreError::Validation(
                    "Name-based identity input requires Windows LSA — not available on this platform".to_owned(),
                ),
            ),
            Some(lsa) => {
                let reply: Result<Sid, CoreError> = lsa.lookup_sid_for_name(name);
                let ghost said = reply;
                assert(call_ensures(L::lookup_sid_for_name, (lsa, name), said));
                match reply {
                    Ok(sid) => self.resolve_by_sid(sid),
                    Err(e) => Err(e),
                }
            },
        }
    }

    /// Whether `r` follows from looking a user principal name up: a hit gives
    /// the identity with its groups, a miss is an error that names the reach of
    /// the search.
    pub open spec fn resolves_upn(
        self,
        upn: Seq<char>,
        r: Result<PrincipalResolution, CoreError>,
    ) -> bool {
        exists|asked: &str, reply: Result<Option<(Sid, Identity)>, CoreError>| #[trigger]
            call_ensures(
                B::lookup_identity_by_upn,
                (&self.identity_backend, asked),
                reply,
            ) && asked@ == upn && (match reply {
                Ok(Some((sid, identity))) => self.follows_from_hit(sid, identity, r),
                Ok(None) => exists|forest_wide: bool| #[trigger]
                    self.may_reach(forest_wide) && (r matches Err(CoreError::Validation(m)) && m@
                        == upn_miss_message(upn, forest_wide)),
                Err(e) => r == Err::<PrincipalResolution, CoreError>(e),
            })
    }

    /// Resolves a user principal name.
    pub fn resolve_by_upn(&self, upn: &str) -> (r: Result<PrincipalResolution, CoreError>)
        ensures
            self.resolves_upn(upn@, r),
    {
        let reply: Result<Option<(Sid, Identity)>, CoreError> =
            self.identity_backend.lookup_identity_by_upn(upn);
        let ghost said = reply;
        assert(call_ensures(B::lookup_identity_by_upn, (&self.identity_backend, upn), said));
        match reply {
            Ok(Some((sid, identity))) => {
                let groups: Result<Vec<GroupMembership>, CoreError> =
                    self.identity_backend.resolve_memberships(&sid);
                let forest_wide: bool = self.identity_backend.is_forest_wide();
                assert(self.may_group(sid, groups));
                assert(self.may_reach(forest_wide));
                Ok(hit_resolution(sid, identity, groups, forest_wide))
            },
            Ok(None) => {
                let forest_wide: bool = self.identity_backend.is_forest_wide();
                assert(self.may_reach(forest_wide));
                Err(upn_miss(upn, forest_wide))
            },
            Err(e) => Err(e),
        }
    }

    /// Whether `r` follows from looking an account name up: exactly one hit
    /// gives the identity with its groups.
    pub open spec fn resolves_sam(
        self,
        sam: Seq<char>,
        r: Result<PrincipalResolution, CoreError>,
    ) -> bool {
        exists|asked: &str, reply: Result<Vec<(Sid, Identity)>, CoreError>| #[trigger]
            call_ensures(
                B::lookup_identities_by_sam,
                (&self.identity_backend, asked),
                reply,
            ) && asked@ == sam && (match reply {
                Ok(hits) => match sam_error(sam, hits@.len()) {
                    Some(m) => r matches Err(CoreError::Validation(x)) && x@ == m,
                    None => self.follows_from_hit(hits@[0].0, hits@[0].1, r),
                },
                Err(e) => r == Err::<PrincipalResolution, CoreError>(e),
            })
    }

    /// Resolves an account name.
    pub fn resolve_by_sam(&self, sam: &str) -> (r: Result<PrincipalResolution, CoreError>)
        ensures
            self.resolves_sam(sam@, r),
    {
        let reply: Result<Vec<(Sid, Identity)>, CoreError> =
            self.identity_backend.lookup_identities_by_sam(sam);
        let ghost said = reply;
        assert(call_ensures(B::lookup_identities_by_sam, (&self.identity_backend, sam), said));
        match reply {
            Ok(hits) => match single_match(sam, hits) {
                Ok((sid, identity)) => {
                    let groups: Result<Vec<GroupMembership>, CoreError> =
                        self.identity_backend.resolve_memberships(&sid);
                    let forest_wide: bool = self.identity_backend.is_forest_wide();
                    assert(self.may_group(sid, groups));
                    assert(self.may_reach(forest_wide));
                    Ok(hit_resolution(sid, identity, groups, forest_wide))
                },
                Err(e) => Err(e),
            },
            Err(e) => Err(e),
        }
    }

    /// Resolves a principal, whatever the form of the input.
    pub fn resolve(&self, input: PrincipalInput) -> (r: Result<PrincipalResolution, CoreError>)
        ensures
            is_blank(input@) ==> (r matches Err(CoreError::Validation(m)) && m@
                == blank_message()),
            !is_blank(input@) ==> (match form_of(input@) {
                InputView::Auto(_) => false,
                InputView::DomainQualified(name) => self.resolves_name(name, r),
                InputView::DisplayName(name) => self.resolves_name(name, r),
                InputView::Upn(upn) => self.resolves_upn(upn, r),
                InputView::SamAccount(sam) => self.resolves_sam(sam, r),
                InputView::Sid(s) => exists|sid: Sid| sid@ == s && #[trigger] self.resolves_sid(
                    sid,
                    r,
                ),
            }),
    {
        match input.classify() {
            Err(e) => Err(e),
            Ok(PrincipalInput::Auto(raw)) => self.resolve_by_sam(raw.as_str()),
            Ok(PrincipalInput::DomainQualified(name)) => self.resolve_by_lsa_name(name.as_str()),
            Ok(PrincipalInput::DisplayName(name)) => self.resolve_by_lsa_name(name.as_str()),
            Ok(PrincipalInput::Upn(upn)) => self.resolve_by_upn(upn.as_str()),
            Ok(PrincipalInput::SamAccount(sam)) => self.resolve_by_sam(sam.as_str()),
            Ok(PrincipalInput::Sid(sid)) => self.resolve_by_sid(sid),
        }
    }
}

/// A real principal from beyond the base is never taken for an orphan: where
/// the local authority knows the SID, a miss of the directory gives a
/// resolution outside the base that is marked as such, with a reason for the
/// missing groups.
pub proof fn law_known_account_is_no_orphan(sid: Seq<char>, account: LsaAccountInfo)
    ensures
        ({
            let v = miss_view(sid, Some(Ok(account)));
            &&& v.scope is Outside
            &&& v.identity.kind == account.kind
            &&& v.diagnostics.contains(PermissionDiagnostic::IdentityNotInConfiguredLdapBase)
            &&& v.disabled_status is Unknown
            &&& group_failure(v.scope, v.groups) is Some
        }),
{
    let v = miss_view(sid, Some(Ok(account)));
    assert(v.diagnostics[0] == PermissionDiagnostic::IdentityNotInConfiguredLdapBase);
}

/// An error of the directory is never taken for an orphan: the resolution
/// carries the reason.
pub proof fn law_lookup_error_is_kept(sid: Seq<char>, reason: Seq<char>)
    ensures
        failed_view(sid, reason).scope == ScopeView::Failed(reason),
        failed_view(sid, reason).identity.kind != IdentityKind::Orphaned,
{
}

/// A resolution with a marker that the account is disabled knows so.
pub proof fn law_disabled_marker_is_known(scope: ScopeView, status: DisabledStatus, disabled: bool)
    requires
        status == DisabledStatus::Known(disabled) || status is Unknown,
    ensures
        status_markers(scope, status, disabled).contains(PermissionDiagnostic::IdentityDisabled)
            == (status == DisabledStatus::Known(true)),
        status_markers(scope, status, disabled).contains(
            PermissionDiagnostic::IdentityDisabledStatusUnknown,
        ) == (status is Unknown),
        status_markers(scope, status, disabled).contains(
            PermissionDiagnostic::IdentityNotInConfiguredLdapBase,
        ) == (scope is Outside),
{
    let m = status_markers(scope, status, disabled);
    if status == DisabledStatus::Known(true) {
        assert(m.last() == PermissionDiagnostic::IdentityDisabled);
    }
    if status is Unknown {
        assert(m.last() == PermissionDiagnostic::IdentityDisabledStatusUnknown);
    }
    if scope is Outside {
        assert(m[0] == PermissionDiagnostic::IdentityNotInConfiguredLdapBase);
    }
}

/// Whether an evaluation learns that the groups of a resolution may be missing.
pub open spec fn admits_missing_groups(v: ResolutionView) -> bool {
    v.scope is Failed || group_failure(v.scope, v.groups) is Some
}

/// Groups never go missing unnoticed. Whether the directory knows a principal, only the
/// local authority does, it is foreign, or the lookup fails: where its groups were not
/// resolved, an evaluation learns of it. A SID that nobody knows is an orphan, which says
/// so itself.
pub proof fn law_missing_groups_are_admitted(
    sid: Seq<char>,
    identity: identity::IdentityView,
    account: Option<Result<LsaAccountInfo, CoreError>>,
    groups: Result<Vec<GroupMembership>, CoreError>,
    forest_wide: bool,
    reason: Seq<char>,
)
    ensures
        admits_missing_groups(hit_view(sid, identity, groups_of(groups), forest_wide))
            == (groups is Err),
        admits_missing_groups(fsp_view(sid, identity, account, groups_of(groups), forest_wide))
            == (groups is Err),
        admits_missing_groups(miss_view(sid, account)) || miss_view(sid, account).scope is Orphaned,
        admits_missing_groups(failed_view(sid, reason)),
{
}

/// Raw input is told apart by its syntax, without the white space around it and otherwise
/// unchanged: a SID starts with `S-1-`; else a backslash means a domain and a name, else an
/// at sign means a user principal name, and what is left is an account name. Input of a
/// known form keeps it.
pub proof fn law_syntax_decides_the_form(s: Seq<char>, input: InputView)
    ensures
        ({
            let t = text::trimmed(s);
            let is_sid = t.len() >= 4 && t[0] == 'S' && t[1] == '-' && t[2] == '1' && t[3] == '-';
            let form = form_of(InputView::Auto(s));
            &&& (form == InputView::Sid(t)) == is_sid
            &&& (form == InputView::DomainQualified(t)) == (!is_sid && t.contains('\\'))
            &&& (form == InputView::Upn(t)) == (!is_sid && !t.contains('\\') && t.contains('@'))
            &&& (form == InputView::SamAccount(t)) == (!is_sid && !t.contains('\\')
                && !t.contains('@'))
            &&& is_blank(InputView::Auto(s)) == (t.len() == 0)
        }),
        !(input is Auto) ==> form_of(input) == input && !is_blank(input),
{
    reveal_strlit("S-1-");
    let t = text::trimmed(s);
    if t.len() >= 4 {
        let four = t.subrange(0, 4);
        assert(four[0] == t[0] && four[1] == t[1] && four[2] == t[2] && four[3] == t[3]);
        if t[0] == 'S' && t[1] == '-' && t[2] == '1' && t[3] == '-' {
            assert(four =~= "S-1-"@);
        }
    }
}

/// A principal that the directory knows is stated as the directory has it: its identity and
/// its groups, inside the base, with what is known of the `disabled` flag. It is no Foreign
/// Security Principal, and the reach of the search is told.
pub proof fn law_hit_states_what_the_directory_said(
    sid: Seq<char>,
    identity: identity::IdentityView,
    groups: Result<Vec<GroupMembership>, CoreError>,
    forest_wide: bool,
)
    ensures
        ({
            let v = hit_view(sid, identity, groups_of(groups), forest_wide);
            &&& v.sid == sid
            &&& v.identity == identity
            &&& v.scope is Inside
            &&& groups matches Ok(m) ==> v.memberships.len() == m@.len() && v.groups
                is LdapRecursive
            &&& groups matches Ok(m) ==> forall|i: int|
                0 <= i < m@.len() ==> #[trigger] v.memberships[i] == m@[i]@
            &&& groups matches Err(e) ==> v.memberships.len() == 0 && v.groups == GroupsView::Failed(
                e.text(),
            )
            &&& v.disabled_status == DisabledStatus::Known(identity.disabled)
            &&& v.diagnostics.contains(PermissionDiagnostic::IdentityDisabled) == identity.disabled
            &&& !v.diagnostics.contains(PermissionDiagnostic::IdentityNotInConfiguredLdapBase)
            &&& v.diagnostics.len() <= 1
            &&& !v.via_fsp
            &&& v.via_global_catalog == forest_wide
        }),
{
    law_disabled_marker_is_known(
        ScopeView::Inside,
        DisabledStatus::Known(identity.disabled),
        identity.disabled,
    );
}

/// A Foreign Security Principal keeps its SID and its groups. Its name, domain and kind are
/// those of the local authority where that knows the SID and has them, else those of the
/// object. Whether it is disabled stays unknown, and the markers tell so, and how it was
/// found.
pub proof fn law_foreign_principal_is_enriched(
    sid: Seq<char>,
    fsp: identity::IdentityView,
    account: Option<Result<LsaAccountInfo, CoreError>>,
    groups: Result<Vec<GroupMembership>, CoreError>,
    forest_wide: bool,
)
    ensures
        ({
            let v = fsp_view(sid, fsp, account, groups_of(groups), forest_wide);
            &&& v.sid == sid
            &&& v.scope is Inside
            &&& v.via_fsp
            &&& v.via_global_catalog == forest_wide
            &&& v.disabled_status is Unknown
            &&& v.diagnostics.contains(
                PermissionDiagnostic::IdentityResolvedViaForeignSecurityPrincipal,
            )
            &&& v.diagnostics.contains(PermissionDiagnostic::IdentityDisabledStatusUnknown)
            &&& groups matches Ok(m) ==> v.memberships.len() == m@.len() && v.groups
                is LdapRecursive
            &&& groups matches Ok(m) ==> forall|i: int|
                0 <= i < m@.len() ==> #[trigger] v.memberships[i] == m@[i]@
            &&& groups matches Err(e) ==> v.memberships.len() == 0 && v.groups == GroupsView::Failed(
                e.text(),
            )
            &&& match account {
                Some(Ok(a)) => {
                    &&& v.identity.sid == sid
                    &&& v.identity.kind == a.kind
                    &&& a.name@.len() > 0 ==> v.identity.name == Some(a.name@)
                    &&& a.name@.len() == 0 ==> v.identity.name == fsp.name
                    &&& a.domain@.len() > 0 ==> v.identity.domain == Some(a.domain@)
                    &&& a.domain@.len() == 0 ==> v.identity.domain == fsp.domain
                },
                _ => v.identity == fsp,
            }
        }),
{
    let v = fsp_view(sid, fsp, account, groups_of(groups), forest_wide);
    assert(v.diagnostics[0] == PermissionDiagnostic::IdentityDisabledStatusUnknown);
    assert(v.diagnostics[1] == PermissionDiagnostic::IdentityResolvedViaForeignSecurityPrincipal);
}

/// A SID that the directory does not know is stated with what the local authority knows of
/// it, outside the base; where that does not know it either, it is an orphan. No groups are
/// claimed, and nothing of the `disabled` flag.
pub proof fn law_miss_states_what_the_authority_said(
    sid: Seq<char>,
    account: Option<Result<LsaAccountInfo, CoreError>>,
)
    ensures
        ({
            let v = miss_view(sid, account);
            &&& v.sid == sid && v.identity.sid == sid
            &&& v.memberships.len() == 0 && v.groups is NotAttempted
            &&& v.disabled_status is Unknown
            &&& !v.identity.disabled
            &&& !v.via_fsp && !v.via_global_catalog
            &&& match account {
                Some(Ok(a)) => {
                    &&& v.scope is Outside
                    &&& v.identity.kind == a.kind
                    &&& a.name@.len() > 0 ==> v.identity.name == Some(a.name@)
                    &&& a.name@.len() == 0 ==> v.identity.name is None
                    &&& a.domain@.len() > 0 ==> v.identity.domain == Some(a.domain@)
                    &&& a.domain@.len() == 0 ==> v.identity.domain is None
                },
                _ => {
                    &&& v.scope is Orphaned
                    &&& v.identity.kind == IdentityKind::Orphaned
                    &&& v.identity.name is None && v.identity.domain is None
                    &&& v.diagnostics.len() == 0
                },
            }
        }),
{
}

/// A failed lookup claims nothing but the SID and the reason.
pub proof fn law_failed_lookup_claims_nothing(sid: Seq<char>, reason: Seq<char>)
    ensures
        ({
            let v = failed_view(sid, reason);
            &&& v.sid == sid && v.identity.sid == sid
            &&& v.identity.kind == IdentityKind::Unknown
            &&& v.identity.name is None && v.identity.domain is None && !v.identity.disabled
            &&& v.memberships.len() == 0 && v.groups is NotAttempted
            &&& v.disabled_status is Unknown
            &&& v.diagnostics.len() == 0
            &&& !v.via_fsp && !v.via_global_catalog
        }),
{
}

/// Missing groups are explained where they failed, with the reason, and where a real
/// principal outside the base was not asked for. Nothing is explained where groups were
/// resolved.
pub proof fn law_missing_groups_are_explained(scope: ScopeView, groups: GroupsView)
    ensures
        groups matches GroupsView::Failed(reason) ==> group_failure(scope, groups) == Some(reason),
        groups is LdapRecursive || groups is SamFlat ==> group_failure(scope, groups) is None,
        groups is NotAttempted ==> (group_failure(scope, groups) is Some) == (scope is Outside),
{
}

/// An account name is taken where exactly one account has it. Where several have it, or
/// none, the message names it, and with several their number.
pub proof fn law_account_name_has_to_be_unique(sam: Seq<char>, hits: nat)
    ensures
        (sam_error(sam, hits) is None) == (hits == 1),
        hits != 1 ==> text::occurs_in(sam, sam_error(sam, hits)->0),
        hits > 1 ==> text::occurs_in(text::decimal(hits), sam_error(sam, hits)->0),
{
    let a = "Ambiguous sAMAccountName '"@;
    let b = "' — "@;
    let n = text::decimal(hits);
    let c = " matches found. Use 'DOMAIN\\user' or 'user@domain.tld' to disambiguate."@;
    text::lemma_part_occurs(a + sam + b, n, c);
    text::lemma_part_occurs(a, sam, b + n + c);
    text::lemma_assoc(a + sam, b, n);
    text::lemma_assoc(a + sam, b + n, c);
    text::lemma_part_occurs(
        "sAMAccountName '"@,
        sam,
        "' not found under the configured LDAP base."@,
    );
}

/// The message for a user principal name that was not found holds the name.
pub proof fn law_miss_names_the_upn(upn: Seq<char>, forest_wide: bool)
    ensures
        text::occurs_in(upn, upn_miss_message(upn, forest_wide)),
{
    text::lemma_part_occurs(
        "UPN '"@,
        upn,
        "' not found in the Global Catalog — the search was forest-wide. Check the spelling or use DOMAIN\\user / direct SID."@,
    );
    text::lemma_part_occurs(
        "UPN '"@,
        upn,
        "' not found under the configured LDAP base. For forest-wide UPN resolution bind against a Global Catalog (--global-catalog, port 3269/3268) or use DOMAIN\\user / direct SID."@,
    );
}

/// Whether a resolution fits what the directory replied: an identity is inside the base, and
/// stated as such unless it stands for a foreign principal; where there is none it is outside
/// or an orphan; and a failed lookup is told with its reason.
pub open spec fn fits_reply(v: ResolutionView, reply: Result<Option<Identity>, CoreError>) -> bool {
    match reply {
        Ok(Some(i)) => {
            &&& v.scope is Inside
            &&& v.via_fsp == (i.kind == IdentityKind::ForeignSecurityPrincipal)
            &&& !v.via_fsp ==> v.identity == i@
        },
        Ok(None) => v.scope is Outside || v.scope is Orphaned,
        Err(e) => v.scope == ScopeView::Failed(e.text()),
    }
}

/// Whether a resolution holds the groups that the directory replied, or the reason why there
/// are none.
pub open spec fn holds_groups(
    v: ResolutionView,
    groups: Result<Vec<GroupMembership>, CoreError>,
) -> bool {
    match groups {
        Ok(m) => {
            &&& v.groups is LdapRecursive
            &&& v.memberships.len() == m@.len()
            &&& forall|i: int| 0 <= i < m@.len() ==> #[trigger] v.memberships[i] == m@[i]@
        },
        Err(e) => v.groups == GroupsView::Failed(e.text()) && v.memberships.len() == 0,
    }
}

/// Resolving a SID always gives a resolution of that SID, and it fits what the directory
/// replied for it. Without a local authority no principal is said to be outside the base.
pub proof fn law_sid_is_resolved_as_the_directory_says<B: IdentityBackend, L: LsaBackend>(
    x: PrincipalResolver<B, L>,
    sid: Sid,
    r: Result<PrincipalResolution, CoreError>,
)
    requires
        x.resolves_sid(sid, r),
    ensures
        r matches Ok(p) && p@.sid == sid@ && (x.lsa_backend is None ==> !(p@.scope is Outside))
            && exists|reply: Result<Option<Identity>, CoreError>| #[trigger]
            call_ensures(B::lookup_identity_by_sid, (&x.identity_backend, &sid), reply)
                && fits_reply(p@, reply),
{
    let reply = choose|reply: Result<Option<Identity>, CoreError>|
        #[trigger] call_ensures(
            B::lookup_identity_by_sid,
            (&x.identity_backend, &sid),
            reply,
        ) && x.follows_from_sid(sid, reply, r);
    assert(fits_reply(r->Ok_0@, reply));
}

/// An identity that the directory has is resolved to itself, with the groups that the
/// directory has for its SID, and with the reach of the search.
pub proof fn law_hit_is_resolved_with_its_groups<B: IdentityBackend, L: LsaBackend>(
    x: PrincipalResolver<B, L>,
    sid: Sid,
    identity: Identity,
    r: Result<PrincipalResolution, CoreError>,
)
    requires
        x.follows_from_hit(sid, identity, r),
    ensures
        r matches Ok(p) && p@.sid == sid@ && p@.identity == identity@ && exists|
            groups: Result<Vec<GroupMembership>, CoreError>,
        | #[trigger]
            call_ensures(B::resolve_memberships, (&x.identity_backend, &sid), groups)
                && holds_groups(p@, groups),
        call_ensures(B::is_forest_wide, (&x.identity_backend,), r->Ok_0@.via_global_catalog),
{
    let (groups, forest_wide) = choose|
        groups: Result<Vec<GroupMembership>, CoreError>,
        forest_wide: bool,
    |
        #![trigger x.may_group(sid, groups), x.may_reach(forest_wide)]
        x.may_group(sid, groups) && x.may_reach(forest_wide) && (r matches Ok(p) && p@
            == hit_view(sid@, identity@, groups_of(groups), forest_wide));
    law_hit_states_what_the_directory_said(sid@, identity@, groups, forest_wide);
    assert(holds_groups(r->Ok_0@, groups));
}

/// Resolving a name needs a local authority. What it resolves to has the SID that the
/// authority gave for exactly this name.
pub proof fn law_name_is_resolved_through_its_sid<B: IdentityBackend, L: LsaBackend>(
    x: PrincipalResolver<B, L>,
    name: Seq<char>,
    r: Result<PrincipalResolution, CoreError>,
)
    requires
        x.resolves_name(name, r),
    ensures
        x.lsa_backend is None ==> r is Err,
        x.lsa_backend matches Some(lsa) ==> exists|asked: &str, reply: Result<Sid, CoreError>|
            #[trigger] call_ensures(L::lookup_sid_for_name, (&lsa, asked), reply) && asked@ == name
                && (reply is Ok == r is Ok) && (reply matches Ok(sid) ==> r->Ok_0@.sid == sid@) && (
            reply matches Err(e) ==> r->Err_0 == e),
{
    if let Some(lsa) = x.lsa_backend {
        let (asked, reply) = choose|asked: &str, reply: Result<Sid, CoreError>| #[trigger]
            call_ensures(L::lookup_sid_for_name, (&lsa, asked), reply) && asked@ == name && (
            match reply {
                Ok(sid) => x.resolves_sid(sid, r),
                Err(e) => r == Err::<PrincipalResolution, CoreError>(e),
            });
        if let Ok(sid) = reply {
            law_sid_is_resolved_as_the_directory_says(x, sid, r);
        }
    }
}

/// A user principal name is resolved to the identity that the directory has for exactly this
/// name; where it has none the error names it, and an error of the directory is passed on.
pub proof fn law_upn_is_resolved_to_its_identity<B: IdentityBackend, L: LsaBackend>(
    x: PrincipalResolver<B, L>,
    upn: Seq<char>,
    r: Result<PrincipalResolution, CoreError>,
)
    requires
        x.resolves_upn(upn, r),
    ensures
        exists|asked: &str, reply: Result<Option<(Sid, Identity)>, CoreError>| #[trigger]
            call_ensures(B::lookup_identity_by_upn, (&x.identity_backend, asked), reply) && asked@
                == upn && (match reply {
                Ok(Some(hit)) => r matches Ok(p) && p@.sid == hit.0@ && p@.identity == hit.1@,
                Ok(None) => r matches Err(CoreError::Validation(m)) && text::occurs_in(upn, m@),
                Err(e) => r matches Err(passed) && passed == e,
            }),
{
    let (asked, reply) = choose|asked: &str, reply: Result<Option<(Sid, Identity)>, CoreError>|
        #[trigger] call_ensures(B::lookup_identity_by_upn, (&x.identity_backend, asked), reply)
            && asked@ == upn && (match reply {
            Ok(Some((sid, identity))) => x.follows_from_hit(sid, identity, r),
            Ok(None) => exists|forest_wide: bool| #[trigger]
                x.may_reach(forest_wide) && (r matches Err(CoreError::Validation(m)) && m@
                    == upn_miss_message(upn, forest_wide)),
            Err(e) => r == Err::<PrincipalResolution, CoreError>(e),
        });
    law_miss_names_the_upn(upn, true);
    law_miss_names_the_upn(upn, false);
    if let Ok(Some(hit)) = reply {
        law_hit_is_resolved_with_its_groups(x, hit.0, hit.1, r);
    }
}

/// An account name is resolved to the identity that the directory has for exactly this name,
/// where it has exactly one; with none or with several the error names it, and an error of
/// the directory is passed on.
pub proof fn law_account_is_resolved_to_its_identity<B: IdentityBackend, L: LsaBackend>(
    x: PrincipalResolver<B, L>,
    sam: Seq<char>,
    r: Result<PrincipalResolution, CoreError>,
)
    requires
        x.resolves_sam(sam, r),
    ensures
        exists|asked: &str, reply: Result<Vec<(Sid, Identity)>, CoreError>| #[trigger]
            call_ensures(B::lookup_identities_by_sam, (&x.identity_backend, asked), reply) && asked@
                == sam && (match reply {
                Ok(hits) => if hits@.len() == 1 {
                    r matches Ok(p) && p@.sid == hits@[0].0@ && p@.identity == hits@[0].1@
                } else {
                    r matches Err(CoreError::Validation(m)) && text::occurs_in(sam, m@)
                },
                Err(e) => r matches Err(passed) && passed == e,
            }),
{
    let (asked, reply) = choose|asked: &str, reply: Result<Vec<(Sid, Identity)>, CoreError>|
        #[trigger] call_ensures(B::lookup_identities_by_sam, (&x.identity_backend, asked), reply)
            && asked@ == sam && (match reply {
            Ok(hits) => match sam_error(sam, hits@.len()) {
                Some(m) => r matches Err(CoreError::Validation(y)) && y@ == m,
                None => x.follows_from_hit(hits@[0].0, hits@[0].1, r),
            },
            Err(e) => r == Err::<PrincipalResolution, CoreError>(e),
        });
    if let Ok(hits) = reply {
        law_account_name_has_to_be_unique(sam, hits@.len());
        if hits@.len() == 1 {
            law_hit_is_resolved_with_its_groups(x, hits@[0].0, hits@[0].1, r);
        }
    }
}

/// Input of a known form is looked up in that form: a SID as a SID, a user principal name as
/// such, an account name as such, and a name with its domain or a display name through the
/// local authority. Raw input is looked up by the form that its syntax tells, and input that
/// is blank is refused.
pub proof fn law_form_decides_the_lookup<B: IdentityBackend, L: LsaBackend>(
    x: PrincipalResolver<B, L>,
    input: PrincipalInput,
    r: Result<PrincipalResolution, CoreError>,
)
    requires
        call_ensures(PrincipalResolver::<B, L>::resolve, (&x, input), r),
    ensures
        input matches PrincipalInput::Sid(s) ==> exists|sid: Sid|
            sid@ == s@ && #[trigger] x.resolves_sid(sid, r),
        input matches PrincipalInput::Upn(s) ==> x.resolves_upn(s@, r),
        input matches PrincipalInput::SamAccount(s) ==> x.resolves_sam(s@, r),
        input matches PrincipalInput::DomainQualified(s) ==> x.resolves_name(s@, r),
        input matches PrincipalInput::DisplayName(s) ==> x.resolves_name(s@, r),
        input matches PrincipalInput::Auto(s) ==> {
            let t = text::trimmed(s@);
            let is_sid = t.len() >= 4 && t[0] == 'S' && t[1] == '-' && t[2] == '1' && t[3] == '-';
            &&& t.len() == 0 ==> r is Err
            &&& is_sid ==> exists|sid: Sid| sid@ == t && #[trigger] x.resolves_sid(sid, r)
            &&& t.len() > 0 && !is_sid && t.contains('\\') ==> x.resolves_name(t, r)
            &&& t.len() > 0 && !is_sid && !t.contains('\\') && t.contains('@') ==> x.resolves_upn(
                t,
                r,
            )
            &&& t.len() > 0 && !is_sid && !t.contains('\\') && !t.contains('@')
                ==> x.resolves_sam(t, r)
        },
{
    law_syntax_decides_the_form(
        match input {
            PrincipalInput::Auto(s) => s@,
            _ => Seq::empty(),
        },
        input@,
    );
}

/// The flags of an evaluation follow the state of the resolution, one by one.
pub proof fn law_flags_follow_the_resolution(p: PrincipalResolution, r: EngineFlags)
    requires
        call_ensures(PrincipalResolution::engine_flags, (&p,), r),
    ensures
        r.identity_not_in_configured_ldap_base == p.scope_status is OutsideConfiguredLdapBase,
        r.identity_disabled_status_unknown == p.disabled_status is Unknown,
        r.group_resolution_via_sam_fallback == p.group_resolution_status is SamFlat,
        r.identity_resolved_via_fsp == p.resolved_via_fsp,
        r.group_resolution_via_global_catalog == p.resolved_via_global_catalog,
        r.identity_lookup_failure_reason is Some == p.scope_status is LookupFailed,
        p.scope_status matches IdentityScopeStatus::LookupFailed { reason } ==> (
        r.identity_lookup_failure_reason matches Some(m) && m@ == reason@),
        p.group_resolution_status matches GroupResolutionStatus::Failed { reason } ==> (
        r.group_resolution_failure_reason matches Some(m) && m@ == reason@),
        p.group_resolution_status is NotAttempted ==> r.group_resolution_failure_reason is Some
            == p.scope_status is OutsideConfiguredLdapBase,
        p.group_resolution_status is LdapRecursive || p.group_resolution_status is SamFlat
            ==> r.group_resolution_failure_reason is None,
{
}

/// A resolution says all that it holds.
pub proof fn law_resolution_says_everything(p: PrincipalResolution, i: int)
    ensures
        p@.sid == p.sid.0@,
        p@.identity == p.identity@,
        p@.memberships.len() == p.memberships@.len(),
        0 <= i < p.memberships@.len() ==> p@.memberships[i] == p.memberships@[i]@,
        p@.scope is Inside == p.scope_status is InsideConfiguredLdapBase,
        p@.scope is Outside == p.scope_status is OutsideConfiguredLdapBase,
        p@.scope is Orphaned == p.scope_status is OrphanedSid,
        p.scope_status matches IdentityScopeStatus::LookupFailed { reason } ==> p@.scope
            == ScopeView::Failed(reason@),
        p@.groups is LdapRecursive == p.group_resolution_status is LdapRecursive,
        p@.groups is SamFlat == p.group_resolution_status is SamFlat,
        p@.groups is NotAttempted == p.group_resolution_status is NotAttempted,
        p.group_resolution_status matches GroupResolutionStatus::Failed { reason } ==> p@.groups
            == GroupsView::Failed(reason@),
        p@.disabled_status == p.disabled_status,
        p@.diagnostics == p.diagnostics@,
        p@.via_fsp == p.resolved_via_fsp,
        p@.via_global_catalog == p.resolved_via_global_catalog,
{
}

} // verus!
