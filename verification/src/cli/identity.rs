//! How the command line comes to an identity.

use vstd::prelude::*;

use crate::ad::config;
use crate::ad::config::{LdapConfig, TlsMode};
use crate::ad::principal;
use crate::ad::principal::{
    push_diagnostics, DisabledStatus, GroupResolutionStatus, IdentityScopeStatus,
    PrincipalResolution,
};
use crate::ad::resolver::bare;
use crate::ad::sam::SamResolution;
use crate::model::diagnostic::PermissionDiagnostic;
use crate::model::identity;
use crate::model::identity::{Identity, IdentityKind};
use crate::model::membership;
use crate::model::sid::Sid;
use crate::text;

verus! {

/// How to reach the directory.
#[derive(Debug)]
pub struct LdapOptions {
    pub server: String,
    pub base_dn: Option<String>,
    pub bind_dn: Option<String>,
    /// The password from the command line.
    pub bind_password: Option<String>,
    /// The password from the environment.
    pub env_password: Option<String>,
    pub insecure_ldap: bool,
    pub global_catalog: bool,
}

/// A connection to the directory, and what the user has to be warned of.
pub struct LdapPlan {
    pub config: LdapConfig,
    pub warnings: Vec<String>,
}

/// The password of a connection: the one from the command line goes first.
pub open spec fn password_of(o: LdapOptions) -> Option<Seq<char>> {
    match o.bind_password {
        Some(p) => Some(p@),
        None => text::text_of(o.env_password),
    }
}

/// What is missing for a connection. Without a base, only a Global Catalog can be
/// searched.
pub open spec fn ldap_fault(o: LdapOptions) -> Option<Seq<char>> {
    if o.base_dn is None && !o.global_catalog {
        Some(
            "--base-dn is required when --server is specified                      (e.g. DC=corp,DC=local). With --global-catalog it may                      be omitted (forest-wide search)."@,
        )
    } else if o.bind_dn is None {
        Some(
            "--bind-dn is required when --server is specified (e.g. CN=Administrator,CN=Users,DC=corp,DC=local)"@,
        )
    } else if password_of(o) is None {
        Some(
            "ADPA_BIND_PASSWORD environment variable is required (the --bind-password argument exists for backwards compatibility but is deprecated)"@,
        )
    } else {
        None
    }
}

/// The warning for a password on the command line.
pub open spec fn password_warning() -> Seq<char> {
    "[WARNING] --bind-password is DEPRECATED — credentials passed as a CLI argument are visible in process listings and shell history. Use the ADPA_BIND_PASSWORD environment variable instead. --bind-password will be removed in a future release."@
}

/// The warning for a connection without encryption.
pub open spec fn plaintext_warning() -> Seq<char> {
    "[WARNING] --insecure-ldap: the bind password is transmitted in plaintext. Use only in isolated test environments."@
}

/// What the user has to be warned of.
pub open spec fn ldap_warnings(o: LdapOptions) -> Seq<Seq<char>> {
    (if o.bind_password is Some {
        seq![password_warning()]
    } else {
        Seq::empty()
    }) + (if o.insecure_ldap {
        seq![plaintext_warning()]
    } else {
        Seq::empty()
    })
}

/// The port of a connection.
pub open spec fn ldap_port(o: LdapOptions) -> u16 {
    if o.global_catalog {
        if o.insecure_ldap {
            3268
        } else {
            3269
        }
    } else if o.insecure_ldap {
        389
    } else {
        636
    }
}

/// Plans a connection to the directory. `Err` says what is missing.
pub fn plan_connection(o: LdapOptions) -> (r: Result<LdapPlan, String>)
    ensures
        (match ldap_fault(o) {
            Some(m) => r matches Err(e) && e@ == m,
            None => {
                &&& r matches Ok(p)
                &&& config::is_config(
                    p.config,
                    (
                        o.server@,
                        match o.base_dn {
                            Some(b) => b@,
                            None => ""@,
                        },
                        o.bind_dn->0@,
                        password_of(o)->0,
                    ),
                    ldap_port(o),
                    if o.insecure_ldap {
                        TlsMode::Insecure
                    } else {
                        TlsMode::Ldaps
                    },
                    o.global_catalog,
                )
                &&& text::texts(p.warnings@) == ldap_warnings(o)
            },
        }),
{
    let base: String = match &o.base_dn {
        Some(b) => b.clone(),
        None => {
            if !o.global_catalog {
                return Err(
                    "--base-dn is required when --server is specified                      (e.g. DC=corp,DC=local). With --global-catalog it may                      be omitted (forest-wide search).".to_owned(),
                );
            }
            "".to_owned()
        },
    };
    let bind: String = match &o.bind_dn {
        Some(b) => b.clone(),
        None => {
            return Err(
                "--bind-dn is required when --server is specified (e.g. CN=Administrator,CN=Users,DC=corp,DC=local)".to_owned(),
            );
        },
    };
    let mut warnings: Vec<String> = Vec::new();
    assert(text::texts(warnings@) =~= Seq::empty());
    let password: String = match &o.bind_password {
        Some(p) => {
            text::push_line(
                &mut warnings,
                "[WARNING] --bind-password is DEPRECATED — credentials passed as a CLI argument are visible in process listings and shell history. Use the ADPA_BIND_PASSWORD environment variable instead. --bind-password will be removed in a future release.".to_owned(),
            );
            p.clone()
        },
        None => match &o.env_password {
            Some(p) => p.clone(),
            None => {
                return Err(
                    "ADPA_BIND_PASSWORD environment variable is required (the --bind-password argument exists for backwards compatibility but is deprecated)".to_owned(),
                );
            },
        },
    };
    if o.insecure_ldap {
        text::push_line(
            &mut warnings,
            "[WARNING] --insecure-ldap: the bind password is transmitted in plaintext. Use only in isolated test environments.".to_owned(),
        );
    }
    let server: &str = o.server.as_str();
    let config: LdapConfig = match (o.global_catalog, o.insecure_ldap) {
        (true, true) => LdapConfig::new_global_catalog_insecure(
            server,
            base.as_str(),
            bind.as_str(),
            password.as_str(),
        ),
        (true, false) => LdapConfig::new_global_catalog(
            server,
            base.as_str(),
            bind.as_str(),
            password.as_str(),
        ),
        (false, true) => LdapConfig::new_insecure(
            server,
            base.as_str(),
            bind.as_str(),
            password.as_str(),
        ),
        (false, false) => LdapConfig::new(
            server,
            base.as_str(),
            bind.as_str(),
            password.as_str(),
        ),
    };
    assert(text::texts(warnings@) =~= ldap_warnings(o));
    Ok(LdapPlan { config, warnings })
}

/// The flag of an identity from the account database.
pub open spec fn sam_disabled(known: bool, disabled: bool) -> DisabledStatus {
    if known {
        DisabledStatus::Known(disabled)
    } else {
        DisabledStatus::Unknown
    }
}

/// The resolution that the account database gives: its groups are flat.
pub open spec fn sam_view(
    identity: identity::IdentityView,
    memberships: Seq<membership::GroupMembershipView>,
    disabled_known: bool,
) -> principal::ResolutionView {
    principal::ResolutionView {
        sid: identity.sid,
        identity,
        memberships,
        scope: principal::ScopeView::Inside,
        groups: principal::GroupsView::SamFlat,
        disabled_status: sam_disabled(disabled_known, identity.disabled),
        diagnostics: principal::status_markers(
            principal::ScopeView::Inside,
            sam_disabled(disabled_known, identity.disabled),
            identity.disabled,
        ),
        via_fsp: false,
        via_global_catalog: false,
    }
}

/// Makes a resolution from what the account database says.
pub fn resolution_via_sam(sam: SamResolution) -> (r: PrincipalResolution)
    ensures
        r@ == sam_view(
            sam.identity@,
            membership::membership_views(sam.memberships@),
            sam.disabled_known,
        ),
{
    let disabled_status: DisabledStatus = if sam.disabled_known {
        DisabledStatus::Known(sam.identity.disabled)
    } else {
        DisabledStatus::Unknown
    };
    let scope_status: IdentityScopeStatus = IdentityScopeStatus::InsideConfiguredLdapBase;
    let mut diagnostics: Vec<PermissionDiagnostic> = Vec::new();
    push_diagnostics(&mut diagnostics, &scope_status, disabled_status, sam.identity.disabled);
    let r: PrincipalResolution = PrincipalResolution {
        sid: sam.identity.sid.clone(),
        identity: sam.identity,
        memberships: sam.memberships,
        scope_status,
        group_resolution_status: GroupResolutionStatus::SamFlat,
        disabled_status,
        diagnostics,
        resolved_via_fsp: false,
        resolved_via_global_catalog: false,
    };
    assert(r@.diagnostics =~= sam_view(
        sam.identity@,
        membership::membership_views(sam.memberships@),
        sam.disabled_known,
    ).diagnostics);
    r
}

/// The message where a name cannot be looked up.
pub open spec fn name_needs_server() -> Seq<char> {
    "Without --server, --user must be a SID (S-1-5-...). Use --server to resolve sAMAccountNames."@
}

/// The resolution of a SID where nothing can be looked up.
pub open spec fn unresolved_view(sid: Seq<char>) -> principal::ResolutionView {
    principal::ResolutionView {
        diagnostics: seq![PermissionDiagnostic::IdentityDisabledStatusUnknown],
        ..principal::groupless_view(
            identity::IdentityView {
                name: Some(sid),
                ..identity::bare_identity(sid, IdentityKind::Unknown)
            },
            principal::ScopeView::Orphaned,
            Seq::empty(),
        )
    }
}

/// Makes the resolution of a user where neither a directory nor an account database
/// can be asked: only a SID is accepted.
pub fn resolution_of_sid_only(user: &str) -> (r: Result<PrincipalResolution, String>)
    ensures
        ({
            let t = text::trimmed(user@);
            if "S-1-"@.is_prefix_of(t) {
                r matches Ok(p) && p@ == unresolved_view(t)
            } else {
                r matches Err(m) && m@ == name_needs_server()
            }
        }),
{
    let t: &str = text::trim(user);
    if !text::starts_with(t, "S-1-") {
        return Err(
            "Without --server, --user must be a SID (S-1-5-...). Use --server to resolve sAMAccountNames.".to_owned(),
        );
    }
    let sid: Sid = Sid(t.to_owned());
    let mut identity: Identity = bare(&sid, IdentityKind::Unknown);
    identity.name = Some(t.to_owned());
    let mut diagnostics: Vec<PermissionDiagnostic> = Vec::new();
    diagnostics.push(PermissionDiagnostic::IdentityDisabledStatusUnknown);
    let p: PrincipalResolution = PrincipalResolution {
        sid,
        identity,
        memberships: Vec::new(),
        scope_status: IdentityScopeStatus::OrphanedSid,
        group_resolution_status: GroupResolutionStatus::NotAttempted,
        disabled_status: DisabledStatus::Unknown,
        diagnostics,
        resolved_via_fsp: false,
        resolved_via_global_catalog: false,
    };
    assert(p@.memberships =~= Seq::empty());
    assert(p@.diagnostics =~= unresolved_view(t@).diagnostics);
    Ok(p)
}

/// A password on the command line is never used without a warning, and neither is a
/// connection without encryption.
pub proof fn law_weak_settings_are_warned_of(o: LdapOptions)
    ensures
        o.bind_password is Some ==> ldap_warnings(o).contains(password_warning()),
        o.insecure_ldap ==> ldap_warnings(o).contains(plaintext_warning()),
        o.bind_password is None && !o.insecure_ldap ==> ldap_warnings(o).len() == 0,
{
    let w = ldap_warnings(o);
    if o.bind_password is Some {
        assert(w[0] == password_warning());
    }
    if o.insecure_ldap {
        assert(w[w.len() - 1] == plaintext_warning());
    }
}

/// A connection can be planned exactly where everything is given: a base, unless a Global
/// Catalog is searched, a name to bind with, and a password from either place.
pub proof fn law_connection_needs_its_parts(o: LdapOptions)
    ensures
        (ldap_fault(o) is None) == ((o.base_dn is Some || o.global_catalog) && o.bind_dn is Some && (
        o.bind_password is Some || o.env_password is Some)),
{
}

/// The password from the command line goes before the one from the environment.
pub proof fn law_given_password_goes_first(o: LdapOptions)
    ensures
        o.bind_password matches Some(p) ==> password_of(o) == Some(p@),
        o.bind_password is None ==> (o.env_password matches Some(p) ==> password_of(o) == Some(p@)),
        o.bind_password is None && o.env_password is None ==> password_of(o) is None,
{
}

/// Each combination of catalog and encryption has its port.
pub proof fn law_port_follows_the_settings(o: LdapOptions)
    ensures
        ldap_port(o) == 636 || ldap_port(o) == 389 || ldap_port(o) == 3269 || ldap_port(o) == 3268,
        (ldap_port(o) == 636) == (!o.global_catalog && !o.insecure_ldap),
        (ldap_port(o) == 389) == (!o.global_catalog && o.insecure_ldap),
        (ldap_port(o) == 3269) == (o.global_catalog && !o.insecure_ldap),
{
}

/// What the account database says is stated as it is: identity and groups, inside the base,
/// with flat groups, and with the `disabled` flag only where it is known.
pub proof fn law_database_is_stated_as_it_is(
    identity: identity::IdentityView,
    memberships: Seq<membership::GroupMembershipView>,
    disabled_known: bool,
)
    ensures
        ({
            let v = sam_view(identity, memberships, disabled_known);
            &&& v.sid == identity.sid
            &&& v.identity == identity
            &&& v.memberships == memberships
            &&& v.scope is Inside
            &&& v.groups is SamFlat
            &&& disabled_known ==> v.disabled_status == DisabledStatus::Known(identity.disabled)
            &&& !disabled_known ==> v.disabled_status is Unknown
            &&& v.diagnostics.contains(PermissionDiagnostic::IdentityDisabled) == (disabled_known
                && identity.disabled)
            &&& v.diagnostics.contains(PermissionDiagnostic::IdentityDisabledStatusUnknown)
                == !disabled_known
            &&& !v.via_fsp && !v.via_global_catalog
        }),
{
    principal::law_disabled_marker_is_known(
        principal::ScopeView::Inside,
        sam_disabled(disabled_known, identity.disabled),
        identity.disabled,
    );
}

/// Where nothing can be looked up, a SID is stated under its own name, and nothing else is
/// claimed of it.
pub proof fn law_bare_sid_claims_nothing(sid: Seq<char>)
    ensures
        ({
            let v = unresolved_view(sid);
            &&& v.sid == sid && v.identity.sid == sid
            &&& v.identity.name == Some(sid)
            &&& v.identity.domain is None
            &&& v.identity.kind == IdentityKind::Unknown
            &&& !v.identity.disabled
            &&& v.disabled_status is Unknown
            &&& v.memberships.len() == 0 && v.groups is NotAttempted
            &&& v.scope is Orphaned
            &&& v.diagnostics.contains(PermissionDiagnostic::IdentityDisabledStatusUnknown)
            &&& !v.via_fsp && !v.via_global_catalog
        }),
{
    assert(unresolved_view(sid).diagnostics[0]
        == PermissionDiagnostic::IdentityDisabledStatusUnknown);
}

/// A planned connection goes where it was asked to: to the server, below the base, with the
/// name and the password that were given, on the port of its kind, and encrypted unless that
/// was switched off. Everything doubtful about it is warned of, and a plan that fails is one
/// with a part missing.
pub proof fn law_plan_follows_the_options(o: LdapOptions, r: Result<LdapPlan, String>)
    requires
        call_ensures(plan_connection, (o,), r),
    ensures
        r is Ok == ((o.base_dn is Some || o.global_catalog) && o.bind_dn is Some && (
        o.bind_password is Some || o.env_password is Some)),
        r matches Ok(p) ==> {
            &&& p.config.server@ == o.server@
            &&& o.base_dn matches Some(b) ==> p.config.base_dn@ == b@
            &&& o.base_dn is None ==> p.config.base_dn@.len() == 0
            &&& p.config.bind_dn@ == o.bind_dn->0@
            &&& o.bind_password matches Some(w) ==> p.config.bind_password@ == w@
            &&& o.bind_password is None ==> p.config.bind_password@ == o.env_password->0@
            &&& p.config.global_catalog == o.global_catalog
            &&& (p.config.tls_mode == TlsMode::Insecure) == o.insecure_ldap
            &&& (p.config.tls_mode == TlsMode::Ldaps) == !o.insecure_ldap
            &&& !o.global_catalog && !o.insecure_ldap ==> p.config.port == 636
            &&& !o.global_catalog && o.insecure_ldap ==> p.config.port == 389
            &&& o.global_catalog && !o.insecure_ldap ==> p.config.port == 3269
            &&& o.global_catalog && o.insecure_ldap ==> p.config.port == 3268
            &&& p.warnings@.len() == (if o.bind_password is Some {
                1int
            } else {
                0
            }) + (if o.insecure_ldap {
                1int
            } else {
                0
            })
        },
{
    reveal_strlit("");
    if let Ok(p) = r {
        assert(text::texts(p.warnings@).len() == p.warnings@.len());
    }
}

} // verus!
