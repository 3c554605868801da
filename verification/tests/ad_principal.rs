use adpa::ad::principal::{
    DisabledStatus, GroupResolutionStatus, IdentityBackend, IdentityScopeStatus, LsaAccountInfo,
    LsaBackend, PrincipalInput, PrincipalResolver,
};
use adpa::error::CoreError;
use adpa::model::diagnostic::PermissionDiagnostic;
use adpa::model::identity::{Identity, IdentityKind};
use adpa::model::membership::GroupMembership;
use adpa::model::sid::Sid;
use std::collections::HashMap;
use std::sync::Mutex;

struct FakeLdapBackend {
    by_sid: HashMap<String, Identity>,
    by_upn: HashMap<String, (Sid, Identity)>,
    by_sam: HashMap<String, Vec<(Sid, Identity)>>,
    memberships: HashMap<String, Vec<GroupMembership>>,
    force_error: Mutex<Option<CoreError>>,
}

impl FakeLdapBackend {
    fn new() -> Self {
        Self {
            by_sid: HashMap::new(),
            by_upn: HashMap::new(),
            by_sam: HashMap::new(),
            memberships: HashMap::new(),
            force_error: Mutex::new(None),
        }
    }
}

impl IdentityBackend for FakeLdapBackend {
    fn lookup_identity_by_sid(&self, sid: &Sid) -> Result<Option<Identity>, CoreError> {
        if let Some(e) = self.force_error.lock().unwrap().take() {
            return Err(e);
        }
        Ok(self.by_sid.get(&sid.0).cloned())
    }

    fn lookup_identity_by_upn(
        &self,
        upn: &str,
    ) -> Result<Option<(Sid, Identity)>, CoreError> {
        Ok(self.by_upn.get(upn).cloned())
    }

    fn lookup_identities_by_sam(
        &self,
        sam: &str,
    ) -> Result<Vec<(Sid, Identity)>, CoreError> {
        Ok(self.by_sam.get(sam).cloned().unwrap_or_default())
    }

    fn resolve_memberships(&self, sid: &Sid) -> Result<Vec<GroupMembership>, CoreError> {
        Ok(self.memberships.get(&sid.0).cloned().unwrap_or_default())
    }
}

struct FakeLsaBackend {
    name_to_sid: HashMap<String, Sid>,
    sid_to_account: HashMap<String, LsaAccountInfo>,
}

impl FakeLsaBackend {
    fn new() -> Self {
        Self {
            name_to_sid: HashMap::new(),
            sid_to_account: HashMap::new(),
        }
    }
}

impl LsaBackend for FakeLsaBackend {
    fn lookup_sid_for_name(&self, name: &str) -> Result<Sid, CoreError> {
        self.name_to_sid
            .get(name)
            .cloned()
            .ok_or_else(|| CoreError::SidResolution(format!("fake LSA: unknown name '{name}'")))
    }

    fn lookup_account_for_sid(&self, sid: &Sid) -> Result<LsaAccountInfo, CoreError> {
        self.sid_to_account.get(&sid.0).cloned().ok_or_else(|| {
            CoreError::SidResolution(format!("fake LSA: unknown SID '{}'", sid.0))
        })
    }
}

fn mk_identity(sid: &str, name: &str, domain: &str, kind: IdentityKind) -> Identity {
    Identity {
        sid: Sid(sid.to_owned()),
        name: Some(name.to_owned()),
        domain: Some(domain.to_owned()),
        kind,
        disabled: false,
        user_principal_name: None,
        sid_history_count: 0,
        sid_history: vec![],
    }
}

fn mk_lsa(name: &str, domain: &str, kind: IdentityKind) -> LsaAccountInfo {
    LsaAccountInfo {
        name: name.to_owned(),
        domain: domain.to_owned(),
        kind,
    }
}

#[test]
fn domain_user_ldap_hit_is_inside_base() {
    let sid = Sid("S-1-5-21-1-1-1-1001".to_owned());
    let mut ldap = FakeLdapBackend::new();
    ldap.by_sid.insert(
        sid.0.clone(),
        mk_identity(&sid.0, "alice", "EXAMPLE", IdentityKind::User),
    );
    let mut lsa = FakeLsaBackend::new();
    lsa.name_to_sid
        .insert("EXAMPLE\\alice".to_owned(), sid.clone());

    let resolver = PrincipalResolver::new(ldap, Some(lsa));
    let res = resolver
        .resolve(PrincipalInput::DomainQualified("EXAMPLE\\alice".to_owned()))
        .expect("resolution must succeed");
    assert_eq!(
        res.scope_status,
        IdentityScopeStatus::InsideConfiguredLdapBase
    );
    assert_eq!(res.disabled_status, DisabledStatus::Known(false));
    assert!(
        res.diagnostics.is_empty(),
        "no diagnostics expected, got {:?}",
        res.diagnostics
    );
    let flags = res.engine_flags();
    assert!(!flags.identity_not_in_configured_ldap_base);
    assert!(!flags.identity_disabled_status_unknown);
}

#[test]
fn domain_user_ldap_miss_with_lsa_hit_is_outside_base() {
    let sid = Sid("S-1-5-21-9-9-9-1001".to_owned());
    let ldap = FakeLdapBackend::new();
    let mut lsa = FakeLsaBackend::new();
    lsa.name_to_sid
        .insert("TRUSTED\\alice".to_owned(), sid.clone());
    lsa.sid_to_account.insert(
        sid.0.clone(),
        mk_lsa("alice", "TRUSTED", IdentityKind::User),
    );

    let resolver = PrincipalResolver::new(ldap, Some(lsa));
    let res = resolver
        .resolve(PrincipalInput::DomainQualified("TRUSTED\\alice".to_owned()))
        .expect("resolution must succeed");
    assert_eq!(
        res.scope_status,
        IdentityScopeStatus::OutsideConfiguredLdapBase
    );
    assert_eq!(res.identity.name.as_deref(), Some("alice"));
    assert_eq!(res.identity.domain.as_deref(), Some("TRUSTED"));
    assert_eq!(res.disabled_status, DisabledStatus::Unknown);
    assert!(
        res.diagnostics
            .contains(&PermissionDiagnostic::IdentityNotInConfiguredLdapBase),
        "Outside scope must push IdentityNotInConfiguredLdapBase"
    );
    let flags = res.engine_flags();
    assert!(flags.identity_not_in_configured_ldap_base);
    assert!(flags.identity_disabled_status_unknown);
}

#[test]
fn direct_sid_ldap_miss_with_lsa_hit_is_outside_base() {
    let sid = Sid("S-1-5-21-9-9-9-1002".to_owned());
    let ldap = FakeLdapBackend::new();
    let mut lsa = FakeLsaBackend::new();
    lsa.sid_to_account
        .insert(sid.0.clone(), mk_lsa("bob", "TRUSTED", IdentityKind::User));

    let resolver = PrincipalResolver::new(ldap, Some(lsa));
    let res = resolver
        .resolve(PrincipalInput::Sid(sid.clone()))
        .expect("resolution must succeed");
    assert_eq!(
        res.scope_status,
        IdentityScopeStatus::OutsideConfiguredLdapBase,
        "direct SID with LDAP miss + LSA hit must be Outside, not Orphaned"
    );
    assert!(res
        .diagnostics
        .contains(&PermissionDiagnostic::IdentityNotInConfiguredLdapBase));
}

#[test]
fn display_name_workflow_uses_lsa_then_cross_checks() {
    let sid = Sid("S-1-5-21-9-9-9-1003".to_owned());
    let ldap = FakeLdapBackend::new();
    let mut lsa = FakeLsaBackend::new();
    lsa.name_to_sid.insert("charlie".to_owned(), sid.clone());
    lsa.sid_to_account.insert(
        sid.0.clone(),
        mk_lsa("charlie", "TRUSTED", IdentityKind::User),
    );

    let resolver = PrincipalResolver::new(ldap, Some(lsa));
    let res = resolver
        .resolve(PrincipalInput::DisplayName("charlie".to_owned()))
        .expect("resolution must succeed");
    assert_eq!(
        res.scope_status,
        IdentityScopeStatus::OutsideConfiguredLdapBase
    );
    assert_eq!(res.identity.name.as_deref(), Some("charlie"));
}

#[test]
fn upn_outside_configured_base_returns_explicit_error() {
    let ldap = FakeLdapBackend::new();
    let lsa = FakeLsaBackend::new();

    let resolver = PrincipalResolver::new(ldap, Some(lsa));
    let err = resolver
        .resolve(PrincipalInput::Upn("alice@trusted.example".to_owned()))
        .expect_err("UPN miss must return Validation error, not Orphaned fallback");
    let msg = err.message();
    assert!(
        msg.contains("Global Catalog") || msg.contains("port 3268"),
        "UPN miss error message must point at the GC workaround, got: {msg}"
    );
}

#[test]
fn unknown_sid_with_no_lsa_match_is_orphaned() {
    let sid = Sid("S-1-5-21-1-1-1-99999".to_owned());
    let ldap = FakeLdapBackend::new();
    let lsa = FakeLsaBackend::new();

    let resolver = PrincipalResolver::new(ldap, Some(lsa));
    let res = resolver
        .resolve(PrincipalInput::Sid(sid.clone()))
        .expect("resolution must succeed");
    assert_eq!(res.scope_status, IdentityScopeStatus::OrphanedSid);
    assert_eq!(res.identity.kind, IdentityKind::Orphaned);
    assert!(
        res.diagnostics.is_empty(),
        "Orphaned must NOT emit Outside marker"
    );
    let flags = res.engine_flags();
    assert!(!flags.identity_not_in_configured_ldap_base);
    assert!(flags.identity_disabled_status_unknown);
}

#[test]
fn ldap_disabled_account_pushes_identity_disabled_marker() {
    let sid = Sid("S-1-5-21-1-1-1-1005".to_owned());
    let mut ldap = FakeLdapBackend::new();
    let mut id = mk_identity(&sid.0, "stale", "EXAMPLE", IdentityKind::User);
    id.disabled = true;
    ldap.by_sid.insert(sid.0.clone(), id);

    let resolver = PrincipalResolver::new(ldap, Some(FakeLsaBackend::new()));
    let res = resolver
        .resolve(PrincipalInput::Sid(sid))
        .expect("resolution must succeed");
    assert!(res
        .diagnostics
        .contains(&PermissionDiagnostic::IdentityDisabled));
    assert_eq!(res.disabled_status, DisabledStatus::Known(true));
    let flags = res.engine_flags();
    assert!(!flags.identity_disabled_status_unknown);
}

#[test]
fn ldap_miss_without_lsa_backend_is_orphaned() {
    let sid = Sid("S-1-5-21-1-1-1-1006".to_owned());
    let ldap = FakeLdapBackend::new();
    let resolver: PrincipalResolver<_, FakeLsaBackend> = PrincipalResolver::new(ldap, None);
    let res = resolver
        .resolve(PrincipalInput::Sid(sid))
        .expect("resolution must succeed");
    assert_eq!(res.scope_status, IdentityScopeStatus::OrphanedSid);
}

#[test]
fn ldap_error_yields_lookup_failed_not_orphaned() {
    let sid = Sid("S-1-5-21-1-1-1-1007".to_owned());
    let ldap = FakeLdapBackend::new();
    *ldap.force_error.lock().unwrap() =
        Some(CoreError::LdapQuery("simulated bind failure".to_owned()));
    let resolver = PrincipalResolver::new(ldap, Some(FakeLsaBackend::new()));
    let res = resolver
        .resolve(PrincipalInput::Sid(sid))
        .expect("resolution must succeed (error becomes LookupFailed scope)");
    match &res.scope_status {
        IdentityScopeStatus::LookupFailed { reason } => {
            assert!(
                reason.contains("simulated bind failure"),
                "reason must carry the underlying error, got: {reason}"
            );
        }
        other => panic!("expected LookupFailed, got: {other:?}"),
    }
    let flags = res.engine_flags();
    assert!(
        flags
            .identity_lookup_failure_reason
            .as_deref()
            .map(|s| s.contains("simulated bind failure"))
            .unwrap_or(false),
        "engine_flags() must carry the LDAP lookup failure reason"
    );
}

struct GroupFailingBackend {
    sid: Sid,
    identity: Identity,
}

impl IdentityBackend for GroupFailingBackend {
    fn lookup_identity_by_sid(
        &self,
        sid: &Sid,
    ) -> Result<Option<Identity>, CoreError> {
        if sid.0 == self.sid.0 {
            Ok(Some(self.identity.clone()))
        } else {
            Ok(None)
        }
    }
    fn lookup_identity_by_upn(
        &self,
        _upn: &str,
    ) -> Result<Option<(Sid, Identity)>, CoreError> {
        Ok(None)
    }
    fn lookup_identities_by_sam(
        &self,
        _sam: &str,
    ) -> Result<Vec<(Sid, Identity)>, CoreError> {
        Ok(Vec::new())
    }
    fn resolve_memberships(
        &self,
        _sid: &Sid,
    ) -> Result<Vec<GroupMembership>, CoreError> {
        Err(CoreError::LdapQuery(
            "simulated group resolution timeout".to_owned(),
        ))
    }
}

#[test]
fn group_resolution_error_after_identity_hit_carries_reason() {
    let sid = Sid("S-1-5-21-1-1-1-1008".to_owned());
    let backend = GroupFailingBackend {
        sid: sid.clone(),
        identity: mk_identity(&sid.0, "alice", "EXAMPLE", IdentityKind::User),
    };
    let resolver = PrincipalResolver::new(backend, Some(FakeLsaBackend::new()));
    let res = resolver
        .resolve(PrincipalInput::Sid(sid))
        .expect("resolution must succeed");
    assert_eq!(
        res.scope_status,
        IdentityScopeStatus::InsideConfiguredLdapBase
    );
    match &res.group_resolution_status {
        GroupResolutionStatus::Failed { reason } => {
            assert!(
                reason.contains("simulated group resolution timeout"),
                "reason must carry the underlying error, got: {reason}"
            );
        }
        other => panic!("expected Failed, got: {other:?}"),
    }
    let flags = res.engine_flags();
    assert!(
        flags.group_resolution_failure_reason.is_some(),
        "engine_flags() must carry the group resolution failure reason"
    );
    assert!(
        flags.identity_lookup_failure_reason.is_none(),
        "identity lookup did not fail — flag must remain None"
    );
}

#[test]
fn outside_base_with_skipped_groups_yields_group_failure_reason() {
    let sid = Sid("S-1-5-21-9-9-9-1009".to_owned());
    let ldap = FakeLdapBackend::new();
    let mut lsa = FakeLsaBackend::new();
    lsa.sid_to_account
        .insert(sid.0.clone(), mk_lsa("bob", "TRUSTED", IdentityKind::User));
    let resolver = PrincipalResolver::new(ldap, Some(lsa));
    let res = resolver
        .resolve(PrincipalInput::Sid(sid))
        .expect("resolution must succeed");
    assert_eq!(
        res.scope_status,
        IdentityScopeStatus::OutsideConfiguredLdapBase
    );
    let flags = res.engine_flags();
    assert!(
        flags.group_resolution_failure_reason.is_some(),
        "Outside-base + NotAttempted must produce a group resolution failure reason"
    );
}

#[test]
fn ambiguous_sam_returns_uniqueness_error() {
    let mut ldap = FakeLdapBackend::new();
    let id_a = mk_identity("S-1-5-21-1-1-1-A", "alice", "DOMA", IdentityKind::User);
    let id_b = mk_identity("S-1-5-21-1-1-1-B", "alice", "DOMB", IdentityKind::User);
    ldap.by_sam.insert(
        "alice".to_owned(),
        vec![
            (Sid("S-1-5-21-1-1-1-A".to_owned()), id_a),
            (Sid("S-1-5-21-1-1-1-B".to_owned()), id_b),
        ],
    );
    let resolver = PrincipalResolver::new(ldap, Some(FakeLsaBackend::new()));
    let err = resolver
        .resolve(PrincipalInput::Auto("alice".to_owned()))
        .expect_err("ambiguous SAM must error");
    assert!(err.message().contains("Ambiguous"));
}

#[test]
fn auto_dispatcher_classifies_by_syntax_and_trims() {
    match PrincipalInput::Auto("  S-1-5-18  ".to_owned())
        .classify()
        .unwrap()
    {
        PrincipalInput::Sid(s) => assert_eq!(s.0, "S-1-5-18"),
        other => panic!("expected Sid, got {other:?}"),
    }
    match PrincipalInput::Auto("  EXAMPLE\\alice  ".to_owned())
        .classify()
        .unwrap()
    {
        PrincipalInput::DomainQualified(s) => assert_eq!(s, "EXAMPLE\\alice"),
        other => panic!("expected DomainQualified, got {other:?}"),
    }
    match PrincipalInput::Auto("  alice@example.com  ".to_owned())
        .classify()
        .unwrap()
    {
        PrincipalInput::Upn(s) => assert_eq!(s, "alice@example.com"),
        other => panic!("expected Upn, got {other:?}"),
    }
    match PrincipalInput::Auto("  alice  ".to_owned())
        .classify()
        .unwrap()
    {
        PrincipalInput::SamAccount(s) => assert_eq!(s, "alice"),
        other => panic!("expected SamAccount, got {other:?}"),
    }
    assert!(PrincipalInput::Auto("   ".to_owned()).classify().is_err());
}

#[test]
fn fsp_hit_resolves_home_domain_groups_with_lsa_enrichment() {
    let sid = Sid("S-1-5-21-7-7-7-1501".to_owned());
    let home_group = Sid("S-1-5-21-1-1-1-2000".to_owned());
    let mut ldap = FakeLdapBackend::new();

    ldap.by_sid.insert(
        sid.0.clone(),
        mk_identity(
            &sid.0,
            &sid.0,
            "home.example",
            IdentityKind::ForeignSecurityPrincipal,
        ),
    );

    ldap.memberships.insert(
        sid.0.clone(),
        vec![GroupMembership {
            member_sid: sid.clone(),
            group_sid: home_group.clone(),
            direct: true,
            group_name: Some("HomeDomain-FileAdmins".to_owned()),
            path: None,
            group_sid_history_count: 0,
            group_sid_history: vec![],
        }],
    );
    let mut lsa = FakeLsaBackend::new();
    lsa.sid_to_account
        .insert(sid.0.clone(), mk_lsa("mm0501", "T1LAB", IdentityKind::User));

    let resolver = PrincipalResolver::new(ldap, Some(lsa));
    let res = resolver
        .resolve(PrincipalInput::Sid(sid.clone()))
        .expect("resolution must succeed");

    assert_eq!(res.identity.name.as_deref(), Some("mm0501"));
    assert_eq!(res.identity.domain.as_deref(), Some("T1LAB"));
    assert_eq!(res.identity.kind, IdentityKind::User);

    assert_eq!(res.memberships.len(), 1);
    assert_eq!(res.memberships[0].group_sid, home_group);

    assert!(res.resolved_via_fsp);
    assert!(res.diagnostics.iter().any(|d| matches!(
        d,
        PermissionDiagnostic::IdentityResolvedViaForeignSecurityPrincipal
    )));

    assert_eq!(res.disabled_status, DisabledStatus::Unknown);
    let flags = res.engine_flags();
    assert!(flags.identity_resolved_via_fsp);
    assert!(flags.identity_disabled_status_unknown);
}

#[test]
fn fsp_hit_without_lsa_keeps_fsp_identity_and_marker() {
    let sid = Sid("S-1-5-21-7-7-7-1502".to_owned());
    let mut ldap = FakeLdapBackend::new();
    ldap.by_sid.insert(
        sid.0.clone(),
        mk_identity(
            &sid.0,
            &sid.0,
            "home.example",
            IdentityKind::ForeignSecurityPrincipal,
        ),
    );
    let resolver = PrincipalResolver::new(ldap, None::<FakeLsaBackend>);
    let res = resolver
        .resolve(PrincipalInput::Sid(sid))
        .expect("resolution must succeed");
    assert_eq!(res.identity.kind, IdentityKind::ForeignSecurityPrincipal);
    assert!(res.resolved_via_fsp);
    assert!(res.diagnostics.iter().any(|d| matches!(
        d,
        PermissionDiagnostic::IdentityResolvedViaForeignSecurityPrincipal
    )));
}

struct ForestWideFake(FakeLdapBackend);

impl IdentityBackend for ForestWideFake {
    fn lookup_identity_by_sid(&self, sid: &Sid) -> Result<Option<Identity>, CoreError> {
        self.0.lookup_identity_by_sid(sid)
    }
    fn lookup_identity_by_upn(
        &self,
        upn: &str,
    ) -> Result<Option<(Sid, Identity)>, CoreError> {
        self.0.lookup_identity_by_upn(upn)
    }
    fn lookup_identities_by_sam(
        &self,
        sam: &str,
    ) -> Result<Vec<(Sid, Identity)>, CoreError> {
        self.0.lookup_identities_by_sam(sam)
    }
    fn resolve_memberships(&self, sid: &Sid) -> Result<Vec<GroupMembership>, CoreError> {
        self.0.resolve_memberships(sid)
    }
    fn is_forest_wide(&self) -> bool {
        true
    }
}

#[test]
fn gc_hit_flags_group_resolution_via_global_catalog() {
    let sid = Sid("S-1-5-21-2-2-2-1001".to_owned());
    let mut ldap = FakeLdapBackend::new();
    ldap.by_sid.insert(
        sid.0.clone(),
        mk_identity(&sid.0, "bob", "CHILD", IdentityKind::User),
    );
    let resolver = PrincipalResolver::new(ForestWideFake(ldap), None::<FakeLsaBackend>);
    let res = resolver
        .resolve(PrincipalInput::Sid(sid))
        .expect("resolution must succeed");
    assert!(res.resolved_via_global_catalog);
    assert!(res.engine_flags().group_resolution_via_global_catalog);
}

#[test]
fn regular_hit_does_not_flag_global_catalog() {
    let sid = Sid("S-1-5-21-2-2-2-1002".to_owned());
    let mut ldap = FakeLdapBackend::new();
    ldap.by_sid.insert(
        sid.0.clone(),
        mk_identity(&sid.0, "carol", "EXAMPLE", IdentityKind::User),
    );
    let resolver = PrincipalResolver::new(ldap, None::<FakeLsaBackend>);
    let res = resolver
        .resolve(PrincipalInput::Sid(sid))
        .expect("resolution must succeed");
    assert!(!res.resolved_via_global_catalog);
    assert!(!res.engine_flags().group_resolution_via_global_catalog);
}

#[test]
fn gc_upn_miss_reports_forest_wide_error() {
    let resolver = PrincipalResolver::new(
        ForestWideFake(FakeLdapBackend::new()),
        None::<FakeLsaBackend>,
    );
    let err = resolver
        .resolve(PrincipalInput::Upn("ghost@nowhere.lab".to_owned()))
        .expect_err("UPN miss must be an error");
    let msg = err.message();
    assert!(
        msg.contains("forest-wide"),
        "GC miss must say the search was already forest-wide; got: {msg}"
    );
    assert!(
        !msg.contains("--global-catalog"),
        "GC miss must not recommend the flag that is already active; got: {msg}"
    );
}

