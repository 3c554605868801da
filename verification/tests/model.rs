use adpa::model::diagnostic::{DiagnosticSeverity, PermissionDiagnostic};
use adpa::model::identity::{AccessContext, Identity, IdentityKind};
use adpa::model::membership::{
    group_sid_history_diagnostics, members_view_rejection, privileged_group_role, GroupMembersReport,
    GroupMembership, MemberNode, MemberVia, MembershipReport,
};
use adpa::model::sid::{NormalizedPath, Sid};
use adpa::model::trust::{TrustAttributes, TrustDirection};

#[test]
fn trust_direction_from_code_maps_known_and_preserves_unknown() {
    assert_eq!(TrustDirection::from_code(0), TrustDirection::Disabled);
    assert_eq!(TrustDirection::from_code(1), TrustDirection::Inbound);
    assert_eq!(TrustDirection::from_code(2), TrustDirection::Outbound);
    assert_eq!(TrustDirection::from_code(3), TrustDirection::Bidirectional);
    assert_eq!(TrustDirection::from_code(9), TrustDirection::Unknown(9));
    assert_eq!(TrustDirection::from_code(9).label(), "unknown (9)");
}

#[test]
fn trust_attributes_decode_named_flags() {

    let a = TrustAttributes::from_bits(
        TrustAttributes::FOREST_TRANSITIVE
            | TrustAttributes::QUARANTINED_DOMAIN
            | TrustAttributes::CROSS_ORGANIZATION,
    );
    assert!(a.forest_transitive());
    assert!(a.sid_filtering_enabled());
    assert!(a.selective_authentication());
    assert!(!a.within_forest());
    let labels = a.labels();
    assert!(labels.contains(&"forest-transitive"));
    assert!(labels.contains(&"SID-filtering (quarantined)"));
    assert!(labels.contains(&"selective-authentication"));

    let raw = 0x8000_0004;
    let b = TrustAttributes::from_bits(raw);
    assert_eq!(b.raw, raw);
    assert!(b.sid_filtering_enabled());
}

#[test]
fn trust_attributes_empty_has_no_flags() {
    let a = TrustAttributes::default();
    assert!(!a.sid_filtering_enabled());
    assert!(!a.selective_authentication());
    assert!(a.labels().is_empty());
}

#[test]
fn diagnostic_summary_is_non_empty_and_single_line() {
    let variants = [
        PermissionDiagnostic::NonCanonicalDaclOrder { at_index: 3 },
        PermissionDiagnostic::UnsupportedShareAces { count: 2 },
        PermissionDiagnostic::UnsupportedNtfsAces { count: 5 },
        PermissionDiagnostic::DomainGroupRecursionIncomplete,
        PermissionDiagnostic::IdentityDisabled,
        PermissionDiagnostic::IdentityNotInConfiguredLdapBase,
        PermissionDiagnostic::IdentityDisabledStatusUnknown,
        PermissionDiagnostic::IdentityLookupFailed {
            reason: "bind timeout".to_owned(),
        },
        PermissionDiagnostic::GroupResolutionFailed {
            reason: "DC unreachable".to_owned(),
        },
        PermissionDiagnostic::OwnerRightsAceApplied,
        PermissionDiagnostic::IdentityResolvedViaForeignSecurityPrincipal,
        PermissionDiagnostic::GroupResolutionViaGlobalCatalog,
        PermissionDiagnostic::PersistedEvidenceDecodeFailed {
            detail: "diagnostics field".to_owned(),
        },
    ];
    for d in &variants {
        let s = d.summary();
        assert!(!s.trim().is_empty(), "empty summary for {d:?}");
        assert!(
            !s.contains('\n'),
            "summary must be single-line for GUI rows, got newline in {d:?}"
        );
    }
}

#[test]
fn diagnostic_summary_includes_payload() {
    assert!(PermissionDiagnostic::UnsupportedNtfsAces { count: 7 }
        .summary()
        .contains('7'));
    assert!(PermissionDiagnostic::NonCanonicalDaclOrder { at_index: 9 }
        .summary()
        .contains('9'));
    assert!(PermissionDiagnostic::IdentityLookupFailed {
        reason: "specific-reason-text".to_owned()
    }
    .summary()
    .contains("specific-reason-text"));
    assert!(PermissionDiagnostic::PersistedEvidenceDecodeFailed {
        detail: "specific-detail-text".to_owned()
    }
    .summary()
    .contains("specific-detail-text"));
}

#[test]
fn sid_try_new_accepts_wellknown_and_user_sids() {
    assert_eq!(Sid::try_new("S-1-5-18").unwrap().0, "S-1-5-18");
    assert!(Sid::try_new("S-1-5-21-1-2-3-1001").is_ok());

    assert_eq!(Sid::try_new("  S-1-5-18  ").unwrap().0, "S-1-5-18");
}

#[test]
fn sid_try_new_rejects_malformed() {
    assert!(Sid::try_new("").is_err());
    assert!(Sid::try_new("not-a-sid").is_err());
    assert!(Sid::try_new("X-1-5-18").is_err());
    assert!(Sid::try_new("S-1-5").is_err());
    assert!(Sid::try_new("S-1-5-abc").is_err());
}

#[test]
fn sid_is_valid_syntax_matches_try_new() {
    assert!(Sid::is_valid_syntax("S-1-5-32-544"));
    assert!(!Sid::is_valid_syntax("garbage"));
}

#[test]
fn sid_new_unchecked_bypasses_validation() {

    assert_eq!(Sid::new_unchecked("anything").0, "anything");
}

#[test]
fn normalized_path_try_new_accepts_and_trims() {
    assert_eq!(
        NormalizedPath::try_new(r"  C:\Data\Share  ").unwrap().0,
        r"C:\Data\Share"
    );
    assert!(NormalizedPath::try_new(r"\\server\share\folder").is_ok());
}

#[test]
fn normalized_path_try_new_rejects_empty_and_control_chars() {
    assert!(NormalizedPath::try_new("").is_err());
    assert!(NormalizedPath::try_new("   ").is_err());
    assert!(NormalizedPath::try_new("C:\\a\0b").is_err());
    assert!(NormalizedPath::try_new("C:\\a\tb").is_err());
}

#[test]
fn access_context_default_is_unspecified() {
    assert_eq!(AccessContext::default(), AccessContext::Unspecified);
}

#[test]
fn access_context_for_unc_path_is_remote_smb() {
    assert_eq!(
        AccessContext::for_path(r"\\server\share\folder"),
        AccessContext::RemoteSmb
    );
    assert_eq!(
        AccessContext::for_path(r"\\198.51.100.100\Shared"),
        AccessContext::RemoteSmb
    );
}

#[test]
fn access_context_for_long_path_unc_is_remote_smb() {
    assert_eq!(
        AccessContext::for_path(r"\\?\UNC\server\share\folder"),
        AccessContext::RemoteSmb
    );
}

#[test]
fn access_context_for_local_path_is_local_interactive() {
    assert_eq!(
        AccessContext::for_path(r"C:\Windows"),
        AccessContext::LocalInteractive
    );
    assert_eq!(
        AccessContext::for_path(r"D:\Data\file.txt"),
        AccessContext::LocalInteractive
    );
}

#[test]
fn access_context_for_long_path_local_is_local_interactive() {
    assert_eq!(
        AccessContext::for_path(r"\\?\C:\very\long\path"),
        AccessContext::LocalInteractive
    );
}

#[test]
fn access_context_for_path_with_smb_forces_remote_when_smb_server_given() {
    assert_eq!(
        AccessContext::for_path_with_smb(r"C:\TestShare", Some("fs01"), None),
        AccessContext::RemoteSmb
    );
}

#[test]
fn access_context_for_path_with_smb_forces_remote_when_share_name_given() {
    assert_eq!(
        AccessContext::for_path_with_smb(r"D:\data", None, Some("Data")),
        AccessContext::RemoteSmb
    );
}

#[test]
fn access_context_for_path_with_smb_keeps_unc_as_remote() {
    assert_eq!(
        AccessContext::for_path_with_smb(r"\\server\share", None, None),
        AccessContext::RemoteSmb
    );
}

#[test]
fn access_context_for_path_with_smb_keeps_local_when_no_smb_hint() {
    assert_eq!(
        AccessContext::for_path_with_smb(r"C:\Windows", None, None),
        AccessContext::LocalInteractive
    );
}

#[test]
fn access_context_for_path_with_smb_ignores_empty_smb_hints() {

    assert_eq!(
        AccessContext::for_path_with_smb(r"C:\Windows", Some(""), Some("")),
        AccessContext::LocalInteractive
    );
}

#[test]
fn privileged_group_role_matches_builtin_aliases() {
    assert_eq!(
        privileged_group_role(&Sid("S-1-5-32-544".into())),
        Some("Administrators")
    );
    assert_eq!(
        privileged_group_role(&Sid("S-1-5-32-551".into())),
        Some("Backup Operators")
    );
}

#[test]
fn privileged_group_role_matches_domain_rids_independent_of_domain() {

    assert_eq!(
        privileged_group_role(&Sid("S-1-5-21-111-222-333-512".into())),
        Some("Domain Admins")
    );
    assert_eq!(
        privileged_group_role(&Sid("S-1-5-21-9-8-7-512".into())),
        Some("Domain Admins")
    );
    assert_eq!(
        privileged_group_role(&Sid("S-1-5-21-1-2-3-519".into())),
        Some("Enterprise Admins")
    );
}

#[test]
fn privileged_group_role_rejects_non_privileged_and_builtin_users() {

    assert_eq!(privileged_group_role(&Sid("S-1-5-32-545".into())), None);
    assert_eq!(
        privileged_group_role(&Sid("S-1-5-21-1-2-3-513".into())),
        None
    );

    assert_eq!(
        privileged_group_role(&Sid("S-1-5-21-1-2-3-1104".into())),
        None
    );

    assert_eq!(privileged_group_role(&Sid("S-1-1-0".into())), None);
}

#[test]
fn membership_report_privileged_collects_only_privileged_groups() {
    let report = MembershipReport {
        identity: Identity {
            sid: Sid("S-1-5-21-1-2-3-1104".into()),
            name: Some("alice".into()),
            domain: Some("CORP".into()),
            kind: IdentityKind::User,
            disabled: false,
            user_principal_name: None,
            sid_history_count: 0,
            sid_history: Vec::new(),
        },
        ad_connected: true,
        memberships: vec![
            GroupMembership {
                member_sid: Sid("S-1-5-21-1-2-3-1104".into()),
                group_sid: Sid("S-1-5-21-1-2-3-512".into()),
                direct: false,
                group_name: Some("Domain Admins".into()),
                path: None,
                group_sid_history_count: 0,
                group_sid_history: Vec::new(),
            },
            GroupMembership {
                member_sid: Sid("S-1-5-21-1-2-3-1104".into()),
                group_sid: Sid("S-1-5-21-1-2-3-513".into()),
                direct: true,
                group_name: Some("Domain Users".into()),
                path: None,
                group_sid_history_count: 0,
                group_sid_history: Vec::new(),
            },
        ],
        diagnostics: vec![],
    };
    let privileged = report.privileged();
    assert_eq!(privileged.len(), 1);
    assert_eq!(privileged[0].1, "Domain Admins");
}

fn gm_with_history(group_sid: &str, count: usize, parsed: &[&str]) -> GroupMembership {
    GroupMembership {
        member_sid: Sid("S-1-5-21-1-2-3-1104".into()),
        group_sid: Sid(group_sid.into()),
        direct: true,
        group_name: None,
        path: None,
        group_sid_history_count: count,
        group_sid_history: parsed.iter().map(|s| Sid((*s).into())).collect(),
    }
}

#[test]
fn group_sid_history_diagnostics_splits_evaluated_and_unevaluated() {
    let memberships = vec![
        gm_with_history(
            "S-1-5-21-1-2-3-512",
            2,
            &["S-1-5-21-9-9-9-1", "S-1-5-21-9-9-9-2"],
        ),
        gm_with_history("S-1-5-21-1-2-3-513", 2, &["S-1-5-21-9-9-9-3"]),
        gm_with_history("S-1-5-21-1-2-3-514", 0, &[]),
    ];
    let d = group_sid_history_diagnostics(&memberships);
    assert!(
        d.contains(&PermissionDiagnostic::GroupSidHistoryEvaluated {
            groups: 2,
            count: 3
        }),
        "3 parsed values across 2 groups must be evaluated: {d:?}"
    );
    assert!(
        d.contains(&PermissionDiagnostic::GroupSidHistoryPresent { count: 1 }),
        "1 unparsed value must stay visible: {d:?}"
    );
}

#[test]
fn group_sid_history_diagnostics_deduplicates_by_group_sid() {

    let memberships = vec![
        gm_with_history("S-1-5-21-1-2-3-512", 1, &["S-1-5-21-9-9-9-1"]),
        gm_with_history("S-1-5-21-1-2-3-512", 1, &["S-1-5-21-9-9-9-1"]),
    ];
    let d = group_sid_history_diagnostics(&memberships);
    assert!(
        d.contains(&PermissionDiagnostic::GroupSidHistoryEvaluated {
            groups: 1,
            count: 1
        }),
        "duplicate membership entries must not inflate counts: {d:?}"
    );
}

#[test]
fn group_sid_history_diagnostics_silent_without_history() {
    let memberships = vec![gm_with_history("S-1-5-21-1-2-3-512", 0, &[])];
    assert!(
        group_sid_history_diagnostics(&memberships).is_empty(),
        "no history → no markers (no false positives)"
    );
}

fn member(sid: &str, name: &str, kind: IdentityKind, via: MemberVia) -> MemberNode {
    MemberNode {
        identity: Identity {
            sid: Sid(sid.into()),
            name: Some(name.into()),
            domain: Some("CORP".into()),
            kind,
            disabled: false,
            user_principal_name: None,
            sid_history_count: 0,
            sid_history: Vec::new(),
        },
        via,
        children: vec![],
    }
}

fn members_report(members: Vec<MemberNode>) -> GroupMembersReport {
    GroupMembersReport {
        group: Identity {
            sid: Sid("S-1-5-21-1-2-3-513".into()),
            name: Some("Domain Users".into()),
            domain: Some("CORP".into()),
            kind: IdentityKind::Group,
            disabled: false,
            user_principal_name: None,
            sid_history_count: 0,
            sid_history: Vec::new(),
        },
        members,
        diagnostics: vec![],
    }
}

#[test]
fn member_via_labels_are_stable() {
    assert_eq!(MemberVia::Direct.label(), "direct");
    assert_eq!(MemberVia::PrimaryGroup.label(), "via primaryGroupID");
}

#[test]
fn direct_counts_splits_total_and_primary_group() {
    let report = members_report(vec![
        member(
            "S-1-5-21-1-2-3-1104",
            "alice",
            IdentityKind::User,
            MemberVia::Direct,
        ),
        member(
            "S-1-5-21-1-2-3-1105",
            "bob",
            IdentityKind::User,
            MemberVia::PrimaryGroup,
        ),
        member(
            "S-1-5-21-1-2-3-1106",
            "carol",
            IdentityKind::User,
            MemberVia::PrimaryGroup,
        ),
    ]);
    let (total, via_primary) = report.direct_counts();
    assert_eq!(total, 3);
    assert_eq!(via_primary, 2);
}

#[test]
fn privileged_members_flags_nested_privileged_group() {
    let report = members_report(vec![
        member(
            "S-1-5-21-1-2-3-1104",
            "alice",
            IdentityKind::User,
            MemberVia::Direct,
        ),

        member(
            "S-1-5-21-1-2-3-512",
            "Domain Admins",
            IdentityKind::Group,
            MemberVia::Direct,
        ),
    ]);
    let priv_members = report.privileged_members();
    assert_eq!(priv_members.len(), 1);
    assert_eq!(priv_members[0].1, "Domain Admins");
}

#[test]
fn primary_group_inclusion_marker_is_neutral_and_not_incompleteness() {
    let d = PermissionDiagnostic::MembersViaPrimaryGroupIncluded { count: 2000 };
    assert_eq!(d.severity(), DiagnosticSeverity::Neutral);
    assert!(
        !d.is_incompleteness_trigger(),
        "primary-group members were included, not missed"
    );
    assert!(d.summary().contains("2000"));
}

#[test]
fn members_view_rejection_wording_by_kind() {
    let identity = |kind: IdentityKind| Identity {
        sid: Sid("S-1-5-21-1-2-3-500".into()),
        name: Some("x".into()),
        domain: None,
        kind,
        disabled: false,
        user_principal_name: None,
        sid_history_count: 0,
        sid_history: Vec::new(),
    };

    assert!(members_view_rejection(&identity(IdentityKind::Group)).is_none());

    let user_msg = members_view_rejection(&identity(IdentityKind::User)).unwrap();
    assert!(user_msg.contains("not a group"), "{user_msg}");

    let unknown_msg = members_view_rejection(&identity(IdentityKind::Unknown)).unwrap();
    assert!(
        unknown_msg.contains("could not be resolved"),
        "{unknown_msg}"
    );
    assert!(!unknown_msg.contains("Unknown"), "{unknown_msg}");
}

#[test]
fn universal_group_marker_is_neutral_but_incompleteness_trigger() {
    let d = PermissionDiagnostic::UniversalGroupCrossDomainMembersNotVisible;
    assert_eq!(d.severity(), DiagnosticSeverity::Neutral);
    assert!(d.is_incompleteness_trigger());
    assert!(d.summary().contains("universal"));
}

#[test]
fn member_enumeration_incomplete_marker_is_concern_and_incompleteness() {
    let d = PermissionDiagnostic::GroupMemberEnumerationIncomplete {
        reason: "LDAP page read failed".into(),
    };
    assert_eq!(d.severity(), DiagnosticSeverity::Concern);
    assert!(d.is_incompleteness_trigger());
    assert!(d.summary().contains("LDAP page read failed"));
}

