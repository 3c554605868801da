use adpa::error::CoreError;
use adpa::model::diagnostic::{DiagnosticSeverity, PermissionDiagnostic};
use adpa::model::identity::{AccessContext, Identity, IdentityKind};
use adpa::model::membership::{
    group_sid_history_diagnostics, privileged_group_role, GroupMembership, MembershipPath,
    MembershipPathSource,
};
use adpa::model::sid::{NormalizedPath, Sid};
use adpa::model::trust::{TrustAttributes, TrustDirection};

#[test]
fn every_error_says_what_failed() {
    let m = || "x".to_string();
    let expected = [
        (CoreError::AdConnection(m()), "AD connection error: x"),
        (CoreError::LdapQuery(m()), "LDAP query error: x"),
        (CoreError::SidResolution(m()), "SID resolution error: x"),
        (CoreError::AccessDenied(m()), "Access denied: x"),
        (CoreError::PathNotFound(m()), "Path not found: x"),
        (CoreError::InvalidSecurityDescriptor(m()), "Invalid security descriptor: x"),
        (CoreError::UnsupportedAceType(m()), "Unsupported ACE type: x"),
        (CoreError::ShareEnumeration(m()), "Share enumeration error: x"),
        (CoreError::Database(m()), "Database error: x"),
        (CoreError::Export(m()), "Export error: x"),
        (CoreError::Cancelled, "Cancellation requested"),
        (CoreError::Validation(m()), "Validation error: x"),
        (CoreError::ReparseCycle(m()), "Reparse cycle: x"),
        (CoreError::ReparseDuplicateTarget(m()), "Duplicate reparse target: x"),
    ];
    for (error, text) in &expected {
        assert_eq!(error.message(), *text);
    }
}

fn fault(input: &str) -> String {
    Sid::try_new(input).unwrap_err().message()
}

#[test]
fn a_malformed_sid_is_rejected_with_its_reason() {
    assert_eq!(fault("   "), "Validation error: SID must not be empty");
    assert_eq!(
        fault(" s-1-5-18 "),
        "Validation error: Invalid SID format (must start with 'S-1-'): s-1-5-18"
    );
    assert_eq!(
        fault("S-1-5"),
        "Validation error: SID has too few components (minimum S-1-X-Y): S-1-5"
    );
    assert_eq!(
        fault("S-1-5-x-y"),
        "Validation error: SID contains non-numeric component 'x': S-1-5-x-y"
    );
    assert_eq!(
        fault("S-1-5-"),
        "Validation error: SID contains non-numeric component '': S-1-5-"
    );
    assert!(Sid::is_valid_syntax("S-1-5-18446744073709551615"));
    assert!(!Sid::is_valid_syntax("S-1-5-18446744073709551616"));
    assert!(Sid::is_valid_syntax("\u{2003}S-1-5-+18\u{85}"));
}

#[test]
fn a_valid_sid_is_read_again_unchanged() {
    let once = Sid::try_new("  S-1-5-32-544\t").unwrap();
    let twice = Sid::try_new(&once.0).unwrap();
    assert_eq!(once.0, twice.0);
}

#[test]
fn a_path_with_a_control_character_is_rejected_by_its_code() {
    assert_eq!(
        NormalizedPath::try_new("C:\\a\u{7f}b").unwrap_err().message(),
        "Validation error: Path contains an invalid control character (U+007F)"
    );
    assert_eq!(
        NormalizedPath::try_new(" \t ").unwrap_err().message(),
        "Validation error: Path must not be empty"
    );
    assert_eq!(NormalizedPath::new_unchecked("\0").0, "\0");
}

#[test]
fn markers_are_worded_on_one_line_and_show_what_they_carry() {
    let d = PermissionDiagnostic::GroupResolutionFailed {
        reason: "timeout".into(),
    };
    assert_eq!(
        d.summary(),
        "Recursive group resolution failed or was skipped (timeout); ACEs on domain groups may be missing."
    );
    assert!(!d.summary().contains('\n'));
    assert_eq!(d.severity(), DiagnosticSeverity::Concern);
    let d = PermissionDiagnostic::GroupSidHistoryEvaluated {
        groups: 2,
        count: 31,
    };
    assert!(d.summary().starts_with("31 historical SID(s) (sIDHistory) carried by 2 token group(s)"));
    assert_eq!(
        PermissionDiagnostic::UnsupportedShareAces { count: 1 }.severity(),
        DiagnosticSeverity::Notice
    );
}

fn identity(kind: IdentityKind) -> Identity {
    Identity {
        sid: Sid("S-1-5-21-1-2-3-1000".into()),
        name: None,
        domain: None,
        kind,
        disabled: false,
        user_principal_name: None,
        sid_history_count: 0,
        sid_history: vec![],
    }
}

#[test]
fn all_historical_sids_are_accounted_for() {
    let mut i = identity(IdentityKind::User);
    assert!(i.sid_history_diagnostics().is_empty());
    i.sid_history_count = 3;
    i.sid_history = vec![Sid("S-1-5-21-9-9-9-1".into())];
    assert_eq!(
        i.sid_history_diagnostics(),
        vec![
            PermissionDiagnostic::SidHistoryEvaluated { count: 1 },
            PermissionDiagnostic::SidHistoryPresent { count: 2 },
        ]
    );
    i.sid_history_count = 0;
    assert_eq!(
        i.sid_history_diagnostics(),
        vec![PermissionDiagnostic::SidHistoryEvaluated { count: 1 }]
    );
}

fn membership(direct: bool, path: Option<MembershipPath>) -> GroupMembership {
    GroupMembership {
        member_sid: Sid("S-1-5-21-1-2-3-1000".into()),
        group_sid: Sid("S-1-5-21-1-2-3-2000".into()),
        direct,
        group_name: None,
        path,
        group_sid_history_count: 1,
        group_sid_history: vec![Sid("S-1-5-21-9-9-9-1".into())],
    }
}

fn path(source: MembershipPathSource, complete: bool) -> Option<MembershipPath> {
    Some(MembershipPath {
        nodes: vec![Sid("U".into()), Sid("A".into()), Sid("B".into())],
        names: vec![Some("user".into()), None],
        source,
        complete,
    })
}

#[test]
fn the_origin_of_a_membership_is_named() {
    assert_eq!(membership(true, None).origin_label(), "direct");
    assert_eq!(membership(false, None).origin_label(), "nested");
    assert_eq!(
        membership(true, path(MembershipPathSource::PrimaryGroup, true)).origin_label(),
        "primary group"
    );
    assert_eq!(
        membership(false, path(MembershipPathSource::LocalGroup, true)).origin_label(),
        "local group"
    );
    assert_eq!(
        membership(false, path(MembershipPathSource::DomainGroup, true)).origin_label(),
        "via user \u{2192} A \u{2192} B"
    );
    assert_eq!(
        membership(false, path(MembershipPathSource::LdapMatchingRule, false)).origin_label(),
        "via user \u{2192} A \u{2192} B (chain not fully reconstructed)"
    );
}

#[test]
fn a_group_that_is_listed_again_does_not_count_again() {
    let once = group_sid_history_diagnostics(&[membership(true, None)]);
    let twice = group_sid_history_diagnostics(&[membership(true, None), membership(false, None)]);
    assert_eq!(once, twice);
    assert_eq!(
        once,
        vec![PermissionDiagnostic::GroupSidHistoryEvaluated {
            groups: 1,
            count: 1
        }]
    );
}

#[test]
fn a_role_rests_on_the_last_component_alone() {
    assert_eq!(privileged_group_role(&Sid("S-1-5-21-518".into())), Some("Schema Admins"));
    assert_eq!(privileged_group_role(&Sid("S-1-5-21-7-7-7-527".into())), Some("Enterprise Key Admins"));
    assert_eq!(privileged_group_role(&Sid("S-1-5-22-7-7-7-512".into())), None);
    assert_eq!(privileged_group_role(&Sid("S-1-5-32-549".into())), Some("Server Operators"));
}

#[test]
fn trusts_are_labelled_from_the_lowest_bit_up() {
    assert_eq!(TrustDirection::from_code(0).label(), "disabled");
    assert_eq!(TrustDirection::from_code(1).label(), "inbound");
    assert_eq!(TrustDirection::from_code(2).label(), "outbound");
    assert_eq!(TrustDirection::from_code(3).label(), "bidirectional");
    assert_eq!(
        TrustAttributes::from_bits(0xffff_ffff).labels(),
        vec![
            "non-transitive",
            "uplevel-only",
            "SID-filtering (quarantined)",
            "forest-transitive",
            "selective-authentication",
            "within-forest",
            "treat-as-external",
            "uses-RC4",
            "no-TGT-delegation",
            "PIM-trust",
        ]
    );
}

#[test]
fn a_share_path_is_remote_in_either_form() {
    assert_eq!(AccessContext::for_path("\\\\?\\UNC/server"), AccessContext::RemoteSmb);
    assert_eq!(AccessContext::for_path(""), AccessContext::LocalInteractive);
    assert_eq!(
        AccessContext::for_path_with_smb("C:\\x", Some(" "), None),
        AccessContext::RemoteSmb
    );
}
