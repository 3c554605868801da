use adpa::cli::report::{report_lines, risk_findings_lines};
use adpa::cli::scan::{heavy, light, scan_header_lines, scan_summary_lines, ScanProgress};
use adpa::error::CoreError;
use adpa::fs::walker::WalkError;
use adpa::model::access::{
    AccessMask, AceEntry, AceKind, EffectivePermission, FileSystemObject, LocalGroupEvalStatus,
    PermissionPath, ShareEvalStatus, UnsupportedAce,
};
use adpa::model::diagnostic::PermissionDiagnostic;
use adpa::model::identity::{Identity, IdentityKind};
use adpa::model::membership::GroupMembership;
use adpa::model::rights::{NormalizedRights, RightsTable};
use adpa::model::scan::{RiskFinding, RiskSeverity};
use adpa::model::sid::{NormalizedPath, Sid};
use adpa::model::trustee::PathTrustees;

const READ: u32 = 0x0012_0089;

fn read_rights() -> NormalizedRights {
    NormalizedRights {
        raw: READ,
        full_control: false,
        modify: false,
        read: true,
        write: false,
        display_name: "Read".to_owned(),
        description: "Read (0x00120089)".to_owned(),
    }
}

fn anna() -> Identity {
    Identity {
        sid: Sid("S-1-5-21-1-2-3-1000".into()),
        name: Some("anna".into()),
        domain: Some("CORP".into()),
        kind: IdentityKind::User,
        disabled: false,
        user_principal_name: None,
        sid_history_count: 0,
        sid_history: vec![],
    }
}

fn permission(unsupported_ace_count: usize) -> EffectivePermission {
    EffectivePermission {
        identity: anna(),
        path: NormalizedPath("C:\\Data".into()),
        ntfs_mask: AccessMask(READ),
        share_mask: None,
        effective_mask: AccessMask(READ),
        path_explanation: PermissionPath {
            steps: vec!["first".into(), "second".into()],
        },
        share_status: ShareEvalStatus::NotApplicable,
        local_group_status: LocalGroupEvalStatus::NotQueried,
        contributing_sids: vec![],
        unsupported_ace_count,
        matched_aces: vec![],
        diagnostics: vec![],
    }
}

fn ace(kind: AceKind, inherited: bool) -> AceEntry {
    AceEntry {
        kind,
        sid: Sid("S-1-5-32-545".into()),
        mask: AccessMask(READ),
        inherited,
        inheritance_flags: 0,
        propagation_flags: 0,
    }
}

fn object(dacl: Vec<AceEntry>, null_dacl: bool) -> FileSystemObject {
    FileSystemObject {
        path: NormalizedPath("C:\\Data".into()),
        is_directory: true,
        owner_sid: Some(Sid("S-1-5-32-544".into())),
        dacl,
        inheritance_disabled: false,
        is_reparse_point: false,
        unsupported_aces: vec![],
        null_dacl,
        sd_hash: None,
    }
}

fn table() -> RightsTable {
    let mut t = RightsTable::new();
    t.insert(READ, read_rights());
    t
}

#[test]
fn a_report_shows_every_section_in_order() {
    let mut p = permission(0);
    p.matched_aces = vec![ace(AceKind::Allow, true)];
    let groups = [GroupMembership {
        member_sid: Sid("S-1-5-21-1-2-3-1000".into()),
        group_sid: Sid("S-1-5-32-545".into()),
        direct: false,
        group_name: None,
        path: None,
        group_sid_history_count: 0,
        group_sid_history: vec![],
    }];
    let fso = object(vec![ace(AceKind::Allow, true), ace(AceKind::Deny, false)], false);
    let lines = report_lines(&fso, "anna", &p, &groups, true, &table());
    let rule = format!("  {}", light());
    let expected = vec![
        String::new(),
        heavy(),
        "  AD Permission Analyzer  ·  Effective Rights Report".to_owned(),
        heavy(),
        String::new(),
        "  Identity".to_owned(),
        rule.clone(),
        "  Path      : C:\\Data".to_owned(),
        "  User      : CORP\\anna".to_owned(),
        "            : (S-1-5-21-1-2-3-1000)".to_owned(),
        "  Status    : Active  ·  Kind: User".to_owned(),
        String::new(),
        "  Resolved Groups (1)".to_owned(),
        rule.clone(),
        "  [transitive]  S-1-5-32-545".to_owned(),
        String::new(),
        "  DACL  —  C:\\Data".to_owned(),
        rule.clone(),
        "  Owner       : S-1-5-32-544".to_owned(),
        "  Inheritance : Active (inheriting from parent)".to_owned(),
        String::new(),
        format!("  {:5}  {:8}  {:10}  SID", "Kind", "Scope", "Rights"),
        rule.clone(),
        format!("  Allow  inherited  {:13}  S-1-5-32-545", "Read"),
        format!("  DENY   explicit   {:13}  S-1-5-32-545", "Read"),
        String::new(),
        "  Matching ACEs (for this identity)".to_owned(),
        rule.clone(),
        "  Allow [inherited]  S-1-5-32-545  →  Read (0x00120089)".to_owned(),
        String::new(),
        "  Effective Rights".to_owned(),
        rule.clone(),
        "  NTFS    : Read (0x00120089)".to_owned(),
        "  Share   : (not specified)".to_owned(),
        "  Result  : Read (0x00120089)".to_owned(),
        String::new(),
        "  Explanation Path".to_owned(),
        rule,
        "  1. first".to_owned(),
        "  2. second".to_owned(),
        String::new(),
        heavy(),
        String::new(),
    ];
    assert_eq!(lines, expected);
}

#[test]
fn a_report_says_what_is_uncertain() {
    let mut p = permission(1);
    p.diagnostics = vec![PermissionDiagnostic::IdentityLookupFailed {
        reason: "down".into(),
    }];
    p.identity.name = None;
    p.identity.domain = None;
    p.identity.disabled = true;
    let mut fso = object(vec![], true);
    fso.owner_sid = None;
    fso.inheritance_disabled = true;
    fso.unsupported_aces = vec![UnsupportedAce {
        ace_type: 5,
        flags: 3,
        mask: 0x10,
    }];
    let lines = report_lines(&fso, "given", &p, &[], false, &table());
    for line in [
        "  User      : given",
        "  Status    : DISABLED  ·  Kind: User",
        "  [!] No AD connection — group memberships not resolved.",
        "  Owner       : (unknown)",
        "  Inheritance : Protected (inheritance disabled)",
        "  (NULL DACL — unrestricted / Full Control for everyone)",
        "  [!] 1 ACE(s) on this path could not be interpreted.",
        "  5          0x03     0x00000010",
        "  Diagnostics (structured)",
        "  [!] LDAP identity lookup failed: down.",
        "  (none)",
    ] {
        assert!(lines.iter().any(|l| l == line), "no line {line:?} in {lines:#?}");
    }
    assert!(!lines.iter().any(|l| l.contains("Resolved Groups")));
}

#[test]
fn every_marker_is_explained_on_the_console() {
    let markers = vec![
        PermissionDiagnostic::NonCanonicalDaclOrder { at_index: 7 },
        PermissionDiagnostic::UnsupportedShareAces { count: 7 },
        PermissionDiagnostic::UnsupportedNtfsAces { count: 7 },
        PermissionDiagnostic::DomainGroupRecursionIncomplete,
        PermissionDiagnostic::IdentityDisabled,
        PermissionDiagnostic::IdentityNotInConfiguredLdapBase,
        PermissionDiagnostic::IdentityDisabledStatusUnknown,
        PermissionDiagnostic::GroupResolutionFailed { reason: "why".into() },
        PermissionDiagnostic::OwnerRightsAceApplied,
        PermissionDiagnostic::IdentityResolvedViaForeignSecurityPrincipal,
        PermissionDiagnostic::GroupResolutionViaGlobalCatalog,
        PermissionDiagnostic::PersistedEvidenceDecodeFailed { detail: "why".into() },
        PermissionDiagnostic::SidHistoryPresent { count: 7 },
        PermissionDiagnostic::TrustBoundaryEffectsNotModeled,
    ];
    let plain = report_lines(&object(vec![], false), "u", &permission(0), &[], true, &table());
    for m in markers {
        let mut p = permission(0);
        p.diagnostics = vec![m.clone()];
        let lines = report_lines(&object(vec![], false), "u", &p, &[], true, &table());
        assert!(lines.len() > plain.len() + 3, "no explanation of {m:?}");
        assert!(lines.iter().any(|l| l.starts_with("  [i] ") || l.starts_with("  [!] ")));
    }
}

#[test]
fn findings_show_severity_and_doubt() {
    let finding = |severity, incomplete, path: Option<&str>| RiskFinding {
        rule_id: "WRITE_ACCESS".into(),
        severity,
        description: "desc".into(),
        affected_path: path.map(|p| NormalizedPath(p.into())),
        affected_identity: None,
        incomplete,
    };
    let lines = risk_findings_lines(&[
        finding(RiskSeverity::Critical, true, Some("C:\\Data")),
        finding(RiskSeverity::Low, false, None),
    ]);
    assert_eq!(
        lines[1..],
        [
            "  Risk Findings (2)".to_owned(),
            format!("  {}", light()),
            format!("  [CRITICAL]  {:20}  desc  [INCOMPLETE]", "WRITE_ACCESS"),
            "              C:\\Data".to_owned(),
            format!("  [LOW     ]  {:20}  desc", "WRITE_ACCESS"),
            "              (no path)".to_owned(),
        ]
    );
    assert_eq!(risk_findings_lines(&[])[3], "  (none)");
}

#[test]
fn a_scan_counts_what_it_meets() {
    let mut scan = ScanProgress::new();
    let trustees = || PathTrustees {
        path: NormalizedPath("C:\\Data".into()),
        trustees: vec![],
    };
    assert_eq!(
        scan.on_result(trustees(), permission(0), &read_rights()),
        format!("  {:14}  C:\\Data", "Read")
    );
    assert_eq!(
        scan.on_result(trustees(), permission(2), &read_rights()),
        format!("  {:14}  C:\\Data  [!2 unsupported ACE(s)]", "Read")
    );
    let error = WalkError {
        path: "C:\\Closed".into(),
        error: CoreError::AccessDenied("C:\\Closed".into()),
    };
    assert_eq!(
        scan.on_error(&error),
        "  [Error]         C:\\Closed: Access denied: C:\\Closed"
    );
    assert_eq!(scan.permissions.len(), 2);
    assert_eq!(scan.path_trustees.len(), 2);
    assert_eq!(scan.unsupported_ace_paths, 1);
    assert_eq!(scan.walk_errors, 1);
    assert!(scan.finish(false).is_empty());
    assert_eq!(scan.errors.len(), 1);
    assert_eq!(
        scan.finish(true),
        vec!["", "  [Aborted] Scan cancelled by user — results are partial."]
    );
    assert_eq!(scan.errors.len(), 2);
    assert!(scan.errors[1].path.is_none());
    assert_eq!(scan.errors[1].message, "Scan cancelled by user — results are partial");
    assert_eq!(scan.walk_errors, 1);
}

#[test]
fn a_scan_shows_where_it_starts_and_ends() {
    let rights = read_rights();
    let lines = scan_header_lines("C:\\Data", &anna(), false, Some(3), "run-1", Some((&rights, READ)));
    assert_eq!(lines[4], "  Identity  : CORP\\anna  (S-1-5-21-1-2-3-1000)");
    assert_eq!(lines[6], "  Max depth : 3");
    assert_eq!(lines[7], "  Share mask: Read (0x00120089)");
    assert_eq!(lines[8], "  Scan ID   : run-1");
    assert_eq!(lines[9], "  [!] No AD connection — group memberships not resolved.");
    assert_eq!(lines[11], format!("  {:14}  Path", "Rights"));
    let plain = scan_header_lines("C:\\Data", &anna(), true, None, "run-1", None);
    assert_eq!(plain[6], "  Max depth : unlimited");
    assert_eq!(plain.len(), lines.len() - 2);

    let end = scan_summary_lines(12, 3, 1, 4567, Some("scan.db"), "run-1");
    assert_eq!(
        end[2..8],
        [
            "  Paths scanned : 12",
            "  Errors        : 3",
            "  [!] Unsupported : 1 path(s) had ACE types that could not be evaluated — results may be incomplete.",
            "  Duration      : 4567 ms",
            "  Database      : scan.db",
            "  Scan ID       : run-1",
        ]
    );
    let back = scan_summary_lines(0, 0, 0, i64::MIN, None, "run-1");
    assert_eq!(back[4], "  Duration      : -9223372036854775808 ms");
    assert_eq!(back.len(), end.len() - 3);
}
