use adpa::analysis::AnalysisResult;
use adpa::error::CoreError;
use adpa::export::html::{render_html, write_permissions_table, write_risk_table};
use adpa::export::target::ExportTarget;
use adpa::model::access::{
    AccessMask, EffectivePermission, LocalGroupEvalStatus, PermissionPath, ShareEvalStatus,
};
use adpa::model::diagnostic::PermissionDiagnostic;
use adpa::model::identity::{Identity, IdentityKind};
use adpa::model::rights::{NormalizedRights, RightsTable};
use adpa::model::scan::{RiskFinding, RiskSeverity};
use adpa::model::sid::{NormalizedPath, Sid};

const MASK_READ: u32 = 0x0012_0089;
const MASK_FULL_CONTROL: u32 = 0x001F_01FF;

fn rights() -> RightsTable {
    let mut table = RightsTable::new();
    table.insert(
        MASK_READ,
        NormalizedRights {
            raw: MASK_READ,
            full_control: false,
            modify: false,
            read: true,
            write: false,
            display_name: "Read".to_owned(),
            description: "Read (0x00120089)".to_owned(),
        },
    );
    table.insert(
        MASK_FULL_CONTROL,
        NormalizedRights {
            raw: MASK_FULL_CONTROL,
            full_control: true,
            modify: true,
            read: true,
            write: true,
            display_name: "Full Control".to_owned(),
            description: "Full Control (0x001F01FF)".to_owned(),
        },
    );
    table
}

fn finding(rule_id: &str, sev: RiskSeverity, incomplete: bool) -> RiskFinding {
    RiskFinding {
        rule_id: rule_id.to_owned(),
        severity: sev,
        description: "desc".to_owned(),
        affected_path: Some(NormalizedPath("C:\\Test".to_owned())),
        affected_identity: Some(Sid("S-1-5-21-1-2-3-1000".to_owned())),
        incomplete,
    }
}

fn perm() -> EffectivePermission {
    EffectivePermission {
        identity: Identity {
            sid: Sid("S-1-5-21-1-2-3-1000".to_owned()),
            name: Some("test.user".to_owned()),
            domain: Some("TESTDOMAIN".to_owned()),
            kind: IdentityKind::User,
            disabled: false,
            user_principal_name: None,
            sid_history_count: 0,
            sid_history: vec![],
        },
        path: NormalizedPath("C:\\Test".to_owned()),
        ntfs_mask: AccessMask(0x0012_0089),
        share_mask: None,
        effective_mask: AccessMask(0x0012_0089),
        path_explanation: PermissionPath { steps: vec![] },
        share_status: ShareEvalStatus::NotApplicable,
        local_group_status: LocalGroupEvalStatus::NotQueried,
        contributing_sids: vec![],
        unsupported_ace_count: 0,
        matched_aces: vec![],
        diagnostics: vec![],
    }
}

#[test]
fn incomplete_finding_renders_incomplete_badge() {
    let mut s = String::new();
    write_risk_table(&mut s, &[finding("WRITE_ACCESS", RiskSeverity::High, true)])
        .expect("write_risk_table must succeed");
    assert!(
        s.contains("incomplete"),
        "incomplete finding must be visibly flagged in HTML, got: {s}"
    );
}

#[test]
fn complete_finding_renders_confirmed_badge() {
    let mut s = String::new();
    write_risk_table(
        &mut s,
        &[finding("WRITE_ACCESS", RiskSeverity::High, false)],
    )
    .expect("write_risk_table must succeed");
    assert!(
        s.contains("confirmed"),
        "complete finding must show confirmed marker, got: {s}"
    );
    assert!(
        !s.contains("incomplete"),
        "complete finding must not show incomplete marker"
    );
}

#[test]
fn permissions_table_dash_when_no_diagnostics() {
    let mut s = String::new();
    write_permissions_table(&mut s, &[perm()], &rights()).unwrap();

    assert!(
        s.contains("<td>—</td>"),
        "must show dash for clean row, got: {s}"
    );
    assert!(!s.contains("non-canonical"));
    assert!(!s.contains("local groups unavailable"));
}

#[test]
fn permissions_table_renders_non_canonical_dacl_badge() {
    let mut p = perm();
    p.diagnostics = vec![PermissionDiagnostic::NonCanonicalDaclOrder { at_index: 2 }];
    let mut s = String::new();
    write_permissions_table(&mut s, &[p], &rights()).unwrap();
    assert!(
        s.contains("non-canonical DACL"),
        "must render non-canonical badge, got: {s}"
    );
    assert!(
        s.contains("at index 2"),
        "tooltip must mention the offending ACE index, got: {s}"
    );
}

#[test]
fn permissions_table_renders_local_group_failure_badge() {
    let mut p = perm();
    p.local_group_status =
        LocalGroupEvalStatus::NotAvailable("RPC server unavailable".to_owned());
    let mut s = String::new();
    write_permissions_table(&mut s, &[p], &rights()).unwrap();
    assert!(
        s.contains("local groups unavailable"),
        "must render local-group failure badge, got: {s}"
    );
    assert!(
        s.contains("RPC server unavailable"),
        "tooltip must include the failure reason, got: {s}"
    );
}

#[test]
fn permissions_table_renders_combined_diagnostics() {
    let mut p = perm();
    p.unsupported_ace_count = 2;
    p.share_status = ShareEvalStatus::ReadFailed("access denied".to_owned());
    p.local_group_status =
        LocalGroupEvalStatus::NotAvailable("RPC server unavailable".to_owned());
    p.diagnostics = vec![
        PermissionDiagnostic::NonCanonicalDaclOrder { at_index: 0 },
        PermissionDiagnostic::UnsupportedShareAces { count: 5 },
    ];
    let mut s = String::new();
    write_permissions_table(&mut s, &[p], &rights()).unwrap();
    assert!(s.contains("2 unsupported ACE(s)"));
    assert!(s.contains("share DACL unreadable"));
    assert!(s.contains("local groups unavailable"));
    assert!(s.contains("non-canonical DACL"));
    assert!(s.contains("5 unsupported share ACE(s)"));
}

#[test]
fn html_summary_includes_diagnostics_card() {

    let mut clean = perm();
    clean.path = NormalizedPath("C:\\Clean".to_owned());

    let mut flagged = perm();
    flagged.path = NormalizedPath("C:\\Flagged".to_owned());
    flagged.diagnostics = vec![PermissionDiagnostic::NonCanonicalDaclOrder { at_index: 0 }];

    let result = AnalysisResult {
        permissions: vec![clean, flagged],
        risk_findings: vec![],
        ..Default::default()
    };

    let html = render_html(&result, &rights(), &rights(), "2026-01-02 03:04 UTC").expect("render_html must succeed");
    assert!(
        html.contains(">Diagnostics<"),
        "summary must contain a Diagnostics card label, got: {html}"
    );

    assert!(
        html.contains("<div class=\"num\">1</div><div class=\"lbl\">Diagnostics</div>"),
        "Diagnostics card must report count 1, got: {html}"
    );
}

#[test]
fn permissions_table_renders_unsupported_share_aces_badge() {
    let mut p = perm();
    p.diagnostics = vec![PermissionDiagnostic::UnsupportedShareAces { count: 3 }];
    let mut s = String::new();
    write_permissions_table(&mut s, &[p], &rights()).unwrap();
    assert!(
        s.contains("3 unsupported share ACE(s)"),
        "must render unsupported-share-ACE badge with count, got: {s}"
    );
    assert!(
        s.contains("share mask is"),
        "tooltip must mention that the share mask may be incomplete"
    );
}

#[test]
fn html_refuses_overwrite_unless_explicitly_allowed() {
    let path = "C:\\Temp\\adpa_html_overwrite.html";
    let careful = ExportTarget::File(path.to_owned());
    let mode = careful.open_mode();
    assert!(mode.create_new && !mode.truncate, "File branch must refuse an existing file");
    assert!(matches!(careful.open_error("The file exists."), CoreError::Export(_)));

    let overwriting = ExportTarget::FileOverwrite(path.to_owned());
    let mode = overwriting.open_mode();
    assert!(mode.create && mode.truncate && !mode.create_new);
    let result = AnalysisResult::default();
    let after_overwrite = render_html(&result, &rights(), &rights(), "2026-01-02 03:04 UTC")
        .expect("FileOverwrite branch must succeed");
    assert!(
        after_overwrite.contains("<html"),
        "FileOverwrite must replace sentinel content with HTML report"
    );
}
