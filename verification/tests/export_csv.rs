use adpa::error::CoreError;
use adpa::export::csv::write_csv;
use adpa::export::target::ExportTarget;
use adpa::model::access::{
    AccessMask, AceEntry, AceKind, ContributingAce, EffectivePermission, LocalGroupEvalStatus,
    PermissionPath, ShareEvalStatus,
};
use adpa::model::diagnostic::PermissionDiagnostic;
use adpa::model::identity::{Identity, IdentityKind};
use adpa::model::rights::{NormalizedRights, RightsTable};
use adpa::model::sid::{NormalizedPath, Sid};

const MASK_READ: u32 = 0x0012_0089;
const MASK_FULL_CONTROL: u32 = 0x001F_01FF;

fn rights() -> RightsTable {
    let mut table = RightsTable::new();
    table.insert(
        MASK_READ,
        NormalizedRights {
            raw: MASK_READ,
            full_control: false,
            modify: false,
            read: true,
            write: false,
            display_name: "Read".to_owned(),
            description: "Read (0x00120089)".to_owned(),
        },
    );
    table.insert(
        MASK_FULL_CONTROL,
        NormalizedRights {
            raw: MASK_FULL_CONTROL,
            full_control: true,
            modify: true,
            read: true,
            write: true,
            display_name: "Full Control".to_owned(),
            description: "Full Control (0x001F01FF)".to_owned(),
        },
    );
    table
}

fn make_perm(
    path: &str,
    sid: &str,
    name: &str,
    ntfs: u32,
    share: Option<u32>,
    effective: u32,
    steps: Vec<&str>,
) -> EffectivePermission {
    EffectivePermission {
        identity: Identity {
            sid: Sid(sid.to_owned()),
            name: if name.is_empty() {
                None
            } else {
                Some(name.to_owned())
            },
            domain: Some("TESTDOMAIN".to_owned()),
            kind: IdentityKind::User,
            disabled: false,
            user_principal_name: None,
            sid_history_count: 0,
            sid_history: vec![],
        },
        path: NormalizedPath(path.to_owned()),
        ntfs_mask: AccessMask(ntfs),
        share_mask: share.map(AccessMask),
        effective_mask: AccessMask(effective),
        path_explanation: PermissionPath {
            steps: steps.iter().map(|s| s.to_string()).collect(),
        },
        share_status: ShareEvalStatus::NotApplicable,
        local_group_status: LocalGroupEvalStatus::NotQueried,
        contributing_sids: vec![],
        unsupported_ace_count: 0,
        matched_aces: vec![],
        diagnostics: vec![],
    }
}

fn parse_csv(bytes: &[u8]) -> Vec<Vec<String>> {
    let mut rdr = csv::Reader::from_reader(bytes);
    let headers: Vec<String> = rdr.headers().unwrap().iter().map(str::to_owned).collect();
    let mut rows = vec![headers];
    for record in rdr.records() {
        rows.push(record.unwrap().iter().map(str::to_owned).collect());
    }
    rows
}

#[test]
fn headers_match_expected() {
    let mut buf = String::new();
    write_csv(&mut buf, &[], &rights()).unwrap();
    let rows = parse_csv(buf.as_bytes());
    assert_eq!(rows.len(), 1, "only header row for empty input");
    assert_eq!(rows[0][0], "path");
    assert_eq!(rows[0][1], "user_sid");
    assert_eq!(rows[0].len(), 20);
    assert_eq!(rows[0][13], "unsupported_aces");
    assert_eq!(rows[0][14], "share_status");

    assert_eq!(rows[0][15], "local_group_status");
    assert_eq!(rows[0][16], "local_group_error");
    assert_eq!(rows[0][17], "matched_aces_json");
    assert_eq!(rows[0][18], "contributing_sids_json");

    assert_eq!(rows[0][19], "diagnostics_json");
}

#[test]
fn share_status_read_failed_appears_in_csv() {
    let mut perm = make_perm(
        "C:\\Share",
        "S-1-5-21-1-2-3-1000",
        "User",
        MASK_READ,
        None,
        MASK_READ,
        vec![],
    );
    perm.share_status =
        ShareEvalStatus::ReadFailed("access denied (5)".to_owned());
    let mut buf = String::new();
    write_csv(&mut buf, &[perm], &rights()).unwrap();
    let rows = parse_csv(buf.as_bytes());
    assert!(
        rows[1][14].starts_with("read_failed:"),
        "share_status must surface ReadFailed; got '{}'",
        rows[1][14]
    );
}

#[test]
fn unsupported_ace_count_written_to_csv() {
    let mut perm = make_perm(
        "C:\\Share\\Folder",
        "S-1-5-21-1-2-3-1000",
        "User",
        MASK_READ,
        None,
        MASK_READ,
        vec![],
    );
    perm.unsupported_ace_count = 2;
    let mut buf = String::new();
    write_csv(&mut buf, &[perm], &rights()).unwrap();
    let rows = parse_csv(buf.as_bytes());
    assert_eq!(rows[1][13], "2", "unsupported ACE count must appear in CSV");
}

#[test]
fn single_permission_produces_data_row() {
    let perm = make_perm(
        "C:\\Share\\Folder",
        "S-1-5-21-1-2-3-1000",
        "MaxMustermann",
        MASK_READ,
        None,
        MASK_READ,
        vec!["User has Read via inherited Allow ACE"],
    );
    let mut buf = String::new();
    write_csv(&mut buf, &[perm], &rights()).unwrap();
    let rows = parse_csv(buf.as_bytes());
    assert_eq!(rows.len(), 2);
    let row = &rows[1];
    assert_eq!(row[0], "C:\\Share\\Folder");
    assert_eq!(row[1], "S-1-5-21-1-2-3-1000");
    assert_eq!(row[2], "MaxMustermann");
    assert_eq!(row[3], "TESTDOMAIN");
    assert_eq!(row[4], "User");
    assert_eq!(row[5], "false");
    assert_eq!(row[7], "Read");
    assert_eq!(row[8], "(none)");
    assert_eq!(row[9], "(none)");
    assert_eq!(row[11], "Read");
    assert_eq!(row[12], "User has Read via inherited Allow ACE");
}

#[test]
fn share_mask_written_when_present() {
    let perm = make_perm(
        "C:\\Share",
        "S-1-5-21-1-2-3-1000",
        "User",
        MASK_FULL_CONTROL,
        Some(MASK_READ),
        MASK_READ,
        vec![],
    );
    let mut buf = String::new();
    write_csv(&mut buf, &[perm], &rights()).unwrap();
    let rows = parse_csv(buf.as_bytes());
    let row = &rows[1];
    assert_eq!(row[7], "Full Control");
    assert_eq!(row[9], "Read");
    assert_eq!(row[11], "Read");
}

#[test]
fn multiple_explanation_steps_joined_with_pipe() {
    let perm = make_perm(
        "C:\\Data",
        "S-1-5-21-1-2-3-500",
        "Admin",
        MASK_READ,
        None,
        MASK_READ,
        vec!["step one", "step two", "step three"],
    );
    let mut buf = String::new();
    write_csv(&mut buf, &[perm], &rights()).unwrap();
    let rows = parse_csv(buf.as_bytes());
    assert_eq!(rows[1][12], "step one | step two | step three");
}

#[test]
fn multiple_permissions_produce_multiple_rows() {
    let perms: Vec<_> = (0..5)
        .map(|i| {
            make_perm(
                &format!("C:\\Folder{i}"),
                &format!("S-1-5-21-1-2-3-{}", 1000 + i),
                "User",
                MASK_READ,
                None,
                MASK_READ,
                vec![],
            )
        })
        .collect();
    let mut buf = String::new();
    write_csv(&mut buf, &perms, &rights()).unwrap();
    let rows = parse_csv(buf.as_bytes());
    assert_eq!(rows.len(), 6);
}

#[test]
fn empty_name_written_as_empty_field() {
    let perm = make_perm(
        "C:\\X",
        "S-1-5-21-1-2-3-999",
        "",
        MASK_READ,
        None,
        MASK_READ,
        vec![],
    );
    let mut buf = String::new();
    write_csv(&mut buf, &[perm], &rights()).unwrap();
    let rows = parse_csv(buf.as_bytes());
    assert_eq!(rows[1][2], "");
}

#[test]
fn local_group_status_applied_serialized_correctly() {
    let mut perm = make_perm(
        "C:\\Share",
        "S-1-5-21-1-2-3-1000",
        "User",
        MASK_READ,
        None,
        MASK_READ,
        vec![],
    );
    perm.local_group_status = LocalGroupEvalStatus::Applied;
    let mut buf = String::new();
    write_csv(&mut buf, &[perm], &rights()).unwrap();
    let rows = parse_csv(buf.as_bytes());
    assert_eq!(rows[1][15], "applied");
    assert_eq!(rows[1][16], "", "no error text for Applied");
}

#[test]
fn local_group_status_not_available_records_reason_separately() {
    let mut perm = make_perm(
        "C:\\Share",
        "S-1-5-21-1-2-3-1000",
        "User",
        MASK_READ,
        None,
        MASK_READ,
        vec![],
    );
    perm.local_group_status = LocalGroupEvalStatus::NotAvailable(
        "RPC server unavailable".to_owned(),
    );
    let mut buf = String::new();
    write_csv(&mut buf, &[perm], &rights()).unwrap();
    let rows = parse_csv(buf.as_bytes());
    assert_eq!(rows[1][15], "not_available");
    assert_eq!(rows[1][16], "RPC server unavailable");
}

#[test]
fn matched_aces_serialized_as_compact_json_array() {
    let mut perm = make_perm(
        "C:\\Share",
        "S-1-5-21-1-2-3-1000",
        "User",
        MASK_READ,
        None,
        MASK_READ,
        vec![],
    );
    perm.matched_aces = vec![
        AceEntry {
            kind: AceKind::Allow,
            sid: Sid("S-1-5-21-1-2-3-1000".to_owned()),
            mask: AccessMask(0x0012_0089),
            inherited: false,
            inheritance_flags: 0,
            propagation_flags: 0,
        },
        AceEntry {
            kind: AceKind::Deny,
            sid: Sid("S-1-1-0".to_owned()),
            mask: AccessMask(0x0002_0000),
            inherited: true,
            inheritance_flags: 0,
            propagation_flags: 0,
        },
    ];
    let mut buf = String::new();
    write_csv(&mut buf, &[perm], &rights()).unwrap();
    let rows = parse_csv(buf.as_bytes());
    let json: serde_json::Value =
        serde_json::from_str(&rows[1][17]).expect("matched_aces_json must be valid JSON");
    assert_eq!(json.as_array().map(|a| a.len()), Some(2));
    assert_eq!(json[0]["sid"], "S-1-5-21-1-2-3-1000");
    assert_eq!(json[0]["kind"], "Allow");
    assert_eq!(json[0]["mask"], "0x00120089");
    assert_eq!(json[0]["inherited"], false);
    assert_eq!(json[1]["kind"], "Deny");
    assert_eq!(json[1]["inherited"], true);
}

#[test]
fn contributing_sids_serialized_as_compact_json_array() {
    let mut perm = make_perm(
        "C:\\Share",
        "S-1-5-21-1-2-3-1000",
        "User",
        MASK_READ,
        None,
        MASK_READ,
        vec![],
    );
    perm.contributing_sids = vec![ContributingAce {
        sid: Sid("S-1-5-21-1-2-3-1100".to_owned()),
        mask: AccessMask(0x0012_0089),
    }];
    let mut buf = String::new();
    write_csv(&mut buf, &[perm], &rights()).unwrap();
    let rows = parse_csv(buf.as_bytes());
    let json: serde_json::Value =
        serde_json::from_str(&rows[1][18]).expect("contributing_sids_json must be valid JSON");
    assert_eq!(json.as_array().map(|a| a.len()), Some(1));
    assert_eq!(json[0]["sid"], "S-1-5-21-1-2-3-1100");
    assert_eq!(json[0]["mask"], "0x00120089");
}

#[test]
fn diagnostics_serialized_as_tagged_json() {

    let mut perm = make_perm(
        "C:\\Share",
        "S-1-5-21-1-2-3-1000",
        "User",
        MASK_READ,
        None,
        MASK_READ,
        vec![],
    );
    perm.diagnostics = vec![PermissionDiagnostic::NonCanonicalDaclOrder { at_index: 2 }];
    let mut buf = String::new();
    write_csv(&mut buf, &[perm], &rights()).unwrap();
    let rows = parse_csv(buf.as_bytes());
    let json: serde_json::Value =
        serde_json::from_str(&rows[1][19]).expect("diagnostics_json must be valid JSON");
    assert_eq!(json.as_array().map(|a| a.len()), Some(1));
    assert_eq!(json[0]["kind"], "NonCanonicalDaclOrder");
    assert_eq!(json[0]["at_index"], 2);
}

#[test]
fn empty_diagnostics_yield_empty_json_array() {
    let perm = make_perm(
        "C:\\Share",
        "S-1-5-21-1-2-3-1000",
        "User",
        MASK_READ,
        None,
        MASK_READ,
        vec![],
    );
    let mut buf = String::new();
    write_csv(&mut buf, &[perm], &rights()).unwrap();
    let rows = parse_csv(buf.as_bytes());
    assert_eq!(rows[1][19], "[]");
}

#[test]
fn empty_matched_aces_and_contributing_sids_yield_empty_json_arrays() {

    let perm = make_perm(
        "C:\\Share",
        "S-1-5-21-1-2-3-1000",
        "User",
        MASK_READ,
        None,
        MASK_READ,
        vec![],
    );
    let mut buf = String::new();
    write_csv(&mut buf, &[perm], &rights()).unwrap();
    let rows = parse_csv(buf.as_bytes());
    assert_eq!(rows[1][17], "[]");
    assert_eq!(rows[1][18], "[]");
}

#[test]
fn file_export_creates_file_with_correct_content() {
    let perm = make_perm(
        "C:\\TestPath",
        "S-1-5-21-1-2-3-1001",
        "TestUser",
        MASK_READ,
        None,
        MASK_READ,
        vec!["Test step"],
    );
    let mut content = String::new();
    write_csv(&mut content, &[perm], &rights()).unwrap();
    assert!(content.contains("path,user_sid"));
    assert!(content.contains("C:\\TestPath"));
    assert!(content.contains("TestUser"));
    assert!(content.contains("Test step"));
}

#[test]
fn file_export_invalid_dir_returns_export_error() {
    let target = ExportTarget::File("Z:\\nonexistent\\adpa_test.csv".to_owned());
    let err = target.open_error("The system cannot find the path specified.");
    assert!(matches!(err, CoreError::Export(_)));
}

#[test]
fn csv_refuses_overwrite_unless_explicitly_allowed() {
    let path = "C:\\Temp\\adpa_csv_overwrite.csv";
    let careful = ExportTarget::File(path.to_owned());
    let mode = careful.open_mode();
    assert!(mode.create_new && !mode.truncate, "File branch must refuse an existing file");
    let refusal = careful.open_error("The file exists.");
    assert!(matches!(refusal, CoreError::Export(_)));

    let overwriting = ExportTarget::FileOverwrite(path.to_owned());
    let mode = overwriting.open_mode();
    assert!(mode.create && mode.truncate && !mode.create_new);
    let mut after_overwrite = String::new();
    write_csv(&mut after_overwrite, &[], &rights()).expect("FileOverwrite branch must succeed");
    assert!(
        after_overwrite.contains("user_sid") && after_overwrite.contains("path"),
        "FileOverwrite must replace sentinel content with CSV header (got: {after_overwrite:?})"
    );
}
