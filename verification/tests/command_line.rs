use adpa::cli::inputs::{
    check_overwrite_policy, validate_connection_inputs, Checked, ExportPathStatus,
};
use adpa::cli::report::dacl_state_label;

#[test]
fn null_dacl_is_full_control() {
    assert_eq!(
        dacl_state_label(true, true),
        Some("(NULL DACL — unrestricted / Full Control for everyone)")
    );
    assert_eq!(
        dacl_state_label(true, false),
        Some("(NULL DACL — unrestricted / Full Control for everyone)")
    );
}

#[test]
fn empty_dacl_is_deny_all_only_without_null() {
    assert_eq!(
        dacl_state_label(false, true),
        Some("(empty DACL — no access)")
    );
}

#[test]
fn populated_dacl_returns_none() {
    assert_eq!(dacl_state_label(false, false), None);
}

fn validated() -> String {
    "C:\\reports\\out.csv".to_owned()
}

#[test]
fn existing_export_without_force_is_rejected() {
    let status = ExportPathStatus::Exists(validated());
    assert!(
        check_overwrite_policy(&status, false).is_err(),
        "an existing file must not be overwritten without --force"
    );
}

#[test]
fn existing_export_with_force_is_allowed() {
    let status = ExportPathStatus::Exists(validated());
    assert!(check_overwrite_policy(&status, true).is_ok());
}

#[test]
fn new_export_is_allowed_without_force() {
    let status = ExportPathStatus::New(validated());
    assert!(check_overwrite_policy(&status, false).is_ok());
}

/// An input that is valid once it is trimmed.
fn valid(raw: &str) -> Option<Checked> {
    Some(Checked {
        raw: raw.to_owned(),
        outcome: Ok(raw.trim().to_owned()),
    })
}

#[test]
fn validate_connection_inputs_returns_trimmed_normalized_values() {
    let result = validate_connection_inputs(
        valid("  dc.example  "),
        valid("  DC=corp,DC=local  "),
        valid("  CN=admin,DC=corp,DC=local  "),
        valid("  fileserver.example  "),
        valid("  data  "),
    )
    .expect("valid whitespace-padded inputs must pass");
    assert_eq!(result.server.as_deref(), Some("dc.example"));
    assert_eq!(result.base_dn.as_deref(), Some("DC=corp,DC=local"));
    assert_eq!(result.bind_dn.as_deref(), Some("CN=admin,DC=corp,DC=local"));
    assert_eq!(result.smb_server.as_deref(), Some("fileserver.example"));
    assert_eq!(result.share_name.as_deref(), Some("data"));
}

#[test]
fn validate_connection_inputs_rejects_half_set_smb_pair() {
    let err = validate_connection_inputs(None, None, None, valid("fileserver.example"), None)
        .expect_err("--smb-server without --share-name must error");
    assert!(err.contains("SMB context incomplete"));
}

#[test]
fn validate_connection_inputs_treats_empty_smb_strings_as_unset() {
    let result = validate_connection_inputs(None, None, None, valid("   "), valid(""))
        .expect("empty strings count as unset");
    assert!(result.smb_server.is_none());
    assert!(result.share_name.is_none());
}
