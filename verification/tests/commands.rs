use adpa::ad::config::TlsMode;
use adpa::ad::principal::{
    DisabledStatus, GroupResolutionStatus, IdentityScopeStatus, PrincipalResolution,
};
use adpa::ad::sam::SamResolution;
use adpa::cli::evaluation::{
    applied_mask, evaluation_input, known_members, local_group_outcome, share_outcome, warnings,
    Command, EvaluationContext, LocalGroups, ShareScan,
};
use adpa::cli::identity::{
    plan_connection, resolution_of_sid_only, resolution_via_sam, LdapOptions,
};
use adpa::cli::inputs::{
    check_overwrite_policy, classify_user, export_format, export_note, export_target,
    validate_connection_inputs, Checked, ExportFormat, ExportPathStatus, UserInput,
};
use adpa::error::CoreError;
use adpa::model::access::{AccessMask, FileSystemObject, LocalGroupEvalStatus, ShareMaskStatus};
use adpa::model::diagnostic::PermissionDiagnostic;
use adpa::model::identity::{AccessContext, Identity, IdentityKind};
use adpa::model::membership::GroupMembership;
use adpa::model::sid::{NormalizedPath, Sid};
use vstd::hash_map::StringHashMap;

fn good(raw: &str) -> Option<Checked> {
    Some(Checked {
        raw: raw.to_owned(),
        outcome: Ok(raw.trim().to_owned()),
    })
}

fn bad(raw: &str, reason: &str) -> Option<Checked> {
    Some(Checked {
        raw: raw.to_owned(),
        outcome: Err(reason.to_owned()),
    })
}

fn identity(name: Option<&str>) -> Identity {
    Identity {
        sid: Sid("S-1-5-21-1-2-3-1000".into()),
        name: name.map(str::to_owned),
        domain: Some("CORP".into()),
        kind: IdentityKind::User,
        disabled: false,
        user_principal_name: None,
        sid_history_count: 0,
        sid_history: vec![],
    }
}

fn group(sid: &str, name: Option<&str>) -> GroupMembership {
    GroupMembership {
        member_sid: Sid("S-1-5-21-1-2-3-1000".into()),
        group_sid: Sid(sid.into()),
        direct: true,
        group_name: name.map(str::to_owned),
        path: None,
        group_sid_history_count: 0,
        group_sid_history: vec![],
    }
}

#[test]
fn each_refused_input_is_named() {
    let cases = [
        (bad("x", "no host"), None, None, None, None, "Invalid LDAP server: no host"),
        (None, bad("x", "no DN"), None, None, None, "Invalid base DN: no DN"),
        (None, None, bad("x", "no DN"), None, None, "Invalid bind DN: no DN"),
        (None, None, None, bad("s", "no host"), good("share"), "Invalid SMB server: no host"),
        (None, None, None, good("s"), bad("?", "no name"), "Invalid share name: no name"),
        (
            None,
            None,
            None,
            None,
            good("share"),
            "SMB context incomplete: --share-name set but --smb-server missing. Provide both or neither.",
        ),
    ];
    for (server, base, bind, smb, share, message) in cases {
        assert_eq!(
            validate_connection_inputs(server, base, bind, smb, share).unwrap_err(),
            message
        );
    }
}

#[test]
fn an_earlier_input_is_refused_first() {
    let r = validate_connection_inputs(
        bad("x", "no host"),
        bad("x", "no DN"),
        None,
        good("server"),
        None,
    );
    assert_eq!(r.unwrap_err(), "Invalid LDAP server: no host");
}

#[test]
fn a_sid_is_told_from_a_name_by_its_start() {
    assert!(matches!(classify_user("  S-1-5-18 "), UserInput::Sid(s) if s == "S-1-5-18"));
    assert!(matches!(classify_user(" CORP\\anna "), UserInput::Name(s) if s == "CORP\\anna"));
    assert!(matches!(classify_user("s-1-5-18"), UserInput::Name(_)));
}

#[test]
fn an_existing_report_is_replaced_with_a_warning_only() {
    let exists = ExportPathStatus::Exists("out.csv".into());
    assert_eq!(
        check_overwrite_policy(&exists, false).unwrap_err(),
        "Export file already exists: out.csv. Pass --force to overwrite it."
    );
    assert_eq!(
        check_overwrite_policy(&exists, true).unwrap().unwrap(),
        "[Warning] --force: overwriting existing export file: out.csv"
    );
    assert!(check_overwrite_policy(&ExportPathStatus::New("out.csv".into()), true)
        .unwrap()
        .is_none());
}

#[test]
fn the_extension_picks_the_format() {
    assert_eq!(export_format(Some("HTML")), ExportFormat::Html);
    assert_eq!(export_format(Some("Json")), ExportFormat::Json);
    assert_eq!(export_format(Some("csv")), ExportFormat::Csv);
    assert_eq!(export_format(Some("htm")), ExportFormat::Csv);
    assert_eq!(export_format(None), ExportFormat::Csv);
    assert!(!export_target("a".into(), false).open_mode().truncate);
    assert!(export_target("a".into(), true).open_mode().truncate);
    assert_eq!(export_target("a".into(), true).path(), "a");
}

#[test]
fn only_csv_leaves_findings_out() {
    assert!(export_note(ExportFormat::Csv, 1)
        .unwrap()
        .starts_with("[Note] CSV export does not include risk findings"));
    assert!(export_note(ExportFormat::Csv, 0).is_none());
    assert!(export_note(ExportFormat::Html, 1).is_none());
    assert!(export_note(ExportFormat::Json, 1).is_none());
}

fn options() -> LdapOptions {
    LdapOptions {
        server: "dc01".into(),
        base_dn: Some("DC=corp,DC=local".into()),
        bind_dn: Some("CN=reader".into()),
        bind_password: None,
        env_password: Some("from-env".into()),
        insecure_ldap: false,
        global_catalog: false,
    }
}

#[test]
fn a_connection_names_what_it_misses() {
    let mut o = options();
    o.base_dn = None;
    assert!(plan_connection(o)
        .err()
        .unwrap()
        .starts_with("--base-dn is required when --server is specified"));
    let mut o = options();
    o.bind_dn = None;
    assert_eq!(
        plan_connection(o).err().unwrap(),
        "--bind-dn is required when --server is specified (e.g. CN=Administrator,CN=Users,DC=corp,DC=local)"
    );
    let mut o = options();
    o.env_password = None;
    assert!(plan_connection(o)
        .err()
        .unwrap()
        .starts_with("ADPA_BIND_PASSWORD environment variable is required"));
}

#[test]
fn ports_follow_catalog_and_encryption() {
    for (global_catalog, insecure_ldap, port) in [
        (false, false, 636),
        (false, true, 389),
        (true, false, 3269),
        (true, true, 3268),
    ] {
        let mut o = options();
        o.global_catalog = global_catalog;
        o.insecure_ldap = insecure_ldap;
        let plan = plan_connection(o).ok().unwrap();
        assert_eq!(plan.config.port, port);
        assert_eq!(plan.config.global_catalog, global_catalog);
        assert_eq!(plan.config.tls_mode == TlsMode::Insecure, insecure_ldap);
        assert_eq!(plan.warnings.len(), insecure_ldap as usize);
    }
}

#[test]
fn weak_settings_are_warned_of() {
    let mut o = options();
    o.bind_password = Some("on-the-line".into());
    o.insecure_ldap = true;
    let plan = plan_connection(o).ok().unwrap();
    assert_eq!(plan.warnings.len(), 2);
    assert!(plan.warnings[0].starts_with("[WARNING] --bind-password is DEPRECATED"));
    assert!(plan.warnings[1].starts_with("[WARNING] --insecure-ldap"));
    assert!(plan.warnings.iter().all(|w| !w.contains("on-the-line")));
}

#[test]
fn a_catalog_can_be_searched_without_a_base() {
    let mut o = options();
    o.base_dn = None;
    o.global_catalog = true;
    assert_eq!(plan_connection(o).ok().unwrap().config.base_dn, "");
}

#[test]
fn the_account_database_gives_flat_groups() {
    let mut who = identity(Some("anna"));
    who.disabled = true;
    let r = resolution_via_sam(SamResolution {
        identity: who.clone(),
        memberships: vec![group("S-1-5-32-544", None)],
        disabled_known: true,
    });
    assert_eq!(r.group_resolution_status, GroupResolutionStatus::SamFlat);
    assert_eq!(r.disabled_status, DisabledStatus::Known(true));
    assert_eq!(r.diagnostics, vec![PermissionDiagnostic::IdentityDisabled]);
    let r = resolution_via_sam(SamResolution {
        identity: who,
        memberships: vec![],
        disabled_known: false,
    });
    assert_eq!(r.disabled_status, DisabledStatus::Unknown);
    assert_eq!(
        r.diagnostics,
        vec![PermissionDiagnostic::IdentityDisabledStatusUnknown]
    );
}

#[test]
fn without_any_lookup_only_a_sid_is_accepted() {
    let r = resolution_of_sid_only(" S-1-5-18 ").ok().unwrap();
    assert_eq!(r.identity.name.as_deref(), Some("S-1-5-18"));
    assert_eq!(r.scope_status, IdentityScopeStatus::OrphanedSid);
    assert_eq!(
        resolution_of_sid_only("anna").err().unwrap(),
        "Without --server, --user must be a SID (S-1-5-...). Use --server to resolve sAMAccountNames."
    );
}

#[test]
fn known_members_have_names() {
    let known = known_members(
        &identity(Some("anna")),
        &vec![group("S-1-5-32-544", Some("Administrators")), group("S-1-5-32-545", None)],
    );
    let texts: Vec<(&str, &str)> = known.iter().map(|k| (k.0 .0.as_str(), k.1.as_str())).collect();
    assert_eq!(
        texts,
        vec![("S-1-5-21-1-2-3-1000", "anna"), ("S-1-5-32-544", "Administrators")]
    );
    assert!(known_members(&identity(None), &vec![]).is_empty());
}

#[test]
fn a_failure_on_the_server_does_not_end_the_analysis() {
    let ok = local_group_outcome(Ok(vec![group("S-1-5-32-544", None)]));
    assert_eq!(ok.sids[0].0, "S-1-5-32-544");
    assert!(matches!(ok.status, LocalGroupEvalStatus::Applied));
    let failed = local_group_outcome(Err(CoreError::AccessDenied("srv".into())));
    assert!(failed.sids.is_empty() && failed.memberships.is_empty());
    assert!(matches!(failed.status, LocalGroupEvalStatus::NotAvailable(m) if m == "Access denied: srv"));
}

#[test]
fn a_share_without_a_dacl_is_unrestricted() {
    assert!(matches!(share_outcome(None), (ShareMaskStatus::NotApplicable, 0)));
    let failed = share_outcome(Some(Err("down".into())));
    assert!(matches!(failed, (ShareMaskStatus::ReadFailed(m), 0) if m == "down"));
    let open = share_outcome(Some(Ok(ShareScan {
        mask: None,
        unsupported_count: 2,
    })));
    assert!(matches!(open, (ShareMaskStatus::Unrestricted, 2)));
    assert!(applied_mask(&open.0).is_none());
    let set = share_outcome(Some(Ok(ShareScan {
        mask: Some(AccessMask(0x1F01FF)),
        unsupported_count: 0,
    })));
    assert_eq!(applied_mask(&set.0), Some(AccessMask(0x1F01FF)));
}

#[test]
fn incomplete_results_are_warned_of() {
    let local = LocalGroupEvalStatus::NotAvailable("denied".into());
    let share = ShareMaskStatus::ReadFailed("down".into());
    assert_eq!(
        warnings(Command::Analyze, &local, &share, 3),
        vec![
            "[Warning] Local server groups could not be resolved — result is incomplete (token may miss local-group SIDs). (denied)",
            "[Warning] Share DACL could not be read — result is incomplete (effective_mask reflects NTFS only). (down)",
            "[Warning] 3 share ACE(s) of unsupported type were skipped — share mask may be incomplete.",
        ]
    );
    assert!(warnings(Command::Scan, &local, &share, 3)[1].contains("scan results are incomplete"));
    assert!(warnings(
        Command::Scan,
        &LocalGroupEvalStatus::Applied,
        &ShareMaskStatus::Unrestricted,
        0
    )
    .is_empty());
}

#[test]
fn domain_groups_come_before_local_ones() {
    let resolution = PrincipalResolution {
        sid: Sid("S-1-5-21-1-2-3-1000".into()),
        identity: identity(Some("anna")),
        memberships: vec![group("S-1-5-21-1-2-3-513", None)],
        scope_status: IdentityScopeStatus::LookupFailed {
            reason: "down".into(),
        },
        group_resolution_status: GroupResolutionStatus::SamFlat,
        disabled_status: DisabledStatus::Unknown,
        diagnostics: vec![],
        resolved_via_fsp: true,
        resolved_via_global_catalog: false,
    };
    let context = EvaluationContext {
        resolution,
        local_groups: LocalGroups {
            sids: vec![Sid("S-1-5-32-544".into())],
            memberships: vec![group("S-1-5-32-544", None)],
            status: LocalGroupEvalStatus::Applied,
        },
        share_status: ShareMaskStatus::Unrestricted,
        unsupported_share_ace_count: 4,
        access_context: AccessContext::RemoteSmb,
    };
    let fso = FileSystemObject {
        path: NormalizedPath("C:\\Data".into()),
        is_directory: true,
        owner_sid: None,
        dacl: vec![],
        inheritance_disabled: false,
        is_reparse_point: false,
        unsupported_aces: vec![],
        null_dacl: false,
        sd_hash: None,
    };
    let input = evaluation_input(&context, fso, StringHashMap::new());
    let groups: Vec<&str> = input.group_memberships.iter().map(|m| m.group_sid.0.as_str()).collect();
    assert_eq!(groups, vec!["S-1-5-21-1-2-3-513", "S-1-5-32-544"]);
    assert_eq!(input.local_group_sids[0].0, "S-1-5-32-544");
    assert_eq!(input.identity_lookup_failure_reason.as_deref(), Some("down"));
    assert!(input.identity_disabled_status_unknown);
    assert!(input.group_resolution_via_sam_fallback);
    assert!(input.identity_resolved_via_fsp);
    assert!(!input.group_resolution_via_global_catalog);
    assert_eq!(input.unsupported_share_ace_count, 4);
}
