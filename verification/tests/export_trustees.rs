use adpa::error::CoreError;
use adpa::export::target::ExportTarget;
use adpa::export::trustees::{
    build_path_trustees_with_share, build_path_trustees_with_share_and_names,
    collect_ace_sids_for_resolution, ShareTrusteeOverlay,
};
use adpa::ad::sam::{AccountInfo, SidNameResolver};
use adpa::model::access::{AccessMask, AceEntry, AceKind, FileSystemObject};
use adpa::model::identity::IdentityKind;
use adpa::model::sid::{NormalizedPath, Sid};
use adpa::model::trustee::{PathTrustee, PathTrusteeEntry, TrusteeCategory};

fn ace(sid: &str, kind: AceKind, mask: u32, inherited: bool) -> AceEntry {
    AceEntry {
        sid: Sid(sid.to_owned()),
        kind,
        mask: AccessMask(mask),
        inherited,
        inheritance_flags: 0,
        propagation_flags: 0,
    }
}

fn fso(dacl: Vec<AceEntry>) -> FileSystemObject {
    FileSystemObject {
        path: NormalizedPath(r"C:\Test".to_owned()),
        is_directory: true,
        owner_sid: None,
        dacl,
        inheritance_disabled: false,
        is_reparse_point: false,
        unsupported_aces: Vec::new(),
        null_dacl: false,
        sd_hash: None,
    }
}

#[test]
fn ntfs_only_yields_all_ntfs_trustees() {
    let f = fso(vec![
        ace("S-1-5-32-544", AceKind::Allow, 0x001F01FF, true),
        ace("S-1-5-21-1-2-3-1000", AceKind::Allow, 0x00120089, false),
        ace("S-1-5-21-1-2-3-1001", AceKind::Deny, 0x00100000, false),
    ]);
    let trustees = build_path_trustees_with_share(&f, None, vec![]);
    assert_eq!(trustees.len(), 3, "all NTFS ACEs must surface as trustees");
    assert!(
        trustees
            .iter()
            .all(|t| matches!(t.category(), TrusteeCategory::Ntfs)),
        "without overlay no Share-category entry must appear"
    );
    let sids: Vec<&str> = trustees
        .iter()
        .filter_map(|t| match t {
            PathTrusteeEntry::Ace(a) => Some(a.sid.0.as_str()),
            _ => None,
        })
        .collect();
    assert_eq!(
        sids,
        vec!["S-1-5-32-544", "S-1-5-21-1-2-3-1000", "S-1-5-21-1-2-3-1001"]
    );
}

#[test]
fn null_dacl_yields_typed_diagnostic_not_synthetic_ace() {
    let f = FileSystemObject {
        path: NormalizedPath(r"C:\Loose".to_owned()),
        is_directory: false,
        owner_sid: None,
        dacl: vec![],
        inheritance_disabled: false,
        is_reparse_point: false,
        unsupported_aces: Vec::new(),
        null_dacl: true,
        sd_hash: None,
    };
    let trustees = build_path_trustees_with_share(&f, None, vec![]);
    assert_eq!(trustees.len(), 1, "exactly one diagnostic for NULL DACL");
    match &trustees[0] {
        PathTrusteeEntry::Ace(_) => panic!(
            "NULL DACL must be a typed Diagnostic, not a synthetic Allow ACE"
        ),
        PathTrusteeEntry::Diagnostic { category, message } => {
            assert_eq!(*category, TrusteeCategory::Ntfs);
            assert!(
                message.contains("NULL DACL"),
                "diagnostic must explain itself, got: {message}"
            );
        }
    }
}

#[test]
fn share_overlay_is_appended_to_ntfs_trustees() {
    let f = fso(vec![ace("S-1-5-32-544", AceKind::Allow, 0x001F01FF, true)]);
    let overlay = ShareTrusteeOverlay {
        trustees: vec![PathTrusteeEntry::Ace(PathTrustee {
            sid: Sid("S-1-1-0".to_owned()),
            display_name: Some("Everyone (share read)".to_owned()),
            kind: AceKind::Allow,
            mask: AccessMask(0x00120089),
            inherited: false,
            inheritance_flags: 0,
            propagation_flags: 0,
            category: TrusteeCategory::Share,
        })],
    };
    let trustees = build_path_trustees_with_share(&f, Some(&overlay), vec![]);
    assert_eq!(trustees.len(), 2);
    assert_eq!(trustees[0].category(), TrusteeCategory::Ntfs);
    assert_eq!(trustees[1].category(), TrusteeCategory::Share);
    if let PathTrusteeEntry::Ace(ace) = &trustees[1] {
        assert_eq!(ace.sid.0, "S-1-1-0");
    } else {
        panic!("share overlay entry must be an Ace, got diagnostic");
    }
}

#[test]
fn caller_owned_map_sets_display_names() {
    let f = fso(vec![
        ace("S-1-5-32-544", AceKind::Allow, 0x001F01FF, true),
        ace("S-1-5-21-1-2-3-1000", AceKind::Allow, 0x00120089, false),
    ]);
    let mut resolver = SidNameResolver::new(&[]);
    resolver.resolve(vec![answer("S-1-5-32-544", "BUILTIN\\Administrators")]);
    resolver.resolve(vec![answer("S-1-5-21-1-2-3-1000", "TESTDOMAIN\\alice")]);

    let trustees = build_path_trustees_with_share_and_names(&f, None, resolver.map());
    assert_eq!(trustees.len(), 2);
    if let PathTrusteeEntry::Ace(ace) = &trustees[0] {
        assert_eq!(ace.display_name.as_deref(), Some("BUILTIN\\Administrators"));
    } else {
        panic!("first entry must be Ace");
    }
    if let PathTrusteeEntry::Ace(ace) = &trustees[1] {
        assert_eq!(ace.display_name.as_deref(), Some("TESTDOMAIN\\alice"));
    } else {
        panic!("second entry must be Ace");
    }
}

#[test]
fn caller_owned_map_does_not_touch_diagnostics() {
    let f = FileSystemObject {
        path: NormalizedPath(r"C:\Loose".to_owned()),
        is_directory: false,
        owner_sid: None,
        dacl: vec![],
        inheritance_disabled: false,
        is_reparse_point: false,
        unsupported_aces: Vec::new(),
        null_dacl: true,
        sd_hash: None,
    };
    let mut resolver = SidNameResolver::new(&[]);
    resolver.resolve(vec![answer("S-1-1-0", "Everyone")]);

    let trustees = build_path_trustees_with_share_and_names(&f, None, resolver.map());
    assert_eq!(trustees.len(), 1);
    match &trustees[0] {
        PathTrusteeEntry::Diagnostic { message, .. } => {
            assert!(
                message.contains("NULL DACL"),
                "diagnostic message must remain untouched"
            );
        }
        PathTrusteeEntry::Ace(_) => panic!("NULL DACL must remain a diagnostic"),
    }
}

#[test]
fn collect_ace_sids_for_resolution_covers_ntfs_and_share() {
    let f = fso(vec![
        ace("S-1-5-32-544", AceKind::Allow, 0x001F01FF, true),
        ace("S-1-5-21-1-2-3-1000", AceKind::Allow, 0x00120089, false),
    ]);
    let overlay = ShareTrusteeOverlay {
        trustees: vec![
            PathTrusteeEntry::Ace(PathTrustee {
                sid: Sid("S-1-1-0".to_owned()),
                display_name: None,
                kind: AceKind::Allow,
                mask: AccessMask(0x001200A9),
                inherited: false,
                inheritance_flags: 0,
                propagation_flags: 0,
                category: TrusteeCategory::Share,
            }),
            PathTrusteeEntry::diagnostic(TrusteeCategory::Share, "noise"),
        ],
    };
    let sids = collect_ace_sids_for_resolution(&f, Some(&overlay));
    assert_eq!(
        sids.len(),
        3,
        "two NTFS + one Share ACE; diagnostic skipped"
    );
    assert!(sids.contains(&"S-1-5-32-544".to_owned()));
    assert!(sids.contains(&"S-1-5-21-1-2-3-1000".to_owned()));
    assert!(sids.contains(&"S-1-1-0".to_owned()));
}

/// The reply to the lookup of a SID that belongs to `DOMAIN\\name` or to a bare name.
fn answer(sid: &str, display: &str) -> (String, Result<AccountInfo, CoreError>) {
    let (domain, name) = match display.split_once('\\') {
        Some((domain, name)) => (domain, name),
        None => ("", display),
    };
    (
        sid.to_owned(),
        Ok(AccountInfo {
            name: name.to_owned(),
            domain: domain.to_owned(),
            kind: IdentityKind::Group,
        }),
    )
}

#[test]
fn export_to_missing_directory_returns_export_error() {
    let path = r"C:\definitely\not\an\existing\dir\report.json".to_owned();
    let err = ExportTarget::File(path).open_error("The system cannot find the path specified.");
    assert!(
        matches!(err, CoreError::Export(_)),
        "expected CoreError::Export, got {err:?}"
    );
}

#[test]
fn export_refuses_overwrite_unless_explicitly_allowed() {
    let path = "C:\\Temp\\report.json";
    let careful = ExportTarget::File(path.to_owned());
    let mode = careful.open_mode();
    assert!(mode.create_new && !mode.create && !mode.truncate);
    let refusal = careful.open_error("The file exists.");
    assert!(
        matches!(refusal, CoreError::Export(_)),
        "expected CoreError::Export refusal, got {refusal:?}"
    );
    let overwriting = ExportTarget::FileOverwrite(path.to_owned());
    assert!(overwriting.open_mode().truncate);
    assert_eq!(overwriting.path(), path);
}
