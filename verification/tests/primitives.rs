use adpa::ad::sam::AccountInfo;
use adpa::error::CoreError;
use adpa::export::csv::record_for;
use adpa::export::json::{bool_str, contributing_sids_to_json, matched_aces_to_json};
use adpa::export::trustees::{build_path_trustees, read_share_overlay, ShareDacl};
use adpa::fs::acl::{parse_security, RawAce, RawSecurity};
use adpa::model::access::{
    AccessMask, AceEntry, AceKind, ContributingAce, EffectivePermission, FileSystemObject,
    LocalGroupEvalStatus, PermissionPath, ShareEvalStatus, SharePermission,
};
use adpa::model::diagnostic::PermissionDiagnostic;
use adpa::model::identity::{Identity, IdentityKind};
use adpa::model::rights::{rights_of, NormalizedRights, RightsTable};
use adpa::model::sid::{NormalizedPath, Sid};
use adpa::model::trustee::{PathTrusteeEntry, TrusteeCategory};
use adpa::order::is_text_before;
use adpa::text;

#[test]
fn white_space_is_trimmed_at_both_ends() {
    for s in ["", "  ", " a b ", "\t\u{a0}x\u{3000}\n", "x", "\u{200b}x"] {
        assert_eq!(text::trim(s), s.trim());
    }
    for c in ['\u{9}', '\u{d}', ' ', '\u{85}', '\u{a0}', '\u{1680}', '\u{2009}', '\u{2028}', '\u{202f}', '\u{205f}', '\u{3000}'] {
        assert!(text::char_is_white_space(c));
    }
    for c in ['a', '\u{8}', '\u{e}', '\u{180e}', '\u{200b}', '\u{feff}'] {
        assert_eq!(text::char_is_white_space(c), c.is_whitespace());
    }
}

#[test]
fn pieces_between_separators_join_again() {
    for s in ["", "a", "a-b", "-", "a--b-", "S-1-5-18"] {
        let parts = text::split(s, '-');
        assert_eq!(parts, s.split('-').collect::<Vec<_>>());
        assert_eq!(text::join(&parts, "-"), s);
    }
}

#[test]
fn numbers_are_written_in_full() {
    for n in [0, 7, 10, 99, 4_294_967_295, u64::MAX] {
        assert_eq!(text::decimal_text(n), n.to_string());
        assert_eq!(text::parse_unsigned(&n.to_string(), u64::MAX), Some(n));
    }
    assert_eq!(text::mask_hex(0x1F01FF), "0x001F01FF");
    assert_eq!(text::mask_hex(u32::MAX), "0xFFFFFFFF");
    let mut s = String::from("x");
    text::push_hex(&mut s, 0xAB, 4, false);
    assert_eq!(s, "x00ab");
}

#[test]
fn what_is_no_number_is_rejected() {
    for s in ["", "-1", " 1", "1 ", "0x1", "1a", "18446744073709551616", "+"] {
        assert_eq!(text::parse_unsigned(s, u64::MAX), s.parse::<u64>().ok());
    }
    assert_eq!(text::parse_unsigned("+5", 10), "+5".parse::<u64>().ok());
    assert_eq!(text::parse_unsigned("0005", 10), Some(5));
    assert_eq!(text::parse_unsigned("11", 10), None);
}

#[test]
fn texts_are_searched_and_padded() {
    assert!(text::starts_with("S-1-5", "S-1-"));
    assert!(!text::starts_with("S-1", "S-1-"));
    assert!(text::contains("abcabd", "abd") && text::contains("x", ""));
    assert!(!text::contains("ab", "abc"));
    assert!(text::contains_char("a@b", '@'));
    assert_eq!(text::to_ascii_lower("AÄz"), "aÄz");
    assert_eq!(text::pad("ab", 4), "ab  ");
    assert_eq!(text::pad("abcde", 4), "abcde");
    assert_eq!(text::repeat_char('═', 3), "═══");
    assert!(text::is_listed(&vec!["a".into()], "a"));
    assert!(!text::is_listed(&vec!["a".into()], "A"));
}

#[test]
fn texts_are_ordered_as_strings_are() {
    let texts = ["", "a", "aa", "ab", "b", "Z", "ä", "\u{e000}", "\u{10000}"];
    for a in texts {
        for b in texts {
            assert_eq!(is_text_before(a, b), a < b, "{a:?} {b:?}");
        }
    }
}

fn permission() -> EffectivePermission {
    EffectivePermission {
        identity: Identity {
            sid: Sid("S-1-5-21-1-2-3-1000".into()),
            name: None,
            domain: None,
            kind: IdentityKind::ForeignSecurityPrincipal,
            disabled: true,
            user_principal_name: None,
            sid_history_count: 0,
            sid_history: vec![],
        },
        path: NormalizedPath("C:\\Data".into()),
        ntfs_mask: AccessMask(1),
        share_mask: None,
        effective_mask: AccessMask(1),
        path_explanation: PermissionPath {
            steps: vec!["one".into(), "two".into()],
        },
        share_status: ShareEvalStatus::NotApplicable,
        local_group_status: LocalGroupEvalStatus::NotQueried,
        contributing_sids: vec![],
        unsupported_ace_count: 0,
        matched_aces: vec![],
        diagnostics: vec![],
    }
}

#[test]
fn every_gap_makes_a_result_incomplete() {
    assert!(!permission().is_incomplete());
    let mut p = permission();
    p.share_status = ShareEvalStatus::ReadFailed("down".into());
    assert!(p.is_incomplete());
    let mut p = permission();
    p.unsupported_ace_count = 1;
    assert!(p.is_incomplete());
    let mut p = permission();
    p.local_group_status = LocalGroupEvalStatus::NotAvailable("denied".into());
    assert!(p.is_incomplete());
    let mut p = permission();
    p.diagnostics = vec![
        PermissionDiagnostic::IdentityDisabled,
        PermissionDiagnostic::GroupResolutionViaGlobalCatalog,
    ];
    assert!(p.is_incomplete());
    p.diagnostics.pop();
    assert!(!p.is_incomplete());
}

#[test]
fn a_record_has_its_fields_in_order() {
    let mut rights = RightsTable::new();
    rights.insert(
        1,
        NormalizedRights {
            raw: 1,
            full_control: false,
            modify: false,
            read: false,
            write: false,
            display_name: "Special".into(),
            description: "Special (0x00000001)".into(),
        },
    );
    assert_eq!(rights_of(&rights, 1).display_name, "Special");
    assert_eq!(
        record_for(&permission(), &rights),
        vec![
            "C:\\Data",
            "S-1-5-21-1-2-3-1000",
            "",
            "",
            "ForeignSecurityPrincipal",
            "true",
            "0x00000001",
            "Special",
            "(none)",
            "(none)",
            "0x00000001",
            "Special",
            "one | two",
            "0",
            "not_applicable",
            "not_queried",
            "",
            "[]",
            "[]",
            "[]",
        ]
    );
}

#[test]
fn entries_are_compact_json() {
    assert_eq!((bool_str(true), bool_str(false)), ("true", "false"));
    let aces = [AceEntry {
        kind: AceKind::Deny,
        sid: Sid("S-1-1-0".into()),
        mask: AccessMask(7),
        inherited: true,
        inheritance_flags: 3,
        propagation_flags: 0,
    }];
    let parsed: serde_json::Value = serde_json::from_str(&matched_aces_to_json(&aces)).unwrap();
    let ace = &parsed.as_array().unwrap()[0];
    assert_eq!(ace.get("sid").unwrap(), "S-1-1-0");
    assert_eq!(ace.get("kind").unwrap(), "Deny");
    assert_eq!(ace.get("inherited").unwrap(), true);
    let sids = [ContributingAce {
        sid: Sid("S-1-1-0".into()),
        mask: AccessMask(7),
    }];
    let parsed: serde_json::Value =
        serde_json::from_str(&contributing_sids_to_json(&sids)).unwrap();
    assert_eq!(parsed.as_array().unwrap()[0].get("sid").unwrap(), "S-1-1-0");
}

#[test]
fn a_share_gives_entries_or_a_hint() {
    let open = read_share_overlay(Ok(ShareDacl::NullDacl));
    assert!(matches!(
        &open.trustees[..],
        [PathTrusteeEntry::Diagnostic { category: TrusteeCategory::Share, message }]
            if message.starts_with("Share NULL DACL")
    ));
    let failed = read_share_overlay(Err("timeout".into()));
    assert!(matches!(
        &failed.trustees[..],
        [PathTrusteeEntry::Diagnostic { message, .. }]
            if message == "Share-DACL nicht lesbar / share DACL not readable: timeout"
    ));
}

#[test]
fn trustees_get_the_names_that_were_found() {
    let fso = FileSystemObject {
        path: NormalizedPath("C:\\Data".into()),
        is_directory: true,
        owner_sid: None,
        dacl: vec![AceEntry {
            kind: AceKind::Allow,
            sid: Sid("S-1-5-32-544".into()),
            mask: AccessMask(7),
            inherited: false,
            inheritance_flags: 0,
            propagation_flags: 0,
        }],
        inheritance_disabled: false,
        is_reparse_point: false,
        unsupported_aces: vec![],
        null_dacl: false,
        sd_hash: None,
    };
    let share = ShareDacl::Acl(vec![SharePermission {
        share_name: "data".into(),
        sid: Sid("S-1-1-0".into()),
        mask: AccessMask(7),
        kind: AceKind::Allow,
    }]);
    let account = |name: &str, domain: &str| AccountInfo {
        name: name.into(),
        domain: domain.into(),
        kind: IdentityKind::Group,
    };
    let entries = build_path_trustees(
        &fso,
        Some(Ok(share)),
        vec![
            ("S-1-5-32-544".into(), Ok(account("Administrators", "BUILTIN"))),
            ("S-1-1-0".into(), Err(CoreError::SidResolution("none".into()))),
        ],
    );
    let names: Vec<Option<&str>> = entries
        .iter()
        .map(|e| match e {
            PathTrusteeEntry::Ace(t) => t.display_name.as_deref(),
            PathTrusteeEntry::Diagnostic { .. } => panic!("no hint is expected"),
        })
        .collect();
    assert_eq!(names, vec![Some("BUILTIN\\Administrators"), None]);
}

#[test]
fn a_descriptor_is_read_part_by_part() {
    let parsed = parse_security(RawSecurity {
        bytes: vec![1, 2],
        owner: Some("S-1-5-32-544".into()),
        dacl: Some(vec![
            RawAce {
                ace_type: 1,
                ace_flags: 0x1B,
                mask: 7,
                sid: Some("S-1-1-0".into()),
            },
            RawAce {
                ace_type: 9,
                ace_flags: 1,
                mask: 8,
                sid: None,
            },
        ]),
        control: Some(0x1004),
    });
    assert_eq!(parsed.owner_sid.as_ref().unwrap().0, "S-1-5-32-544");
    assert!(parsed.inheritance_disabled && !parsed.null_dacl);
    assert_eq!(parsed.dacl[0].kind, AceKind::Deny);
    assert!(parsed.dacl[0].inherited);
    assert_eq!((parsed.dacl[0].inheritance_flags, parsed.dacl[0].propagation_flags), (3, 8));
    assert_eq!(parsed.unsupported_aces[0].ace_type, 9);
    assert_eq!(parsed.unsupported_aces[0].mask, 8);
}
