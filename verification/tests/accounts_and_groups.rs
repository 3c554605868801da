use adpa::ad::local_groups::{
    get_local_group_members, is_settled, memberships_of_chains, resolve_local_group_chains,
    resolve_local_group_chains_for_identity, resolve_local_group_sids_for_identity,
    resolve_local_group_sids_strict, resolve_local_groups, ChainReply, LocalGroupFacts,
    LocalGroupInfo, LocalGroupLookupOutcome, LocalGroupMember, RawLocalGroup, RawMember,
    ERROR_ACCESS_DENIED, NERR_USER_NOT_FOUND,
};
use adpa::ad::principal::{
    failed_lookup_resolution, hit_resolution, miss_resolution, DisabledStatus, LsaAccountInfo,
    LsaBackend, NoLsaBackend, PrincipalInput,
};
use adpa::ad::sam::{
    lookup_account_for_sid, lookup_sid_for_account, resolve_identity_via_sam, sid_use_to_kind,
    unnamed_groups, user_account_disabled, user_global_group_names, wide_buf_to_string,
    AccountInfo, NameLookup, SamFacts, SidLookup, SidNameResolver,
};
use adpa::error::CoreError;
use adpa::model::identity::{Identity, IdentityKind};
use adpa::model::membership::{GroupMembership, MembershipPathSource};
use adpa::model::sid::Sid;

fn group(name: &str, sid: Option<&str>) -> RawLocalGroup {
    RawLocalGroup {
        name: name.into(),
        sid: sid.map(String::from),
    }
}

fn user() -> Identity {
    Identity {
        sid: Sid("S-1-5-21-1-2-3-1000".into()),
        name: Some("alice".into()),
        domain: Some("corp.local".into()),
        kind: IdentityKind::User,
        disabled: false,
        user_principal_name: None,
        sid_history_count: 0,
        sid_history: vec![],
    }
}

#[test]
fn groups_without_a_name_or_a_sid_are_left_out() {
    let reply = Ok(vec![
        group("Users", Some("S-1-5-32-545")),
        group("", Some("S-1-5-32-546")),
        group("Lost", None),
    ]);
    let groups = resolve_local_groups(None, "alice", reply).unwrap();
    assert_eq!(groups.len(), 1);
    assert_eq!(groups[0].name, "Users");
}

#[test]
fn a_failed_group_lookup_names_the_call() {
    let denied = resolve_local_groups(Some("fs\"01"), "alice", Err(ERROR_ACCESS_DENIED)).unwrap_err();
    assert_eq!(
        denied.message(),
        "Access denied: NetUserGetLocalGroups: access denied for 'alice' on Some(\"fs\\\"01\")"
    );
    let failed = resolve_local_groups(None, "alice", Err(1722)).unwrap_err();
    assert_eq!(
        failed.message(),
        "LDAP query error: NetUserGetLocalGroups('alice') failed with status 1722"
    );
}

#[test]
fn an_unknown_account_is_told_apart_from_one_without_groups() {
    let unknown = resolve_local_group_sids_strict(None, "x", Err(NERR_USER_NOT_FOUND)).unwrap();
    assert!(matches!(unknown, LocalGroupLookupOutcome::UserNotFoundOnServer));
    let none = resolve_local_group_sids_strict(None, "x", Ok(vec![])).unwrap();
    assert!(matches!(none, LocalGroupLookupOutcome::WithGroups(ref g) if g.is_empty()));
    assert!(!is_settled(&Ok(unknown)));
    assert!(is_settled(&Ok(none)));
}

#[test]
fn the_first_account_name_that_the_server_knows_counts() {
    let found = resolve_local_group_sids_for_identity(
        Some("fs01"),
        &user(),
        vec![
            Ok(LocalGroupLookupOutcome::UserNotFoundOnServer),
            Ok(LocalGroupLookupOutcome::WithGroups(vec![Sid("S-1-5-32-545".into())])),
        ],
    )
    .unwrap();
    assert_eq!(found[0].0, "S-1-5-32-545");
    let none = resolve_local_group_sids_for_identity(
        Some("fs01"),
        &user(),
        vec![
            Ok(LocalGroupLookupOutcome::UserNotFoundOnServer),
            Ok(LocalGroupLookupOutcome::UserNotFoundOnServer),
            Ok(LocalGroupLookupOutcome::UserNotFoundOnServer),
        ],
    );
    assert!(none.is_err(), "an account that no form names must not look like one without groups");
}

#[test]
fn members_keep_what_is_known_of_them() {
    let members = get_local_group_members(
        None,
        "Administrators",
        Ok(vec![
            RawMember {
                sid: Some("S-1-5-21-1-2-3-1000".into()),
                name: "CORP\\alice".into(),
            },
            RawMember {
                sid: None,
                name: String::new(),
            },
        ]),
    )
    .unwrap();
    assert_eq!(members.len(), 2);
    assert_eq!(members[0].display_name.as_deref(), Some("CORP\\alice"));
    assert!(members[1].sid.is_none() && members[1].display_name.is_none());
    assert!(get_local_group_members(None, "x", Err(ERROR_ACCESS_DENIED)).is_err());
}

fn facts(members: Result<Vec<LocalGroupMember>, CoreError>) -> LocalGroupFacts {
    LocalGroupFacts {
        group: LocalGroupInfo {
            name: "Administrators".into(),
            sid: Sid("S-1-5-32-544".into()),
        },
        account: Some(AccountInfo {
            name: "Administrators".into(),
            domain: "BUILTIN".into(),
            kind: IdentityKind::Group,
        }),
        members,
    }
}

fn member(sid: &str) -> LocalGroupMember {
    LocalGroupMember {
        sid: Some(Sid(sid.into())),
        display_name: None,
    }
}

#[test]
fn a_chain_to_a_local_group_goes_through_a_known_member() {
    let me = Sid("S-1-5-21-1-2-3-1000".into());
    let known = vec![
        (me.clone(), "alice".to_string()),
        (Sid("S-1-5-21-1-2-3-512".into()), "Domain Admins".to_string()),
    ];
    let direct = resolve_local_group_chains(
        &me,
        Some("alice"),
        &known,
        &vec![facts(Ok(vec![member("S-1-5-21-1-2-3-1000")]))],
    );
    assert_eq!(direct[0].2.nodes.len(), 2);
    assert!(direct[0].2.complete);
    let mediated = resolve_local_group_chains(
        &me,
        Some("alice"),
        &known,
        &vec![facts(Ok(vec![member("S-1-5-21-1-2-3-512")]))],
    );
    let nodes: Vec<&str> = mediated[0].2.nodes.iter().map(|s| s.0.as_str()).collect();
    assert_eq!(
        nodes,
        vec!["S-1-5-21-1-2-3-1000", "S-1-5-21-1-2-3-512", "S-1-5-32-544"]
    );
    assert_eq!(mediated[0].2.source, MembershipPathSource::LocalGroup);
    let unreadable = resolve_local_group_chains(
        &me,
        None,
        &known,
        &vec![facts(Err(CoreError::AccessDenied("no".into())))],
    );
    assert!(!unreadable[0].2.complete);
    let memberships = memberships_of_chains(&me, &direct);
    assert_eq!(memberships[0].group_sid.0, "S-1-5-32-544");
    assert_eq!(memberships[0].member_sid.0, me.0);
}

#[test]
fn chains_of_an_unknown_account_are_an_error() {
    let failed = resolve_local_group_chains_for_identity(
        None,
        &user(),
        vec![ChainReply::NotFound, ChainReply::Failed(CoreError::AccessDenied("no".into()))],
    );
    assert!(failed.is_err());
    let found = resolve_local_group_chains_for_identity(
        None,
        &user(),
        vec![ChainReply::NotFound, ChainReply::Chains(vec![])],
    );
    assert!(found.unwrap().is_empty());
}

#[test]
fn wide_text_ends_at_the_first_zero() {
    let mut units: Vec<u16> = "Zoë \u{1d11e}".encode_utf16().collect();
    units.extend([0, 65, 66]);
    assert_eq!(wide_buf_to_string(&units), "Zoë \u{1d11e}");
    assert_eq!(wide_buf_to_string(&[]), "");
    assert_eq!(
        wide_buf_to_string(&[0xd834, 0xd834, 0xdd1e, 0x6d, 0xdd1e]),
        "\u{fffd}\u{1d11e}m\u{fffd}"
    );
}

#[test]
fn account_lookups_say_why_they_fail() {
    for reply in [SidLookup::NotASid, SidLookup::NoName, SidLookup::Failed] {
        assert!(matches!(
            lookup_account_for_sid("S-1-5-21-9", reply),
            Err(CoreError::SidResolution(_))
        ));
    }
    for reply in [NameLookup::NoSid, NameLookup::Failed, NameLookup::NotPrintable] {
        assert!(matches!(
            lookup_sid_for_account("nobody", reply),
            Err(CoreError::SidResolution(_))
        ));
    }
    assert_eq!(sid_use_to_kind(9), IdentityKind::Computer);
    assert_eq!(sid_use_to_kind(6), IdentityKind::Orphaned);
    assert_eq!(sid_use_to_kind(8), IdentityKind::Unknown);
}

#[test]
fn a_disabled_account_is_known_by_its_flag() {
    assert_eq!(user_account_disabled(None), None);
    assert_eq!(user_account_disabled(Some(0x202)), Some(true));
    assert_eq!(user_account_disabled(Some(0x200)), Some(false));
}

#[test]
fn global_groups_of_an_unknown_user_are_none() {
    assert_eq!(user_global_group_names(None, "x", Ok(vec!["G".into()])).unwrap(), vec!["G"]);
    assert!(user_global_group_names(None, "x", Err(5)).is_err());
}

#[test]
fn groups_that_cannot_be_looked_up_do_not_end_a_resolution() {
    let account = AccountInfo {
        name: "alice".into(),
        domain: "CORP".into(),
        kind: IdentityKind::User,
    };
    let res = resolve_identity_via_sam(
        "S-1-5-21-1-2-3-1000",
        account,
        SamFacts {
            disabled: None,
            global_groups: Ok(vec![
                ("Known".into(), Ok(Sid("S-1-5-21-1-2-3-2000".into()))),
                ("Lost".into(), Err(CoreError::SidResolution("no".into()))),
            ]),
            local_groups: Err(CoreError::AccessDenied("no".into())),
        },
    );
    assert!(!res.disabled_known && !res.identity.disabled);
    assert_eq!(res.memberships.len(), 1);
    assert_eq!(res.memberships[0].group_name.as_deref(), Some("Known"));
    assert!(res.memberships[0].direct);
}

fn answer(sid: &str, name: &str) -> (String, Result<AccountInfo, CoreError>) {
    (
        sid.into(),
        Ok(AccountInfo {
            name: name.into(),
            domain: "CORP".into(),
            kind: IdentityKind::User,
        }),
    )
}

#[test]
fn names_do_not_depend_on_how_lookups_are_batched() {
    let mut one = SidNameResolver::new(&[]);
    one.resolve(vec![answer("S-1-1", "a"), answer("S-1-2", "b"), answer("S-1-1", "c")]);
    let mut two = SidNameResolver::new(&[]);
    two.resolve(vec![answer("S-1-1", "a")]);
    two.resolve(vec![answer("S-1-2", "b"), answer("S-1-1", "c")]);
    for sid in ["S-1-1", "S-1-2", "S-1-3"] {
        assert_eq!(one.name_of(sid), two.name_of(sid));
    }
    assert_eq!(one.name_of("S-1-1").map(String::as_str), Some("CORP\\a"));
    let sids: Vec<String> = vec!["S-1-3".into(), "S-1-2".into(), "S-1-3".into()];
    assert_eq!(one.untried(&sids), vec!["S-1-3".to_string()]);
}

#[test]
fn an_object_gets_the_names_of_its_own_sids() {
    let mut names = SidNameResolver::new(&[]);
    names.resolve(vec![answer("S-1-1", "a"), answer("S-1-2", "b")]);
    let copied = names.names_of(&vec!["S-1-2".into(), "S-1-3".into(), "S-1-2".into()]);
    assert_eq!(copied.get("S-1-2").map(String::as_str), Some("CORP\\b"));
    assert!(copied.get("S-1-1").is_none());
    assert!(copied.get("S-1-3").is_none());
    assert!(names.name_of("S-1-1").is_some());
}

#[test]
fn only_groups_without_a_name_need_a_lookup() {
    let membership = |sid: &str, name: Option<&str>| GroupMembership {
        member_sid: Sid("S-1-5-21-1-2-3-1000".into()),
        group_sid: Sid(sid.into()),
        direct: true,
        group_name: name.map(String::from),
        path: None,
        group_sid_history_count: 0,
        group_sid_history: vec![],
    };
    assert_eq!(
        unnamed_groups(&[membership("S-1-1", Some("x")), membership("S-1-2", None)]),
        vec!["S-1-2".to_string()]
    );
}

#[test]
fn missing_groups_are_admitted() {
    let sid = Sid("S-1-5-21-1-2-3-1000".into());
    let hit = hit_resolution(
        sid.clone(),
        user(),
        Err(CoreError::LdapQuery("down".into())),
        false,
    );
    assert_eq!(
        hit.engine_flags().group_resolution_failure_reason.as_deref(),
        Some("LDAP query error: down")
    );
    let outside = miss_resolution(
        sid.clone(),
        Some(Ok(LsaAccountInfo {
            name: "alice".into(),
            domain: String::new(),
            kind: IdentityKind::User,
        })),
    );
    assert!(outside.engine_flags().group_resolution_failure_reason.is_some());
    assert_eq!(outside.identity.domain, None);
    assert!(outside.disabled_status == DisabledStatus::Unknown);
    assert!(!outside.disabled_status.as_bool_conservative());
    let failed = failed_lookup_resolution(sid.clone(), "timeout".into());
    assert_eq!(
        failed.engine_flags().identity_lookup_failure_reason.as_deref(),
        Some("timeout")
    );
    let orphan = miss_resolution(sid, Some(Err(CoreError::SidResolution("no".into()))));
    assert_eq!(orphan.identity.kind, IdentityKind::Orphaned);
    assert!(orphan.engine_flags().group_resolution_failure_reason.is_none());
}

#[test]
fn names_need_a_local_authority() {
    let sid = Sid("S-1-5-18".into());
    assert!(matches!(
        NoLsaBackend.lookup_sid_for_name("x"),
        Err(CoreError::Validation(_))
    ));
    assert!(matches!(
        NoLsaBackend.lookup_account_for_sid(&sid),
        Err(CoreError::Validation(_))
    ));
}

#[test]
fn explicit_input_is_not_classified_again() {
    match PrincipalInput::DisplayName("a@b\\c".into()).classify().unwrap() {
        PrincipalInput::DisplayName(s) => assert_eq!(s, "a@b\\c"),
        other => panic!("expected DisplayName, got {other:?}"),
    }
}
