use adpa::ad::local_groups::{
    format_account_candidates_for_local_groups, format_account_for_local_groups,
    looks_like_dns_domain, resolve_local_group_sids, LocalGroupFacts, LocalGroupInfo,
    LocalGroupMember, RawLocalGroup, NERR_USER_NOT_FOUND,
};
use adpa::ad::sam::{
    build_sid_name_map, lookup_account_for_sid, lookup_sid_for_account, resolve_identity_via_sam,
    AccountInfo, NameLookup, SamFacts, SidLookup, SidNameResolver,
};
use adpa::error::CoreError;
use adpa::model::identity::{Identity, IdentityKind};
use adpa::model::membership::GroupMembership;
use adpa::model::sid::Sid;

fn wide(s: &str) -> Vec<u16> {
    let mut units: Vec<u16> = s.encode_utf16().collect();
    units.push(0);
    units
}

#[test]
fn administrator_is_in_local_administrators() {
    let reply = Ok(vec![RawLocalGroup {
        name: "Administrators".to_string(),
        sid: Some("S-1-5-32-544".to_string()),
    }]);
    let sids = resolve_local_group_sids(None, "Administrator", reply)
        .expect("NetUserGetLocalGroups for local Administrator must succeed");
    assert!(
        sids.iter().any(|s| s.0 == "S-1-5-32-544"),
        "Administrator must be in BUILTIN\\Administrators (S-1-5-32-544); got: {:?}",
        sids.iter().map(|s| s.0.as_str()).collect::<Vec<_>>()
    );
}

#[test]
fn unknown_user_returns_empty() {
    let sids = resolve_local_group_sids(
        None,
        "definitely_not_a_real_user_zz_9f3a8b",
        Err(NERR_USER_NOT_FOUND),
    )
    .expect("call must succeed even for unknown users");
    assert!(sids.is_empty());
}

fn identity_with(name: Option<&str>, domain: Option<&str>, upn: Option<&str>) -> Identity {
    Identity {
        sid: Sid("S-1-5-21-1-2-3-1000".into()),
        name: name.map(String::from),
        domain: domain.map(String::from),
        kind: IdentityKind::User,
        disabled: false,
        user_principal_name: upn.map(String::from),
        sid_history_count: 0,
        sid_history: vec![],
    }
}

#[test]
fn format_prefers_upn_when_present() {
    let id = identity_with(
        Some("max.mustermann"),
        Some("testdomain.local"),
        Some("max@corp.example"),
    );
    assert_eq!(
        format_account_for_local_groups(&id).as_deref(),
        Some("max@corp.example")
    );
}

#[test]
fn format_falls_back_to_domain_backslash_name_for_dns_domain() {
    let id = identity_with(Some("max.mustermann"), Some("testdomain.local"), None);
    let candidates = format_account_candidates_for_local_groups(&id);
    assert_eq!(candidates[0], "testdomain.local\\max.mustermann");
    assert!(
        candidates.contains(&"max.mustermann@testdomain.local".to_string()),
        "DNS-style domain must also produce the UPN-form fallback; got {candidates:?}"
    );
    assert_eq!(
        format_account_for_local_groups(&id).as_deref(),
        Some("testdomain.local\\max.mustermann")
    );
}

#[test]
fn format_netbios_domain_only_emits_domain_backslash_form() {
    let id = identity_with(Some("alice"), Some("TRUSTED"), None);
    let candidates = format_account_candidates_for_local_groups(&id);
    assert!(
        candidates.contains(&"TRUSTED\\alice".to_string()),
        "NetBIOS domain must produce DOMAIN\\name candidate; got {candidates:?}"
    );
    assert!(
        !candidates.contains(&"alice@TRUSTED".to_string()),
        "NetBIOS domain must NOT produce the misleading UPN-style form 'alice@TRUSTED'; got {candidates:?}"
    );
}

#[test]
fn format_returns_plain_name_without_domain() {
    let id = identity_with(Some("Administrator"), None, None);
    let candidates = format_account_candidates_for_local_groups(&id);
    assert_eq!(candidates, vec!["Administrator".to_string()]);
    assert_eq!(
        format_account_for_local_groups(&id).as_deref(),
        Some("Administrator")
    );
}

#[test]
fn format_returns_empty_without_name() {
    let id = identity_with(None, Some("testdomain.local"), None);
    assert!(format_account_candidates_for_local_groups(&id).is_empty());
    assert_eq!(format_account_for_local_groups(&id), None);
}

#[test]
fn format_ignores_empty_upn() {
    let id = identity_with(Some("Administrator"), Some("testdomain.local"), Some(""));
    assert_eq!(
        format_account_for_local_groups(&id).as_deref(),
        Some("testdomain.local\\Administrator")
    );
}

#[test]
fn looks_like_dns_domain_distinguishes_netbios_and_dns() {
    assert!(looks_like_dns_domain("corp.local"));
    assert!(looks_like_dns_domain("ad.example.com"));
    assert!(!looks_like_dns_domain("TRUSTED"));
    assert!(!looks_like_dns_domain("CORP"));
    assert!(!looks_like_dns_domain(".trailing"));
    assert!(!looks_like_dns_domain("leading."));
    assert!(!looks_like_dns_domain(""));
}

#[test]
fn format_upn_wins_over_domain_form() {
    let id = identity_with(
        Some("alice"),
        Some("TRUSTED"),
        Some("alice@trusted.example"),
    );
    let candidates = format_account_candidates_for_local_groups(&id);
    assert_eq!(candidates[0], "alice@trusted.example");
}

#[test]
fn lookup_well_known_builtin_administrators() {
    let reply = SidLookup::Found(wide("Administrators"), wide("BUILTIN"), 4);
    let info = lookup_account_for_sid("S-1-5-32-544", reply)
        .expect("LookupAccountSidW must succeed for S-1-5-32-544");
    assert!(!info.name.is_empty(), "name must not be empty");
    assert!(!info.domain.is_empty(), "domain must not be empty");
    assert!(
        matches!(info.kind, IdentityKind::Group | IdentityKind::WellKnown),
        "S-1-5-32-544 must classify as Group or WellKnown, got: {:?}",
        info.kind
    );
    let qualified = format!("{}\\{}", info.domain, info.name);
    let sid_again =
        lookup_sid_for_account(&qualified, NameLookup::Found("S-1-5-32-544".to_string()))
            .expect("name → SID lookup must succeed for the recovered qualified name");
    assert_eq!(sid_again.0, "S-1-5-32-544");
}

#[test]
fn lookup_well_known_system() {
    let reply = SidLookup::Found(wide("SYSTEM"), wide("NT AUTHORITY"), 5);
    let info = lookup_account_for_sid("S-1-5-18", reply)
        .expect("LookupAccountSidW must succeed for S-1-5-18");
    assert!(!info.name.is_empty());
    assert!(!info.domain.is_empty());
    assert!(
        matches!(
            info.kind,
            IdentityKind::User | IdentityKind::Group | IdentityKind::WellKnown
        ),
        "S-1-5-18 must classify as User/Group/WellKnown, got: {:?}",
        info.kind
    );
    let qualified = format!("{}\\{}", info.domain, info.name);
    let sid_again = lookup_sid_for_account(&qualified, NameLookup::Found("S-1-5-18".to_string()))
        .expect("name → SID lookup must succeed");
    assert_eq!(sid_again.0, "S-1-5-18");
}

#[test]
fn invalid_sid_returns_resolution_error() {
    let err = lookup_account_for_sid("not-a-sid", SidLookup::NotASid)
        .expect_err("non-SID input must not succeed");
    match err {
        CoreError::SidResolution(_) => {}
        other => panic!("expected SidResolution, got {other:?}"),
    }
}

#[test]
fn unmapped_but_valid_sid_returns_resolution_error() {
    let result = lookup_account_for_sid(
        "S-1-5-21-9999999999-9999999999-9999999999-1234",
        SidLookup::NoName,
    );
    assert!(
        matches!(result, Err(CoreError::SidResolution(_))),
        "unmapped SID should yield SidResolution error, got: {result:?}"
    );
}

#[test]
fn resolve_local_administrator_yields_memberships() {
    let admin_sid = lookup_sid_for_account(
        "Administrator",
        NameLookup::Found("S-1-5-21-1-2-3-500".to_string()),
    )
    .expect("local Administrator must resolve to a SID");
    let account = AccountInfo {
        name: "Administrator".to_string(),
        domain: "TESTDOMAIN".to_string(),
        kind: IdentityKind::User,
    };
    let facts = SamFacts {
        disabled: Some(false),
        global_groups: Ok(vec![]),
        local_groups: Ok(vec![LocalGroupFacts {
            group: LocalGroupInfo {
                name: "Administrators".to_string(),
                sid: Sid("S-1-5-32-544".to_string()),
            },
            account: None,
            members: Ok(vec![LocalGroupMember {
                sid: Some(admin_sid.clone()),
                display_name: Some("TESTDOMAIN\\Administrator".to_string()),
            }]),
        }]),
    };
    let res = resolve_identity_via_sam(&admin_sid.0, account, facts);
    assert!(matches!(res.identity.kind, IdentityKind::User));
    assert!(
        res.memberships
            .iter()
            .any(|m| m.group_sid.0 == "S-1-5-32-544"),
        "Administrator must be in BUILTIN\\Administrators via SAM resolution"
    );
    assert!(
        res.disabled_known,
        "On a DC, NetUserGetInfo should be answerable for the built-in Administrator"
    );
}

fn membership(sid: &str, name: Option<&str>) -> GroupMembership {
    GroupMembership {
        member_sid: Sid("S-1-5-21-1-1-1-500".into()),
        group_sid: Sid(sid.into()),
        direct: true,
        group_name: name.map(|s| s.to_owned()),
        path: None,
        group_sid_history_count: 0,
        group_sid_history: vec![],
    }
}

fn no_answer(sid: &str) -> (String, Result<AccountInfo, CoreError>) {
    (
        sid.to_string(),
        Err(CoreError::SidResolution(format!("{sid} has no name"))),
    )
}

#[test]
fn resolver_seeds_membership_names_verbatim() {
    let r = SidNameResolver::new(&[
        membership("S-1-5-21-9-9-9-1001", Some("CORP\\Sales")),
        membership("S-1-5-21-9-9-9-1002", None),
    ]);
    assert_eq!(
        r.map().get("S-1-5-21-9-9-9-1001").map(String::as_str),
        Some("CORP\\Sales")
    );
}

#[test]
fn resolver_resolves_each_sid_once() {
    let mut r = SidNameResolver::new(&[]);
    r.resolve(vec![no_answer("S-1-5-21-9-9-9-7777")]);
    let after_first = r.map().len();
    assert!(r.untried(&vec!["S-1-5-21-9-9-9-7777".to_string()]).is_empty());
    r.resolve(vec![no_answer("S-1-5-21-9-9-9-7777")]);
    assert_eq!(
        r.map().len(),
        after_first,
        "resolving the same SID twice must not change the map"
    );
}

#[test]
fn build_sid_name_map_matches_resolver() {
    let memberships = [membership("S-1-5-21-9-9-9-1001", Some("CORP\\Sales"))];
    let extra = "S-1-5-21-9-9-9-2002";
    let batch = build_sid_name_map(&memberships, vec![no_answer(extra)]);
    let mut resolver = SidNameResolver::new(&memberships);
    resolver.resolve(vec![no_answer(extra)]);
    let stepwise = resolver.into_map();
    assert_eq!(batch.len(), stepwise.len());
    for sid in ["S-1-5-21-9-9-9-1001", extra] {
        assert_eq!(batch.get(sid), stepwise.get(sid));
    }
}
