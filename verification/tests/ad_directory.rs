use adpa::ad::config::{LdapConfig, TlsMode};
use adpa::ad::enumerate::{
    enumerate_all, well_known_table, IdentitySnapshot, RawAccount, RawListing,
};
use adpa::ad::ldap_client::RawEntry;
use adpa::ad::resolver::{
    classify_identity, dn_to_domain, parse_identity_from_entry, push_member_entries, rid_from_sid,
    GroupMemberEnumeration,
};
use adpa::ad::sid_util::{bytes_to_sid_str, sid_str_to_bytes, sid_str_to_ldap_filter};
use adpa::ad::trusts::parse_trust;
use adpa::model::diagnostic::PermissionDiagnostic;
use adpa::model::identity::{Identity, IdentityKind};
use adpa::model::membership::{MemberNode, MemberVia};
use adpa::model::sid::Sid;
use adpa::model::trust::TrustDirection;

#[test]
fn debug_does_not_leak_password() {
    let cfg = LdapConfig::new("dc.test.local", "DC=test,DC=local", "CN=Admin", "S3cret!");
    let dbg = cfg.debug_text();
    assert!(
        !dbg.contains("S3cret!"),
        "Debug must not contain the plaintext password; got: {dbg}"
    );
    assert!(dbg.contains("***"), "Debug must show a masking placeholder; got: {dbg}");
}

#[test]
fn global_catalog_uses_port_3269_with_ldaps() {
    let cfg = LdapConfig::new_global_catalog("dc.test.local", "", "CN=Admin", "pw");
    assert_eq!(cfg.port, 3269);
    assert_eq!(cfg.tls_mode, TlsMode::Ldaps);
    assert!(cfg.global_catalog);
    assert_eq!(cfg.url(), "ldaps://dc.test.local:3269");
    assert!(cfg.base_dn.is_empty(), "empty base = all forest partitions");
}

#[test]
fn global_catalog_insecure_uses_port_3268_plain() {
    let cfg = LdapConfig::new_global_catalog_insecure("dc.test.local", "", "CN=Admin", "pw");
    assert_eq!(cfg.port, 3268);
    assert_eq!(cfg.tls_mode, TlsMode::Insecure);
    assert!(cfg.global_catalog);
    assert_eq!(cfg.url(), "ldap://dc.test.local:3268");
}

#[test]
fn signed_uses_port_389_clear_transport_and_no_credentials() {
    let cfg = LdapConfig::new_signed("dc.corp.local", "DC=corp,DC=local");
    assert_eq!(cfg.port, 389);
    assert_eq!(cfg.tls_mode, TlsMode::GssapiSign);
    assert!(!cfg.global_catalog);
    assert!(cfg.bind_dn.is_empty());
    assert!(cfg.bind_password.is_empty());
    assert_eq!(cfg.url(), "ldap://dc.corp.local:389");
}

#[test]
fn regular_configs_are_not_global_catalog() {
    assert!(!LdapConfig::new("s", "b", "d", "p").global_catalog);
    assert!(!LdapConfig::new_insecure("s", "b", "d", "p").global_catalog);
}

#[test]
fn debug_marks_empty_password_distinctly() {
    let cfg = LdapConfig::new("dc.test.local", "DC=test,DC=local", "CN=Admin", "");
    let dbg = cfg.debug_text();
    assert!(dbg.contains("<empty>"), "expected <empty> marker; got: {dbg}");
}

#[test]
fn local_system_sid_roundtrip() {
    let bytes = sid_str_to_bytes("S-1-5-18").unwrap();
    let back = bytes_to_sid_str(&bytes).unwrap();
    assert_eq!(back, "S-1-5-18");
}

#[test]
fn everyone_sid_roundtrip() {
    let bytes = sid_str_to_bytes("S-1-1-0").unwrap();
    let back = bytes_to_sid_str(&bytes).unwrap();
    assert_eq!(back, "S-1-1-0");
}

#[test]
fn domain_user_sid_roundtrip() {
    let sid = "S-1-5-21-3623811015-3361044348-30300820-1013";
    let bytes = sid_str_to_bytes(sid).unwrap();
    let back = bytes_to_sid_str(&bytes).unwrap();
    assert_eq!(back, sid);
}

#[test]
fn local_system_ldap_filter_not_empty() {
    let filter = sid_str_to_ldap_filter("S-1-5-18").unwrap();
    assert!(!filter.is_empty());
    assert_eq!(filter.len(), 12 * 3);
}

#[test]
fn domain_sid_ldap_filter_length() {
    let sid = "S-1-5-21-3623811015-3361044348-30300820-1013";
    let filter = sid_str_to_ldap_filter(sid).unwrap();
    assert_eq!(filter.len(), 28 * 3);
}

#[test]
fn invalid_prefix_rejected() {
    assert!(sid_str_to_bytes("X-1-5-18").is_err());
}

#[test]
fn empty_sid_rejected() {
    assert!(sid_str_to_bytes("").is_err());
}

#[test]
fn too_short_bytes_rejected() {
    assert!(bytes_to_sid_str(&[1, 1, 0]).is_err());
}

#[test]
fn ldap_escape_format_correct() {
    let result = sid_str_to_ldap_filter("S-1-5-18").unwrap();
    assert!(result.starts_with("\\01\\01"));
}

fn entry_with(attrs: &[(&str, &str)], sid_bytes: Option<Vec<u8>>) -> RawEntry {
    RawEntry {
        dn: "CN=res.lab,CN=System,DC=corp,DC=lab".to_string(),
        attrs: attrs
            .iter()
            .map(|(k, v)| (k.to_string(), vec![v.to_string()]))
            .collect(),
        bin_attrs: sid_bytes
            .into_iter()
            .map(|b| ("securityIdentifier".to_string(), vec![b]))
            .collect(),
    }
}

#[test]
fn parse_trust_reads_direction_attributes_and_partner() {
    let entry = entry_with(
        &[
            ("trustPartner", "res.lab"),
            ("flatName", "RES"),
            ("trustDirection", "3"),
            ("trustAttributes", "12"),
        ],
        None,
    );
    let t = parse_trust(&entry).expect("a trustPartner entry parses");
    assert_eq!(t.partner, "res.lab");
    assert_eq!(t.flat_name.as_deref(), Some("RES"));
    assert_eq!(t.direction, TrustDirection::Bidirectional);
    assert!(t.attributes.forest_transitive());
    assert!(t.attributes.sid_filtering_enabled());
    assert!(!t.attributes.selective_authentication());
}

#[test]
fn parse_trust_without_partner_is_none() {
    let entry = entry_with(&[("trustDirection", "3")], None);
    assert!(parse_trust(&entry).is_none());
}

#[test]
fn parse_trust_missing_direction_is_unknown_not_disabled() {
    let entry = entry_with(&[("trustPartner", "ext.lab")], None);
    let t = parse_trust(&entry).unwrap();
    assert!(matches!(t.direction, TrustDirection::Unknown(_)));
    assert_ne!(t.direction, TrustDirection::Disabled);
}

#[test]
fn well_known_table_includes_critical_entries() {
    let table = well_known_table();
    let names: Vec<&str> = table.iter().map(|i| i.name.as_str()).collect();
    for required in [
        "Everyone",
        "Authenticated Users",
        "SYSTEM",
        "NETWORK",
        "ANONYMOUS LOGON",
        "CREATOR OWNER",
    ] {
        assert!(names.contains(&required), "the table of well-known names lacks {required}");
    }
}

#[test]
fn matches_is_case_insensitive_and_covers_domain() {
    let s = IdentitySnapshot {
        name: "Administrator".into(),
        domain: "TESTDOMAIN".into(),
        kind: IdentityKind::User,
        description: String::new(),
    };
    assert!(s.matches("ADM"));
    assert!(s.matches("adm"));
    assert!(s.matches("TESTDOM"));
    assert!(s.matches("testdom"));
    assert!(!s.matches("krbtgt"));
}

fn listing(names: &[&str]) -> RawListing {
    RawListing {
        accounts: names
            .iter()
            .map(|n| RawAccount {
                name: n.to_string(),
                comment: String::new(),
                full_name: String::new(),
            })
            .collect(),
        status: 0,
    }
}

#[test]
fn enumerate_returns_at_least_well_known_and_local_groups() {
    let all = enumerate_all(
        "TESTDOMAIN",
        listing(&["Administrator"]),
        listing(&["Domain Users"]),
        listing(&["Administrators"]),
    );
    assert!(all.iter().any(|i| i.name == "Everyone"));
    assert!(all.iter().any(|i| i.domain == "BUILTIN"));
}

#[test]
fn parse_identity_reads_sid_history_count() {
    let entry = RawEntry {
        dn: "CN=mig01,DC=res,DC=lab".to_string(),
        attrs: vec![("sAMAccountName".to_string(), vec!["mig01".to_string()])],
        bin_attrs: vec![("sIDHistory".to_string(), vec![vec![1u8], vec![2u8]])],
    };
    let id = parse_identity_from_entry(&entry, &Sid("S-1-5-21-1-2-3-1000".into()));
    assert_eq!(id.sid_history_count, 2);
}

#[test]
fn parse_identity_without_sid_history_is_zero() {
    let entry = RawEntry {
        dn: "CN=normal,DC=res,DC=lab".to_string(),
        attrs: vec![("sAMAccountName".to_string(), vec!["normal".to_string()])],
        bin_attrs: vec![],
    };
    let id = parse_identity_from_entry(&entry, &Sid("S-1-5-21-1-2-3-1001".into()));
    assert_eq!(id.sid_history_count, 0);
}

fn member_entry(name: &str, sid_bytes: Vec<u8>) -> RawEntry {
    RawEntry {
        dn: format!("CN={name},DC=res,DC=lab"),
        attrs: vec![
            ("sAMAccountName".to_string(), vec![name.to_string()]),
            ("objectClass".to_string(), vec!["user".to_string()]),
        ],
        bin_attrs: vec![("objectSid".to_string(), vec![sid_bytes])],
    }
}

fn sid_bytes_with_rid(rid: u32) -> Vec<u8> {
    let mut b = vec![1u8, 2, 0, 0, 0, 0, 0, 5];
    b.extend_from_slice(&21u32.to_le_bytes());
    b.extend_from_slice(&rid.to_le_bytes());
    b
}

#[test]
fn rid_from_sid_extracts_last_component() {
    assert_eq!(rid_from_sid(&Sid("S-1-5-21-1-2-3-513".into())), Some(513));
    assert_eq!(rid_from_sid(&Sid("S-1-5-32-544".into())), Some(544));
    assert_eq!(rid_from_sid(&Sid("not-a-sid".into())), None);
}

#[test]
fn push_member_entries_tags_via_and_dedups_by_sid() {
    let direct = vec![
        member_entry("alice", sid_bytes_with_rid(1001)),
        member_entry("bob", sid_bytes_with_rid(1002)),
    ];
    let primary = vec![
        member_entry("bob", sid_bytes_with_rid(1002)),
        member_entry("carol", sid_bytes_with_rid(1003)),
    ];
    let mut out = Vec::new();
    let mut seen = Vec::new();
    push_member_entries(&direct, MemberVia::Direct, &mut out, &mut seen);
    push_member_entries(&primary, MemberVia::PrimaryGroup, &mut out, &mut seen);

    assert_eq!(out.len(), 3, "bob deduped");
    let carol = out
        .iter()
        .find(|m| m.identity.name.as_deref() == Some("carol"))
        .unwrap();
    assert!(matches!(carol.via, MemberVia::PrimaryGroup));
    let bob = out
        .iter()
        .find(|m| m.identity.name.as_deref() == Some("bob"))
        .unwrap();
    assert!(matches!(bob.via, MemberVia::Direct), "first classification wins");
}

#[test]
fn push_member_entries_skips_entries_without_sid() {
    let no_sid = RawEntry {
        dn: "CN=ghost,DC=res,DC=lab".to_string(),
        attrs: vec![("sAMAccountName".to_string(), vec!["ghost".to_string()])],
        bin_attrs: vec![],
    };
    let mut out = Vec::new();
    let mut seen = Vec::new();
    push_member_entries(&[no_sid], MemberVia::Direct, &mut out, &mut seen);
    assert!(out.is_empty(), "entry without objectSid is skipped, not panicked on");
}

fn grp_identity() -> Identity {
    Identity {
        sid: Sid("S-1-5-21-1-2-3-513".into()),
        name: Some("Domain Users".into()),
        domain: Some("res.lab".into()),
        kind: IdentityKind::Group,
        disabled: false,
        user_principal_name: None,
        sid_history_count: 0,
        sid_history: vec![],
    }
}

fn node(name: &str, rid: u32, via: MemberVia) -> MemberNode {
    MemberNode {
        identity: Identity {
            sid: Sid(format!("S-1-5-21-1-2-3-{rid}")),
            name: Some(name.into()),
            domain: Some("res.lab".into()),
            kind: IdentityKind::User,
            disabled: false,
            user_principal_name: None,
            sid_history_count: 0,
            sid_history: vec![],
        },
        via,
        children: vec![],
    }
}

#[test]
fn into_report_sorts_by_name_and_flags_primary_group_inclusion() {
    let enumeration = GroupMemberEnumeration {
        members: vec![
            node("charlie", 1003, MemberVia::PrimaryGroup),
            node("alice", 1001, MemberVia::Direct),
            node("bob", 1002, MemberVia::PrimaryGroup),
        ],
        incomplete: None,
    };
    let report = enumeration.into_report(grp_identity());
    let names: Vec<_> = report
        .members
        .iter()
        .map(|m| m.identity.name.clone().unwrap())
        .collect();
    assert_eq!(names, vec!["alice", "bob", "charlie"], "sorted by name");
    let (total, via_primary) = report.direct_counts();
    assert_eq!((total, via_primary), (3, 2));
    assert!(report.diagnostics.iter().any(|d| matches!(
        d,
        PermissionDiagnostic::MembersViaPrimaryGroupIncluded { count: 2 }
    )));
}

#[test]
fn into_report_propagates_incompleteness() {
    let enumeration = GroupMemberEnumeration {
        members: vec![node("alice", 1001, MemberVia::Direct)],
        incomplete: Some("primaryGroupID search failed: timeout".into()),
    };
    let report = enumeration.into_report(grp_identity());
    assert!(report.diagnostics.iter().any(|d| matches!(
        d,
        PermissionDiagnostic::GroupMemberEnumerationIncomplete { .. }
    )));
    assert!(!report.diagnostics.iter().any(|d| matches!(
        d,
        PermissionDiagnostic::MembersViaPrimaryGroupIncluded { .. }
    )));
}

#[test]
fn dn_to_domain_correct() {
    let dn = "CN=max.mustermann,CN=Users,DC=testdomain,DC=local";
    assert_eq!(dn_to_domain(dn), Some("testdomain.local".to_string()));
}

#[test]
fn dn_to_domain_single_dc() {
    let dn = "CN=obj,DC=corp";
    assert_eq!(dn_to_domain(dn), Some("corp".to_string()));
}

#[test]
fn dn_to_domain_no_dc_returns_none() {
    let dn = "CN=obj,OU=users";
    assert_eq!(dn_to_domain(dn), None);
}

#[test]
fn classify_user() {
    assert_eq!(
        classify_identity(&["top", "person", "user"]),
        IdentityKind::User
    );
}

#[test]
fn classify_group() {
    assert_eq!(classify_identity(&["top", "group"]), IdentityKind::Group);
}

#[test]
fn classify_computer_over_user() {
    assert_eq!(
        classify_identity(&["top", "person", "user", "computer"]),
        IdentityKind::Computer
    );
}
