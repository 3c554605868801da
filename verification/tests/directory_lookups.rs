use std::collections::BTreeMap;

use adpa::ad::config::LdapConfig;
use adpa::ad::enumerate::{enumerate_all, RawAccount, RawListing};
use adpa::ad::ldap_client::{
    escape_filter_value, filter_by_dn, filter_by_query, filter_by_samaccount, filter_by_sid,
    filter_by_upn, filter_transitive_groups, is_limit_reached, ldap_timeout, timeout_error,
    RawEntry, LDAP_MATCHING_RULE_IN_CHAIN,
};
use adpa::ad::lookups::{
    known_identity, plan_member_searches, Answer, MembershipLookup, Question,
};
use adpa::ad::resolver::{
    combine_member_searches, extract_sid_from_entry, identity_of_upn_entry, primary_group_sid,
    LdapResolver,
};
use adpa::ad::sid_util::{bytes_to_ldap_escape, bytes_to_sid_str, sid_str_to_bytes};
use adpa::ad::trusts::{parse_trust, trusts_of_entries};
use adpa::error::CoreError;
use adpa::model::identity::IdentityKind;
use adpa::model::membership::{GroupMembership, MemberVia, MembershipPathSource};
use adpa::model::sid::Sid;

const DOMAIN: &str = "S-1-5-21-1-2-3";

/// A directory held in memory: entries by distinguished name, and who is in which group.
#[derive(Default)]
struct Directory {
    entries: BTreeMap<String, RawEntry>,
}

fn text_attr(name: &str, values: &[&str]) -> (String, Vec<String>) {
    (name.to_string(), values.iter().map(|v| v.to_string()).collect())
}

impl Directory {
    fn add(mut self, name: &str, class: &str, rid: u32, groups: &[&str], more: &[(&str, &str)]) -> Self {
        let dn = format!("CN={name},DC=testdomain,DC=local");
        let sid = format!("{DOMAIN}-{rid}");
        let member_of: Vec<String> = groups
            .iter()
            .map(|g| format!("CN={g},DC=testdomain,DC=local"))
            .collect();
        let mut attrs = vec![
            text_attr("sAMAccountName", &[name]),
            text_attr("objectClass", &["top", class]),
            ("memberOf".to_string(), member_of),
        ];
        for (k, v) in more {
            attrs.push(text_attr(k, &[v]));
        }
        let entry = RawEntry {
            dn: dn.clone(),
            attrs,
            bin_attrs: vec![("objectSid".to_string(), vec![sid_str_to_bytes(&sid).unwrap()])],
        };
        self.entries.insert(dn, entry);
        self
    }

    fn by_sid(&self, sid: &str) -> Option<RawEntry> {
        self.entries
            .values()
            .find(|e| extract_sid_from_entry(e).map(|s| s.0).as_deref() == Some(sid))
            .map(copy)
    }

    fn by_name(&self, name: &str) -> Option<RawEntry> {
        self.entries
            .values()
            .find(|e| e.first_attr("sAMAccountName") == Some(name))
            .map(copy)
    }

    fn groups_of(&self, dn: &str) -> Vec<RawEntry> {
        let mut found: Vec<String> = Vec::new();
        let mut todo = vec![dn.to_string()];
        while let Some(next) = todo.pop() {
            let Some(entry) = self.entries.get(&next) else {
                continue;
            };
            for parent in entry.all_attr("memberOf") {
                if !found.contains(parent) {
                    found.push(parent.clone());
                    todo.push(parent.clone());
                }
            }
        }
        found
            .iter()
            .filter_map(|d| self.entries.get(d))
            .map(copy)
            .collect()
    }

    fn memberships(&self, sid: &Sid) -> Result<Vec<GroupMembership>, CoreError> {
        let mut lookup = MembershipLookup::start(sid.clone());
        loop {
            let answer: Answer = match lookup.question() {
                Question::BySid(s) => Ok(self.by_sid(&s).into_iter().collect()),
                Question::GroupsOf(dn) => Ok(self.groups_of(&dn)),
                Question::Nothing => break,
            };
            lookup = lookup.answer(answer);
        }
        match lookup {
            MembershipLookup::Finished(r) => r,
            _ => panic!("a lookup without a question has ended"),
        }
    }
}

fn copy(e: &RawEntry) -> RawEntry {
    RawEntry {
        dn: e.dn.clone(),
        attrs: e.attrs.clone(),
        bin_attrs: e.bin_attrs.clone(),
    }
}

fn testdomain() -> Directory {
    Directory::default()
        .add("Administrator", "user", 500, &[], &[("userAccountControl", "512")])
        .add(
            "max.mustermann",
            "user",
            1104,
            &["GRP_IT_Admins", "GRP_Development"],
            &[("primaryGroupID", "513")],
        )
        .add("anna.schmidt", "user", 1105, &[], &[])
        .add("Domain Users", "group", 513, &["Users"], &[])
        .add("Users", "group", 545, &[], &[])
        .add("GRP_IT_Admins", "group", 2001, &["GRP_FullAccess_FS"], &[])
        .add("GRP_Development", "group", 2002, &["GRP_ShareAccess_SMB"], &[])
        .add("GRP_FullAccess_FS", "group", 2003, &[], &[])
        .add("GRP_ShareAccess_SMB", "group", 2004, &[], &[])
}

fn config() -> LdapConfig {
    LdapConfig::new("dc.testdomain.local", "DC=testdomain,DC=local", "CN=x", "pw")
}

#[test]
fn resolve_administrator_identity() {
    let directory = testdomain();
    let mut resolver = LdapResolver::new(config());
    let entry = directory.by_name("Administrator").expect("Administrator must exist");
    let sid = extract_sid_from_entry(&entry).expect("Administrator must have SID");
    let identity = resolver.settle(&sid, Ok(directory.by_sid(&sid.0))).unwrap();
    assert_eq!(identity.kind, IdentityKind::User);
    assert!(!identity.disabled);
    assert_eq!(identity.name.as_deref(), Some("Administrator"));
}

#[test]
fn resolve_group_memberships_max_mustermann() {
    let directory = testdomain();
    let entry = directory.by_name("max.mustermann").expect("max.mustermann must exist");
    let sid = extract_sid_from_entry(&entry).unwrap();
    let memberships = directory.memberships(&sid).unwrap();

    let mut direct_by_name: BTreeMap<String, bool> = BTreeMap::new();
    for m in &memberships {
        if let Some(e) = directory.by_sid(&m.group_sid.0) {
            if let Some(n) = e.first_attr("sAMAccountName") {
                direct_by_name.insert(n.to_string(), m.direct);
            }
        }
    }
    let group_names: Vec<String> = direct_by_name.keys().cloned().collect();
    assert!(!group_names.is_empty(), "At least one group must be resolved");
    assert!(
        group_names.contains(&"Domain Users".to_string()),
        "Domain Users (primary group) must always be present"
    );
    assert!(
        group_names.contains(&"GRP_IT_Admins".to_string()),
        "GRP_IT_Admins (direct) missing — present groups: {group_names:?}"
    );
    assert!(group_names.contains(&"GRP_Development".to_string()));
    assert!(group_names.contains(&"GRP_FullAccess_FS".to_string()));
    assert!(group_names.contains(&"GRP_ShareAccess_SMB".to_string()));
    assert_eq!(
        direct_by_name.get("GRP_IT_Admins"),
        Some(&true),
        "GRP_IT_Admins must be direct=true"
    );
    assert_eq!(
        direct_by_name.get("GRP_Development"),
        Some(&true),
        "GRP_Development must be direct=true"
    );
    assert_eq!(
        direct_by_name.get("GRP_FullAccess_FS"),
        Some(&false),
        "GRP_FullAccess_FS must be direct=false (transitive)"
    );
    assert_eq!(
        direct_by_name.get("GRP_ShareAccess_SMB"),
        Some(&false),
        "GRP_ShareAccess_SMB must be direct=false (transitive)"
    );
}

#[test]
fn orphaned_sid_returns_unknown() {
    let mut resolver = LdapResolver::new(config());
    let fake_sid = Sid("S-1-5-21-1111111111-2222222222-3333333333-9999".to_string());
    let identity = resolver.settle(&fake_sid, Ok(testdomain().by_sid(&fake_sid.0))).unwrap();
    assert_eq!(identity.kind, IdentityKind::Orphaned);
}

#[test]
fn identity_is_cached_after_first_lookup() {
    let directory = testdomain();
    let mut resolver = LdapResolver::new(config());
    let entry = directory.by_name("anna.schmidt").unwrap();
    let sid = extract_sid_from_entry(&entry).unwrap();
    assert_eq!(resolver.cache_size(), 0);
    resolver.settle(&sid, Ok(directory.by_sid(&sid.0))).unwrap();
    assert_eq!(resolver.cache_size(), 1);
    assert_eq!(resolver.cached(&sid).unwrap().name.as_deref(), Some("anna.schmidt"));
    resolver.settle(&sid, Ok(directory.by_sid(&sid.0))).unwrap();
    assert_eq!(resolver.cache_size(), 1);
}

#[test]
fn an_orphan_is_not_kept() {
    let mut resolver = LdapResolver::new(config());
    let sid = Sid(format!("{DOMAIN}-9"));
    resolver.settle(&sid, Ok(None)).unwrap();
    assert_eq!(resolver.cache_size(), 0);
    assert!(resolver.cached(&sid).is_none());
    let failed = resolver.settle(&sid, Err(CoreError::LdapQuery("down".into())));
    assert_eq!(failed.unwrap_err().message(), "LDAP query error: down");
    assert_eq!(resolver.cache_size(), 0);
    assert!(!resolver.is_global_catalog());
    assert_eq!(resolver.config().port, 636);
}

#[test]
fn paths_follow_the_shortest_chain_and_no_group_is_listed_twice() {
    let directory = Directory::default()
        .add("u", "user", 1, &["a", "b"], &[])
        .add("a", "group", 11, &["c"], &[])
        .add("b", "group", 12, &["d"], &[])
        .add("c", "group", 13, &["d"], &[])
        .add("d", "group", 14, &["a"], &[]);
    let sid = Sid(format!("{DOMAIN}-1"));
    let memberships = directory.memberships(&sid).unwrap();
    assert_eq!(memberships.len(), 4);
    let to = |rid: u32| {
        memberships
            .iter()
            .find(|m| m.group_sid.0 == format!("{DOMAIN}-{rid}"))
            .unwrap()
            .path
            .as_ref()
            .unwrap()
    };
    assert_eq!(to(11).nodes.len(), 2);
    let d = to(14);
    assert!(d.complete);
    assert_eq!(d.source, MembershipPathSource::DomainGroup);
    let nodes: Vec<&str> = d.nodes.iter().map(|s| s.0.as_str()).collect();
    assert_eq!(nodes, vec!["S-1-5-21-1-2-3-1", "S-1-5-21-1-2-3-12", "S-1-5-21-1-2-3-14"]);
    assert_eq!(d.names, vec![Some("u".into()), Some("b".into()), Some("d".into())]);
}

#[test]
fn a_group_without_a_concrete_chain_says_so() {
    let directory = testdomain();
    let principal = directory.by_name("anna.schmidt").unwrap();
    let far = directory.by_name("GRP_FullAccess_FS").unwrap();
    let sid = extract_sid_from_entry(&principal).unwrap();
    let lookup = MembershipLookup::start(sid)
        .answer(Ok(vec![principal]))
        .answer(Ok(vec![far]));
    match lookup {
        MembershipLookup::Finished(Ok(ms)) => {
            assert_eq!(ms.len(), 1);
            let p = ms[0].path.as_ref().unwrap();
            assert!(!p.complete && !ms[0].direct);
            assert_eq!(p.source, MembershipPathSource::LdapMatchingRule);
            assert_eq!(p.nodes.len(), 2);
        }
        _ => panic!("the lookup must have ended"),
    }
}

#[test]
fn a_primary_group_that_cannot_be_found_is_left_out() {
    let directory = testdomain();
    let principal = directory.by_name("max.mustermann").unwrap();
    assert_eq!(primary_group_sid(&principal).unwrap().0, format!("{DOMAIN}-513"));
    let sid = extract_sid_from_entry(&principal).unwrap();
    let lookup = MembershipLookup::start(sid).answer(Ok(vec![principal]));
    assert_eq!(lookup.question(), Question::BySid(format!("{DOMAIN}-513")));
    let lookup = lookup.answer(Err(CoreError::LdapQuery("down".into())));
    assert!(matches!(lookup.question(), Question::GroupsOf(_)));
    match lookup.answer(Ok(vec![])) {
        MembershipLookup::Finished(Ok(ms)) => assert!(ms.is_empty()),
        _ => panic!("without a primary group the lookup ends here"),
    }
}

#[test]
fn a_failed_search_ends_a_lookup_with_its_error() {
    let lookup = MembershipLookup::start(Sid("S-1-5-18".into()));
    match lookup.answer(Err(CoreError::AdConnection("refused".into()))) {
        MembershipLookup::Finished(Err(e)) => {
            assert_eq!(e.message(), "AD connection error: refused")
        }
        _ => panic!("the error must be kept"),
    }
    let unknown = MembershipLookup::start(Sid("S-1-5-18".into())).answer(Ok(vec![]));
    assert!(matches!(unknown, MembershipLookup::Finished(Ok(ref ms)) if ms.is_empty()));
    assert_eq!(unknown.question(), Question::Nothing);
}

#[test]
fn the_members_of_a_group_take_two_searches() {
    let directory = testdomain();
    let group = Sid(format!("{DOMAIN}-513"));
    let plan = plan_member_searches(&group, Ok(directory.by_sid(&group.0).into_iter().collect())).unwrap();
    assert_eq!(plan.backlink, "(memberOf=CN=Domain Users,DC=testdomain,DC=local)");
    assert_eq!(plan.primary, "(primaryGroupID=513)");
    assert_eq!(
        plan_member_searches(&group, Ok(vec![])).unwrap_err().message(),
        format!("SID resolution error: Group not found in the configured base: {DOMAIN}-513")
    );
    assert_eq!(
        plan_member_searches(&Sid("x".into()), Ok(vec![])).unwrap_err().message(),
        "SID resolution error: Cannot derive RID from group SID: x"
    );
    assert_eq!(
        plan_member_searches(&group, Err(CoreError::LdapQuery("down".into()))).unwrap_err().message(),
        "LDAP query error: down"
    );
}

#[test]
fn one_failed_member_search_leaves_a_lower_bound() {
    let directory = testdomain();
    let found = || vec![directory.by_name("anna.schmidt").unwrap()];
    let down = || Err(CoreError::LdapQuery("down".into()));
    let both = combine_member_searches(Ok(found()), Ok(vec![])).unwrap();
    assert_eq!(both.members.len(), 1);
    assert!(both.incomplete.is_none());
    let half = combine_member_searches(Ok(found()), down()).unwrap();
    assert!(matches!(half.members[0].via, MemberVia::Direct));
    assert_eq!(
        half.incomplete.as_deref(),
        Some("primaryGroupID search failed: LDAP query error: down")
    );
    let none = combine_member_searches(down(), down()).unwrap_err();
    assert_eq!(
        none.message(),
        "LDAP query error: member enumeration failed: member back-link search failed: LDAP query error: down; primaryGroupID search failed: LDAP query error: down"
    );
    let nothing = combine_member_searches(down(), Ok(vec![])).unwrap();
    assert!(nothing.members.is_empty());
    assert_eq!(
        nothing.incomplete.as_deref(),
        Some("member back-link search failed: LDAP query error: down")
    );
    assert!(combine_member_searches(Ok(vec![]), Ok(vec![])).unwrap().members.is_empty());
}

#[test]
fn only_an_orphan_counts_as_not_found() {
    let directory = testdomain();
    let mut resolver = LdapResolver::new(config());
    let sid = Sid(format!("{DOMAIN}-500"));
    let found = resolver.settle(&sid, Ok(directory.by_sid(&sid.0)));
    assert!(known_identity(found).unwrap().is_some());
    let missing = resolver.settle(&Sid("S-1-5-18".into()), Ok(None));
    assert!(known_identity(missing).unwrap().is_none());
    assert!(known_identity(Err(CoreError::Cancelled)).is_err());
}

#[test]
fn an_entry_for_a_upn_needs_a_sid() {
    let entry = RawEntry {
        dn: "CN=x".into(),
        attrs: vec![],
        bin_attrs: vec![],
    };
    assert_eq!(
        identity_of_upn_entry(Some(entry), "x@y").unwrap_err().message(),
        "SID resolution error: No objectSid for UPN: x@y"
    );
    assert!(identity_of_upn_entry(None, "x@y").unwrap().is_none());
}

#[test]
fn filters_escape_what_has_a_meaning() {
    assert_eq!(escape_filter_value("a*(b)\\c\0"), "a\\2a\\28b\\29\\5cc\\00");
    assert_eq!(escape_filter_value("plain value"), "plain value");
    assert_eq!(filter_by_dn("CN=a (b)"), "(distinguishedName=CN=a \\28b\\29)");
    assert_eq!(filter_by_samaccount("x*"), "(sAMAccountName=x\\2a)");
    assert_eq!(filter_by_upn("x@y"), "(userPrincipalName=x@y)");
    assert!(filter_by_query("max").contains("*max*"));
    assert_eq!(
        filter_transitive_groups("CN=u"),
        format!("(&(objectClass=group)(member:{LDAP_MATCHING_RULE_IN_CHAIN}:=CN=u))")
    );
    assert_eq!(
        filter_by_sid("S-1-5-18").unwrap(),
        "(objectSid=\\01\\01\\00\\00\\00\\00\\00\\05\\12\\00\\00\\00)"
    );
    assert!(filter_by_sid("nonsense").is_err());
}

#[test]
fn a_search_stops_at_its_limit() {
    assert!(!is_limit_reached(49, Some(50)));
    assert!(is_limit_reached(50, Some(50)));
    assert!(!is_limit_reached(1_000_000, None));
}

#[test]
fn a_timeout_names_the_operation() {
    assert_eq!(ldap_timeout(&config()), 10);
    assert_eq!(
        timeout_error("resolve_identity", 10).message(),
        "LDAP query error: LDAP operation 'resolve_identity' timed out after 10s"
    );
}

#[test]
fn sids_read_back_from_their_bytes() {
    assert_eq!(sid_str_to_bytes("S-1-5-32-544").unwrap(), [1, 2, 0, 0, 0, 0, 0, 5, 32, 0, 0, 0, 32, 2, 0, 0]);
    assert_eq!(
        bytes_to_sid_str(&[1, 1, 0, 0, 0, 0, 1, 0, 255, 255, 255, 255, 9, 9]).unwrap(),
        "S-1-256-4294967295"
    );
    assert_eq!(
        bytes_to_sid_str(&[1, 2, 0, 0, 0, 0, 0, 5, 1, 0, 0, 0]).unwrap_err().message(),
        "SID resolution error: SID-Daten unvollständig / SID data incomplete: expected 16 bytes, got 12"
    );
    assert_eq!(bytes_to_ldap_escape(&[0, 15, 255]), "\\00\\0f\\ff");
    for bad in ["S-x-5-18", "S-1-y-18", "S-1-5-4294967296", "S-1"] {
        assert!(sid_str_to_bytes(bad).is_err(), "{bad}");
    }
}

#[test]
fn trusts_are_listed_by_partner_regardless_of_case() {
    let trust = |partner: &str| RawEntry {
        dn: String::new(),
        attrs: vec![text_attr("trustPartner", &[partner]), text_attr("trustDirection", &["x"])],
        bin_attrs: vec![("securityIdentifier".into(), vec![sid_str_to_bytes("S-1-5-21-4-5-6").unwrap()])],
    };
    let listed = trusts_of_entries(&vec![trust("b.lab"), trust("A.lab"), trust("\u{c4}.lab"), trust("a.lab")]);
    let names: Vec<&str> = listed.iter().map(|t| t.partner.as_str()).collect();
    assert_eq!(names, vec!["A.lab", "a.lab", "b.lab", "\u{c4}.lab"]);
    assert_eq!(parse_trust(&trust("a")).unwrap().sid.unwrap().0, "S-1-5-21-4-5-6");
}

fn listing(accounts: &[(&str, &str, &str)], status: u32) -> RawListing {
    RawListing {
        accounts: accounts
            .iter()
            .map(|(name, comment, full_name)| RawAccount {
                name: name.to_string(),
                comment: comment.to_string(),
                full_name: full_name.to_string(),
            })
            .collect(),
        status,
    }
}

#[test]
fn identities_are_sorted_and_no_neighbours_repeat() {
    let all = enumerate_all(
        "CORP",
        listing(&[("zoe", "", "Zoe Z"), ("ADAM", "", "")], 0),
        listing(&[("adam", "", ""), ("Ops", "operators", "")], 0),
        listing(&[("Administrators", "", "")], 0),
    );
    let corp: Vec<&str> = all
        .iter()
        .filter(|i| i.domain == "CORP")
        .map(|i| i.name.as_str())
        .collect();
    let keys: Vec<(String, String)> = all
        .iter()
        .map(|i| (i.domain.to_lowercase(), i.name.to_lowercase()))
        .collect();
    let mut sorted = keys.clone();
    sorted.sort();
    assert_eq!(keys, sorted);
    assert!(corp.contains(&"zoe") && corp.contains(&"Ops"));
    let ops = all.iter().find(|i| i.name == "Ops").unwrap();
    assert_eq!(ops.qualified_name(), "CORP\\Ops");
    assert_eq!(ops.kind, IdentityKind::Group);
}
