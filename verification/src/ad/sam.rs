//! Identities from the local account database.

use vstd::hash_map::StringHashMap;
use vstd::prelude::*;

use crate::ad::enumerate;
use crate::ad::local_groups;
use crate::ad::local_groups::{
    memberships_of_chains, resolve_local_group_chains, status_error, LocalChain, LocalGroupFacts,
    NERR_USER_NOT_FOUND,
};
use crate::ad::resolver::bare;
use crate::error::CoreError;
use crate::model::identity;
use crate::model::identity::{Identity, IdentityKind};
use crate::model::membership;
use crate::model::membership::{short_path, GroupMembership, MembershipPath, MembershipPathSource};
use crate::model::sid::Sid;
use crate::text;

verus! {

/// An account that was looked up by its SID.
#[derive(Debug, PartialEq, Eq)]
pub struct AccountInfo {
    /// Account name without a domain.
    pub name: String,
    /// Authority or domain; may be empty.
    pub domain: String,
    pub kind: IdentityKind,
}

impl AccountInfo {
    /// The form `DOMAIN\Name`, or the name alone where there is no domain.
    pub fn display(&self) -> (r: String)
        ensures
            r@ == enumerate::qualified(self.domain@, self.name@),
    {
        if self.domain.as_str().is_empty() {
            self.name.clone()
        } else {
            self.domain.clone().concat("\\").concat(self.name.as_str())
        }
    }
}

/// The kind of an account by its `SID_NAME_USE` code.
pub open spec fn kind_of_use(use_code: i32) -> IdentityKind {
    if use_code == 1 {
        IdentityKind::User
    } else if use_code == 2 || use_code == 4 {
        IdentityKind::Group
    } else if use_code == 5 {
        IdentityKind::WellKnown
    } else if use_code == 9 {
        IdentityKind::Computer
    } else if use_code == 6 {
        IdentityKind::Orphaned
    } else {
        IdentityKind::Unknown
    }
}

/// Classifies an account by its `SID_NAME_USE` code: user, group, alias, well-known
/// group, computer or deleted account.
pub fn sid_use_to_kind(use_code: i32) -> (r: IdentityKind)
    ensures
        r == kind_of_use(use_code),
{
    match use_code {
        1 => IdentityKind::User,
        2 => IdentityKind::Group,
        4 => IdentityKind::Group,
        5 => IdentityKind::WellKnown,
        9 => IdentityKind::Computer,
        6 => IdentityKind::Orphaned,
        _ => IdentityKind::Unknown,
    }
}

/// Whether a unit is the first half of a surrogate pair.
pub open spec fn is_high_surrogate(u: u16) -> bool {
    0xd800 <= u < 0xdc00
}

/// Whether a unit is the second half of a surrogate pair.
pub open spec fn is_low_surrogate(u: u16) -> bool {
    0xdc00 <= u < 0xe000
}

/// The text that UTF-16 code units stand for: a surrogate pair is one character, and an
/// unpaired surrogate becomes the replacement character.
pub open spec fn utf16_text(units: Seq<u16>) -> Seq<char>
    decreases units.len(),
{
    if units.len() == 0 {
        Seq::empty()
    } else if !is_high_surrogate(units[0]) && !is_low_surrogate(units[0]) {
        seq![units[0] as char] + utf16_text(units.skip(1))
    } else if is_high_surrogate(units[0]) && units.len() > 1 && is_low_surrogate(units[1]) {
        seq![(0x10000 + (units[0] - 0xd800) * 0x400 + (units[1] - 0xdc00)) as char] + utf16_text(
            units.skip(2),
        )
    } else {
        seq!['\u{fffd}'] + utf16_text(units.skip(1))
    }
}

/// Calls `String::from_utf16_lossy`, which decodes UTF-16 and puts the replacement character
/// in place of every unpaired surrogate.
#[verifier::external_body]
fn decode_utf16(units: &[u16]) -> (r: String)
    ensures
        r@ == utf16_text(units@),
{
    String::from_utf16_lossy(units)
}

/// The units before the first zero.
pub open spec fn before_zero(units: Seq<u16>) -> Seq<u16>
    decreases units.len(),
{
    if units.len() == 0 || units[0] == 0 {
        Seq::empty()
    } else {
        seq![units[0]] + before_zero(units.skip(1))
    }
}

/// The units before the first zero are a prefix that ends there.
proof fn lemma_before_zero(units: Seq<u16>, n: int)
    requires
        0 <= n <= units.len(),
        forall|i: int| 0 <= i < n ==> units[i] != 0,
        n == units.len() || units[n] == 0,
    ensures
        before_zero(units) == units.take(n),
    decreases n,
{
    if n > 0 {
        let rest = units.skip(1);
        assert forall|i: int| 0 <= i < n - 1 implies rest[i] != 0 by {
            assert(rest[i] == units[i + 1]);
        }
        lemma_before_zero(rest, n - 1);
        assert(seq![units[0]] + rest.take(n - 1) =~= units.take(n));
    } else {
        assert(units.take(0) =~= Seq::empty());
    }
}

/// Decodes a buffer up to its first zero.
pub fn wide_buf_to_string(buf: &[u16]) -> (r: String)
    ensures
        r@ == utf16_text(before_zero(buf@)),
{
    let mut units: Vec<u16> = Vec::new();
    let mut i: usize = 0;
    while i < buf.len() && buf[i] != 0
        invariant
            i <= buf@.len(),
            units@ == buf@.take(i as int),
            forall|j: int| 0 <= j < i ==> buf@[j] != 0,
        decreases buf@.len() - i,
    {
        units.push(buf[i]);
        assert(units@ =~= buf@.take(i + 1));
        i = i + 1;
    }
    proof {
        lemma_before_zero(buf@, i as int);
    }
    decode_utf16(units.as_slice())
}

/// What the system says about a SID.
#[derive(Debug)]
pub enum SidLookup {
    /// The text is not a SID.
    NotASid,
    /// No account has the SID.
    NoName,
    /// The lookup failed.
    Failed,
    /// The account: its name, its domain and its `SID_NAME_USE` code.
    Found(Vec<u16>, Vec<u16>, i32),
}

/// Whether `a` is the account of the lookup.
pub open spec fn is_account(a: AccountInfo, name: Seq<u16>, domain: Seq<u16>, use_code: i32) -> bool {
    &&& a.name@ == utf16_text(before_zero(name))
    &&& a.domain@ == utf16_text(before_zero(domain))
    &&& a.kind == kind_of_use(use_code)
}

/// Interprets what the system says about a SID.
pub fn lookup_account_for_sid(sid_str: &str, reply: SidLookup) -> (r: Result<AccountInfo, CoreError>)
    ensures
        (match reply {
            SidLookup::NotASid => r matches Err(CoreError::SidResolution(m)) && m@
                == "ConvertStringSidToSidW failed for '"@ + sid_str@ + "'"@,
            SidLookup::NoName => r matches Err(CoreError::SidResolution(m)) && m@
                == "LookupAccountSidW: SID has no name on this system"@,
            SidLookup::Failed => r matches Err(CoreError::SidResolution(m)) && m@
                == "LookupAccountSidW failed on the second call"@,
            SidLookup::Found(name, domain, use_code) => r matches Ok(a) && is_account(
                a,
                name@,
                domain@,
                use_code,
            ),
        }),
{
    match reply {
        SidLookup::NotASid => Err(
            CoreError::SidResolution(
                "ConvertStringSidToSidW failed for '".to_owned().concat(sid_str).concat("'"),
            ),
        ),
        SidLookup::NoName => Err(
            CoreError::SidResolution(
                "LookupAccountSidW: SID has no name on this system".to_owned(),
            ),
        ),
        SidLookup::Failed => Err(
            CoreError::SidResolution("LookupAccountSidW failed on the second call".to_owned()),
        ),
        SidLookup::Found(name, domain, use_code) => Ok(
            AccountInfo {
                name: wide_buf_to_string(name.as_slice()),
                domain: wide_buf_to_string(domain.as_slice()),
                kind: sid_use_to_kind(use_code),
            },
        ),
    }
}

/// The texts that are not empty, in their order.
pub open spec fn non_empty(texts: Seq<Seq<char>>) -> Seq<Seq<char>>
    decreases texts.len(),
{
    if texts.len() == 0 {
        Seq::empty()
    } else {
        let init = non_empty(texts.drop_last());
        if texts.last().len() == 0 {
            init
        } else {
            init.push(texts.last())
        }
    }
}

/// Interprets what the system says about the global groups of a user. A user that
/// is not known has none.
pub fn user_global_group_names(
    server: Option<&str>,
    username: &str,
    reply: Result<Vec<String>, u32>,
) -> (r: Result<Vec<String>, CoreError>)
    ensures
        (match reply {
            Ok(names) => r matches Ok(v) && text::texts(v@) == non_empty(text::texts(names@)),
            Err(status) => if status == NERR_USER_NOT_FOUND {
                r matches Ok(v) && v@.len() == 0
            } else {
                r matches Err(e) && local_groups::is_status_error(
                    e,
                    "NetUserGetGroups"@,
                    username@,
                    local_groups::server_of(server),
                    status,
                )
            },
        }),
{
    let names: Vec<String> = match reply {
        Ok(v) => v,
        Err(status) => {
            return if status == NERR_USER_NOT_FOUND {
                Ok(Vec::new())
            } else {
                Err(status_error("NetUserGetGroups", username, server, status))
            };
        },
    };
    let mut out: Vec<String> = Vec::new();
    assert(text::texts(out@) =~= Seq::empty());
    let ghost all = text::texts(names@);
    assert(all.take(0) =~= Seq::empty());
    for i in 0..names.len()
        invariant
            all == text::texts(names@),
            text::texts(out@) == non_empty(all.take(i as int)),
    {
        assert(all.take(i + 1).drop_last() =~= all.take(i as int));
        assert(all[i as int] == names@[i as int]@);
        if !names[i].as_str().is_empty() {
            let ghost before = text::texts(out@);
            out.push(names[i].clone());
            assert(text::texts(out@) =~= before.push(names@[i as int]@));
        }
    }
    assert(all.take(all.len() as int) =~= all);
    Ok(out)
}

/// What the system says about a name.
#[derive(Debug)]
pub enum NameLookup {
    /// No SID has the name.
    NoSid,
    /// The lookup failed.
    Failed,
    /// The SID could not be written as text.
    NotPrintable,
    /// The SID.
    Found(String),
}

/// Interprets what the system says about the name of an account or group.
pub fn lookup_sid_for_account(name: &str, reply: NameLookup) -> (r: Result<Sid, CoreError>)
    ensures
        (match reply {
            NameLookup::NoSid => r matches Err(CoreError::SidResolution(m)) && m@
                == "LookupAccountNameW: '"@ + name@ + "' has no SID on this system"@,
            NameLookup::Failed => r matches Err(CoreError::SidResolution(m)) && m@
                == "LookupAccountNameW failed for '"@ + name@ + "'"@,
            NameLookup::NotPrintable => r matches Err(CoreError::SidResolution(m)) && m@
                == "ConvertSidToStringSidW failed for '"@ + name@ + "'"@,
            NameLookup::Found(s) => r matches Ok(sid) && sid@ == s@,
        }),
{
    match reply {
        NameLookup::NoSid => Err(
            CoreError::SidResolution(
                "LookupAccountNameW: '".to_owned().concat(name).concat(
                    "' has no SID on this system",
                ),
            ),
        ),
        NameLookup::Failed => Err(
            CoreError::SidResolution(
                "LookupAccountNameW failed for '".to_owned().concat(name).concat("'"),
            ),
        ),
        NameLookup::NotPrintable => Err(
            CoreError::SidResolution(
                "ConvertSidToStringSidW failed for '".to_owned().concat(name).concat("'"),
            ),
        ),
        NameLookup::Found(s) => Ok(Sid(s)),
    }
}

/// The flag of a disabled account.
pub const UF_ACCOUNTDISABLE: u32 = 0x2;

/// Reads whether an account is disabled from its flags; `None` where the flags
/// could not be read.
pub fn user_account_disabled(flags: Option<u32>) -> (r: Option<bool>)
    ensures
        r == (match flags {
            Some(f) => Some(f & UF_ACCOUNTDISABLE != 0),
            None => None,
        }),
        flags matches Some(f) ==> r == Some(f & 0x2 != 0),
{
    match flags {
        Some(f) => Some(f & UF_ACCOUNTDISABLE != 0),
        None => None,
    }
}

/// Identity and groups from the account database. `disabled_known` tells a real
/// value of the flag from a default.
#[derive(Debug)]
pub struct SamResolution {
    pub identity: Identity,
    pub memberships: Vec<GroupMembership>,
    pub disabled_known: bool,
}

/// What the account database says about the groups of a user.
#[derive(Debug)]
pub struct SamFacts {
    /// Whether the account is disabled, where that is known.
    pub disabled: Option<bool>,
    /// The names of the global groups, with their SIDs where they could be looked
    /// up.
    pub global_groups: Result<Vec<(String, Result<Sid, CoreError>)>, CoreError>,
    /// The local groups.
    pub local_groups: Result<Vec<LocalGroupFacts>, CoreError>,
}

/// The identity of an account. Only users can be disabled.
pub open spec fn sam_identity(
    sid: Seq<char>,
    account: AccountInfo,
    disabled: Option<bool>,
) -> identity::IdentityView {
    identity::IdentityView {
        name: Some(account.name@),
        domain: if account.domain@.len() == 0 {
            None
        } else {
            Some(account.domain@)
        },
        disabled: account.kind == IdentityKind::User && disabled == Some(true),
        ..identity::bare_identity(sid, account.kind)
    }
}

/// The membership in a global group. The database shows direct edges only.
pub open spec fn global_membership(
    sid: Seq<char>,
    name: Seq<char>,
    group_name: Seq<char>,
    group_sid: Seq<char>,
) -> membership::GroupMembershipView {
    membership::GroupMembershipView {
        member_sid: sid,
        group_sid,
        direct: true,
        group_name: Some(group_name),
        path: Some(
            membership::short_path_view(
                sid,
                Some(name),
                group_sid,
                Some(group_name),
                MembershipPathSource::DomainGroup,
                true,
            ),
        ),
        group_sid_history_count: 0,
        group_sid_history: Seq::empty(),
    }
}

/// The memberships in the global groups whose SIDs could be looked up, in their
/// order.
pub open spec fn global_memberships(
    sid: Seq<char>,
    name: Seq<char>,
    groups: Seq<(String, Result<Sid, CoreError>)>,
) -> Seq<membership::GroupMembershipView>
    decreases groups.len(),
{
    if groups.len() == 0 {
        Seq::empty()
    } else {
        let init = global_memberships(sid, name, groups.drop_last());
        match groups.last().1 {
            Ok(group_sid) => init.push(
                global_membership(sid, name, groups.last().0@, group_sid@),
            ),
            Err(_) => init,
        }
    }
}

/// Builds the memberships in the global groups.
fn build_global_memberships(
    sid: &Sid,
    name: &str,
    groups: &Vec<(String, Result<Sid, CoreError>)>,
) -> (r: Vec<GroupMembership>)
    ensures
        membership::membership_views(r@) == global_memberships(sid@, name@, groups@),
{
    let mut out: Vec<GroupMembership> = Vec::new();
    assert(membership::membership_views(out@) =~= Seq::empty());
    for i in 0..groups.len()
        invariant
            membership::membership_views(out@) == global_memberships(
                sid@,
                name@,
                groups@.take(i as int),
            ),
    {
        assert(groups@.take(i + 1).drop_last() =~= groups@.take(i as int));
        if let Ok(group_sid) = &groups[i].1 {
            let ghost before = membership::membership_views(out@);
            let path: MembershipPath = short_path(
                sid,
                Some(name.to_owned()),
                group_sid,
                Some(groups[i].0.clone()),
                MembershipPathSource::DomainGroup,
                true,
            );
            let m: GroupMembership = GroupMembership {
                member_sid: sid.clone(),
                group_sid: group_sid.clone(),
                direct: true,
                group_name: Some(groups[i].0.clone()),
                path: Some(path),
                group_sid_history_count: 0,
                group_sid_history: Vec::new(),
            };
            assert(m@.group_sid_history =~= Seq::empty());
            out.push(m);
            assert(membership::membership_views(out@) =~= before.push(m@));
        }
    }
    assert(groups@.take(groups@.len() as int) =~= groups@);
    out
}

/// Whether `known` holds the SID of the user, then those of its global groups,
/// each with its name.
pub open spec fn is_token(
    known: Seq<(Sid, String)>,
    sid: Seq<char>,
    name: Seq<char>,
    globals: Seq<membership::GroupMembershipView>,
) -> bool {
    &&& known.len() == globals.len() + 1
    &&& known[0].0@ == sid
    &&& known[0].1@ == name
    &&& forall|i: int|
        0 <= i < globals.len() ==> (#[trigger] known[i + 1]).0@ == globals[i].group_sid && Some(
            known[i + 1].1@,
        ) == globals[i].group_name
}

/// Lists the SIDs that are known to be in the token of a user, with their names.
fn token_of(sid: &Sid, name: &str, globals: &Vec<GroupMembership>) -> (r: Vec<(Sid, String)>)
    requires
        forall|i: int| 0 <= i < globals@.len() ==> (#[trigger] globals@[i]).group_name is Some,
    ensures
        is_token(r@, sid@, name@, membership::membership_views(globals@)),
{
    let mut known: Vec<(Sid, String)> = Vec::new();
    known.push((sid.clone(), name.to_owned()));
    for i in 0..globals.len()
        invariant
            forall|j: int| 0 <= j < globals@.len() ==> (#[trigger] globals@[j]).group_name is Some,
            known@.len() == i + 1,
            known@[0].0@ == sid@,
            known@[0].1@ == name@,
            forall|j: int|
                0 <= j < i ==> (#[trigger] known@[j + 1]).0@ == globals@[j].group_sid@ && Some(
                    known@[j + 1].1@,
                ) == text::text_of(globals@[j].group_name),
    {
        assert(globals@[i as int].group_name is Some);
        if let Some(n) = &globals[i].group_name {
            known.push((globals[i].group_sid.clone(), n.clone()));
        }
    }
    known
}

/// Every membership in a global group names the group.
proof fn lemma_globals_are_named(
    sid: Seq<char>,
    name: Seq<char>,
    groups: Seq<(String, Result<Sid, CoreError>)>,
)
    ensures
        forall|i: int|
            0 <= i < global_memberships(sid, name, groups).len() ==> (
            #[trigger] global_memberships(sid, name, groups)[i]).group_name is Some,
    decreases groups.len(),
{
    if groups.len() > 0 {
        let init = global_memberships(sid, name, groups.drop_last());
        let all = global_memberships(sid, name, groups);
        lemma_globals_are_named(sid, name, groups.drop_last());
        assert forall|i: int| 0 <= i < all.len() implies (#[trigger] all[i]).group_name is Some by {
            if i < init.len() {
                assert(all[i] == init[i]);
            }
        }
    }
}

/// The memberships in global groups that the facts give. A failed lookup gives
/// none.
pub open spec fn globals_of(sid: Seq<char>, name: Seq<char>, facts: SamFacts) -> Seq<
    membership::GroupMembershipView,
> {
    match facts.global_groups {
        Ok(groups) => global_memberships(sid, name, groups@),
        Err(_) => Seq::empty(),
    }
}

/// Whether `locals` are the memberships in local groups that the facts give: the
/// chains go through the SIDs that are known to be in the token. A failed lookup
/// gives none.
pub open spec fn are_locals(
    locals: Seq<membership::GroupMembershipView>,
    sid: Seq<char>,
    name: Seq<char>,
    facts: SamFacts,
) -> bool {
    match facts.local_groups {
        Err(_) => locals.len() == 0,
        Ok(groups) => exists|known: Seq<(Sid, String)>, chains: Seq<LocalChain>|
            #![trigger is_token(known, sid, name, globals_of(sid, name, facts)), local_groups::chain_memberships(sid, chains)]
            {
                &&& is_token(known, sid, name, globals_of(sid, name, facts))
                &&& chains.len() == groups@.len()
                &&& forall|i: int|
                    0 <= i < chains.len() ==> local_groups::is_chain_to(
                        #[trigger] chains[i],
                        sid,
                        Some(name),
                        known,
                        groups@[i],
                    )
                &&& locals == local_groups::chain_memberships(sid, chains)
            },
    }
}

/// Resolves an account through the account database. Groups are looked up for
/// users only. Where the flag of a user is not known, the identity counts as
/// active and the result says so.
pub fn resolve_identity_via_sam(sid_str: &str, account: AccountInfo, facts: SamFacts) -> (r:
    SamResolution)
    ensures
        r.identity@ == sam_identity(sid_str@, account, facts.disabled),
        r.disabled_known == (account.kind != IdentityKind::User || facts.disabled is Some),
        account.kind != IdentityKind::User ==> r.memberships@.len() == 0,
        account.kind == IdentityKind::User ==> {
            let globals = globals_of(sid_str@, account.name@, facts);
            let all = membership::membership_views(r.memberships@);
            &&& globals.is_prefix_of(all)
            &&& are_locals(all.skip(globals.len() as int), sid_str@, account.name@, facts)
        },
{
    let is_user: bool = account.kind == IdentityKind::User;
    let sid: Sid = Sid(sid_str.to_owned());
    let mut identity: Identity = bare(&sid, account.kind);
    identity.name = Some(account.name.clone());
    identity.domain = if account.domain.as_str().is_empty() {
        None
    } else {
        Some(account.domain.clone())
    };
    identity.disabled = is_user && match facts.disabled {
        Some(b) => b,
        None => false,
    };
    let disabled_known: bool = !is_user || facts.disabled.is_some();
    if !is_user {
        return SamResolution { identity, memberships: Vec::new(), disabled_known };
    }
    let mut memberships: Vec<GroupMembership> = match &facts.global_groups {
        Ok(groups) => build_global_memberships(&sid, account.name.as_str(), groups),
        Err(_) => Vec::new(),
    };
    let ghost globals = globals_of(sid@, account.name@, facts);
    assert(membership::membership_views(memberships@) =~= globals);
    if let Ok(groups) = &facts.local_groups {
        proof {
            if let Ok(listed) = facts.global_groups {
                lemma_globals_are_named(sid@, account.name@, listed@);
            }
            assert forall|i: int| 0 <= i < memberships@.len() implies (
            #[trigger] memberships@[i]).group_name is Some by {
                assert(globals[i] == memberships@[i]@);
            }
        }
        let known: Vec<(Sid, String)> = token_of(&sid, account.name.as_str(), &memberships);
        let chains: Vec<LocalChain> = resolve_local_group_chains(
            &sid,
            Some(account.name.as_str()),
            &known,
            groups,
        );
        let mut locals: Vec<GroupMembership> = memberships_of_chains(&sid, &chains);
        let ghost before = memberships@;
        let ghost added = locals@;
        memberships.append(&mut locals);
        assert(membership::membership_views(memberships@) =~= globals
            + local_groups::chain_memberships(sid@, chains@)) by {
            assert(membership::membership_views(before + added) =~= membership::membership_views(
                before,
            ) + membership::membership_views(added));
        }
        assert(is_token(known@, sid@, account.name@, globals));
        assert(membership::membership_views(memberships@).skip(globals.len() as int)
            =~= local_groups::chain_memberships(sid@, chains@));
    } else {
        assert(membership::membership_views(memberships@).skip(globals.len() as int)
            =~= Seq::empty());
    }
    SamResolution { identity, memberships, disabled_known }
}

/// What a [`SidNameResolver`] knows.
pub struct NamesView {
    /// The names that were found.
    pub names: Map<Seq<char>, Seq<char>>,
    /// The SIDs that need not be looked up any more.
    pub tried: Set<Seq<char>>,
}

/// Looks names up for SIDs, each SID once.
pub struct SidNameResolver {
    map: StringHashMap<String>,
    tried: StringHashMap<bool>,
}

impl View for SidNameResolver {
    type V = NamesView;

    closed spec fn view(&self) -> NamesView {
        NamesView {
            names: self.map@.map_values(|s: String| s@),
            tried: self.tried@.dom(),
        }
    }
}

/// What is known once the groups of `memberships` that have a name were taken
/// over.
pub open spec fn seeded(memberships: Seq<GroupMembership>) -> NamesView
    decreases memberships.len(),
{
    if memberships.len() == 0 {
        NamesView { names: Map::empty(), tried: Set::empty() }
    } else {
        let init = seeded(memberships.drop_last());
        let m = memberships.last();
        match local_groups::given(text::text_of(m.group_name)) {
            Some(name) => NamesView {
                names: init.names.insert(m.group_sid@, name),
                tried: init.tried.insert(m.group_sid@),
            },
            None => init,
        }
    }
}

/// What is known once the answer for a SID was taken over. An answer for a SID
/// that was tried before changes nothing.
pub open spec fn learned(
    n: NamesView,
    sid: Seq<char>,
    answer: Result<AccountInfo, CoreError>,
) -> NamesView {
    if n.tried.contains(sid) {
        n
    } else {
        NamesView {
            names: match answer {
                Ok(a) => if enumerate::qualified(a.domain@, a.name@).len() == 0 {
                    n.names
                } else {
                    n.names.insert(sid, enumerate::qualified(a.domain@, a.name@))
                },
                Err(_) => n.names,
            },
            tried: n.tried.insert(sid),
        }
    }
}

/// What is known once all answers were taken over, in their order.
pub open spec fn learned_all(
    n: NamesView,
    answers: Seq<(String, Result<AccountInfo, CoreError>)>,
) -> NamesView
    decreases answers.len(),
{
    if answers.len() == 0 {
        n
    } else {
        learned(learned_all(n, answers.drop_last()), answers.last().0@, answers.last().1)
    }
}

/// The SIDs that have to be looked up, each once, in their order.
pub open spec fn untried_sids(n: NamesView, sids: Seq<Seq<char>>) -> Seq<Seq<char>>
    decreases sids.len(),
{
    if sids.len() == 0 {
        Seq::empty()
    } else {
        let init = untried_sids(n, sids.drop_last());
        if n.tried.contains(sids.last()) || init.contains(sids.last()) {
            init
        } else {
            init.push(sids.last())
        }
    }
}

impl SidNameResolver {
    /// Takes over the groups that have a name. The others have to be looked up:
    /// see [`unnamed_groups`].
    pub fn new(memberships: &[GroupMembership]) -> (r: Self)
        ensures
            r@ == seeded(memberships@),
    {
        let mut r: SidNameResolver = SidNameResolver {
            map: StringHashMap::new(),
            tried: StringHashMap::new(),
        };
        assert(r@.names =~= Map::empty());
        assert(r@.tried =~= Set::empty());
        for i in 0..memberships.len()
            invariant
                r@ == seeded(memberships@.take(i as int)),
        {
            assert(memberships@.take(i + 1).drop_last() =~= memberships@.take(i as int));
            if let Some(name) = &memberships[i].group_name {
                if !name.as_str().is_empty() {
                    let ghost before = r@;
                    let ghost sid = memberships@[i as int].group_sid@;
                    r.map.insert(memberships[i].group_sid.0.clone(), name.clone());
                    r.tried.insert(memberships[i].group_sid.0.clone(), true);
                    assert(r@.names =~= before.names.insert(sid, name@));
                    assert(r@.tried =~= before.tried.insert(sid));
                }
            }
        }
        assert(memberships@.take(memberships@.len() as int) =~= memberships@);
        r
    }

    /// Lists the SIDs that have to be looked up, each once.
    pub fn untried(&self, sids: &Vec<String>) -> (r: Vec<String>)
        ensures
            text::texts(r@) == untried_sids(self@, text::texts(sids@)),
    {
        let mut out: Vec<String> = Vec::new();
        let ghost all = text::texts(sids@);
        assert(text::texts(out@) =~= Seq::empty());
        assert(all.take(0) =~= Seq::empty());
        for i in 0..sids.len()
            invariant
                all == text::texts(sids@),
                text::texts(out@) == untried_sids(self@, all.take(i as int)),
        {
            assert(all.take(i + 1).drop_last() =~= all.take(i as int));
            assert(all[i as int] == sids@[i as int]@);
            if !self.tried.contains_key(sids[i].as_str()) && !text::is_listed(
                &out,
                sids[i].as_str(),
            ) {
                let ghost before = text::texts(out@);
                out.push(sids[i].clone());
                assert(text::texts(out@) =~= before.push(sids@[i as int]@));
            }
        }
        assert(all.take(all.len() as int) =~= all);
        out
    }

    /// Takes over what was looked up. SIDs that were tried before are skipped.
    pub fn resolve(&mut self, answers: Vec<(String, Result<AccountInfo, CoreError>)>)
        ensures
            final(self)@ == learned_all(old(self)@, answers@),
    {
        let ghost start = self@;
        for i in 0..answers.len()
            invariant
                self@ == learned_all(start, answers@.take(i as int)),
        {
            assert(answers@.take(i + 1).drop_last() =~= answers@.take(i as int));
            let ghost before = self@;
            let sid: &String = &answers[i].0;
            if !self.tried.contains_key(sid.as_str()) {
                self.tried.insert(sid.clone(), true);
                assert(self@.tried =~= before.tried.insert(sid@));
                if let Ok(a) = &answers[i].1 {
                    let display: String = a.display();
                    if !display.as_str().is_empty() {
                        self.map.insert(sid.clone(), display);
                        assert(self@.names =~= before.names.insert(sid@, display@));
                    }
                }
            }
        }
        assert(answers@.take(answers@.len() as int) =~= answers@);
    }

    /// The name of a SID, where one was found.
    pub fn name_of(&self, sid: &str) -> (r: Option<&String>)
        ensures
            (match r {
                Some(s) => Some(s@),
                None => None,
            }) == (if self@.names.contains_key(sid@) {
                Some(self@.names[sid@])
            } else {
                None
            }),
    {
        self.map.get(sid)
    }

    /// Copies the names of `sids` that were found so far: what one object needs.
    pub fn names_of(&self, sids: &Vec<String>) -> (r: StringHashMap<String>)
        ensures
            r@.map_values(|s: String| s@) == self@.names.restrict(text::texts(sids@).to_set()),
    {
        let mut out: StringHashMap<String> = StringHashMap::new();
        let ghost all = text::texts(sids@);
        assert(out@.map_values(|s: String| s@) =~= self@.names.restrict(all.take(0).to_set()));
        for i in 0..sids.len()
            invariant
                all == text::texts(sids@),
                out@.map_values(|s: String| s@) == self@.names.restrict(
                    all.take(i as int).to_set(),
                ),
        {
            let ghost before = out@;
            assert(all.take(i + 1) =~= all.take(i as int).push(all[i as int]));
            assert(all.take(i + 1).to_set() =~= all.take(i as int).to_set().insert(
                all[i as int],
            )) by {
                assert forall|x: Seq<char>|
                    all.take(i as int).to_set().insert(all[i as int]).contains(
                        x,
                    ) implies all.take(i + 1).to_set().contains(x) by {
                    if x == all[i as int] {
                        assert(all.take(i + 1)[i as int] == x);
                    } else {
                        let j = choose|j: int| 0 <= j < i && all.take(i as int)[j] == x;
                        assert(all.take(i + 1)[j] == x);
                    }
                }
            }
            if let Some(name) = self.name_of(sids[i].as_str()) {
                out.insert(sids[i].clone(), name.clone());
                assert(out@.map_values(|s: String| s@) =~= before.map_values(
                    |s: String| s@,
                ).insert(all[i as int], name@));
            }
            assert(out@.map_values(|s: String| s@) =~= self@.names.restrict(
                all.take(i + 1).to_set(),
            ));
        }
        assert(all.take(all.len() as int) =~= all);
        out
    }

    /// The names that were found so far.
    pub fn map(&self) -> (r: &StringHashMap<String>)
        ensures
            r@.map_values(|s: String| s@) == self@.names,
    {
        &self.map
    }

    /// The names that were found.
    pub fn into_map(self) -> (r: StringHashMap<String>)
        ensures
            r@.map_values(|s: String| s@) == self@.names,
    {
        self.map
    }
}

/// Whether no name was given for the group of `m`.
pub open spec fn is_unnamed(m: GroupMembership) -> bool {
    local_groups::given(text::text_of(m.group_name)) is None
}

/// The SIDs of the groups without a name, in their order.
pub open spec fn unnamed_sids(memberships: Seq<GroupMembership>) -> Seq<Seq<char>>
    decreases memberships.len(),
{
    if memberships.len() == 0 {
        Seq::empty()
    } else {
        let init = unnamed_sids(memberships.drop_last());
        if is_unnamed(memberships.last()) {
            init.push(memberships.last().group_sid@)
        } else {
            init
        }
    }
}

/// Lists the SIDs of the groups without a name.
pub fn unnamed_groups(memberships: &[GroupMembership]) -> (r: Vec<String>)
    ensures
        text::texts(r@) == unnamed_sids(memberships@),
{
    let mut out: Vec<String> = Vec::new();
    assert(text::texts(out@) =~= Seq::empty());
    for i in 0..memberships.len()
        invariant
            text::texts(out@) == unnamed_sids(memberships@.take(i as int)),
    {
        assert(memberships@.take(i + 1).drop_last() =~= memberships@.take(i as int));
        let named: bool = match &memberships[i].group_name {
            Some(n) => !n.as_str().is_empty(),
            None => false,
        };
        if !named {
            let ghost before = text::texts(out@);
            out.push(memberships[i].group_sid.0.clone());
            assert(text::texts(out@) =~= before.push(memberships@[i as int].group_sid@));
        }
    }
    assert(memberships@.take(memberships@.len() as int) =~= memberships@);
    out
}

/// Builds the table of names for the groups of `memberships` and for what else was
/// looked up.
pub fn build_sid_name_map(
    memberships: &[GroupMembership],
    answers: Vec<(String, Result<AccountInfo, CoreError>)>,
) -> (r: StringHashMap<String>)
    ensures
        r@.map_values(|s: String| s@) == learned_all(seeded(memberships@), answers@).names,
{
    let mut resolver: SidNameResolver = SidNameResolver::new(memberships);
    resolver.resolve(answers);
    resolver.into_map()
}

/// Answers in two batches are as good as answers in one: names can be looked up
/// object by object.
pub proof fn law_batches_do_not_matter(
    n: NamesView,
    first: Seq<(String, Result<AccountInfo, CoreError>)>,
    second: Seq<(String, Result<AccountInfo, CoreError>)>,
)
    ensures
        learned_all(learned_all(n, first), second) == learned_all(n, first + second),
    decreases second.len(),
{
    if second.len() == 0 {
        assert(first + second =~= first);
    } else {
        law_batches_do_not_matter(n, first, second.drop_last());
        assert((first + second).drop_last() =~= first + second.drop_last());
    }
}

/// A SID that was looked up is not asked for again, and its name stays.
pub proof fn law_each_sid_is_looked_up_once(
    n: NamesView,
    answers: Seq<(String, Result<AccountInfo, CoreError>)>,
    sids: Seq<Seq<char>>,
)
    requires
        forall|s: Seq<char>| sids.contains(s) ==> n.tried.contains(s) || exists|i: int|
            0 <= i < answers.len() && (#[trigger] answers[i]).0@ == s,
    ensures
        untried_sids(learned_all(n, answers), sids).len() == 0,
        forall|s: Seq<char>| #[trigger]
            n.tried.contains(s) ==> (learned_all(n, answers).names.contains_key(s)
                == n.names.contains_key(s) && (n.names.contains_key(s) ==> learned_all(
                n,
                answers,
            ).names[s] == n.names[s])),
{
    lemma_learned_all(n, answers);
    lemma_nothing_untried(learned_all(n, answers), sids);
}

proof fn lemma_learned_all(n: NamesView, answers: Seq<(String, Result<AccountInfo, CoreError>)>)
    ensures
        forall|s: Seq<char>| #[trigger]
            n.tried.contains(s) ==> learned_all(n, answers).tried.contains(s),
        forall|i: int|
            0 <= i < answers.len() ==> learned_all(n, answers).tried.contains(
                (#[trigger] answers[i]).0@,
            ),
        forall|s: Seq<char>| #[trigger]
            n.tried.contains(s) ==> (learned_all(n, answers).names.contains_key(s)
                == n.names.contains_key(s) && (n.names.contains_key(s) ==> learned_all(
                n,
                answers,
            ).names[s] == n.names[s])),
    decreases answers.len(),
{
    if answers.len() > 0 {
        lemma_learned_all(n, answers.drop_last());
        assert forall|i: int| 0 <= i < answers.len() implies learned_all(
            n,
            answers,
        ).tried.contains((#[trigger] answers[i]).0@) by {
            if i < answers.len() - 1 {
                assert(answers.drop_last()[i] == answers[i]);
            }
        }
    }
}

proof fn lemma_nothing_untried(n: NamesView, sids: Seq<Seq<char>>)
    requires
        forall|s: Seq<char>| sids.contains(s) ==> n.tried.contains(s),
    ensures
        untried_sids(n, sids).len() == 0,
    decreases sids.len(),
{
    if sids.len() > 0 {
        assert forall|s: Seq<char>| sids.drop_last().contains(s) implies n.tried.contains(s) by {
            let i = choose|i: int| 0 <= i < sids.drop_last().len() && sids.drop_last()[i] == s;
            assert(sids[i] == s);
            assert(sids.contains(s));
        }
        lemma_nothing_untried(n, sids.drop_last());
        assert(sids.contains(sids.last()));
    }
}

/// The kind of an account is what its code says: a user, a group or an alias, a well-known
/// group, a deleted account, a computer. Every other code is unknown.
pub proof fn law_code_tells_the_kind(use_code: i32)
    ensures
        (kind_of_use(use_code) == IdentityKind::User) == (use_code == 1),
        (kind_of_use(use_code) == IdentityKind::Group) == (use_code == 2 || use_code == 4),
        (kind_of_use(use_code) == IdentityKind::WellKnown) == (use_code == 5),
        (kind_of_use(use_code) == IdentityKind::Orphaned) == (use_code == 6),
        (kind_of_use(use_code) == IdentityKind::Computer) == (use_code == 9),
        kind_of_use(use_code) != IdentityKind::ForeignSecurityPrincipal,
{
}

/// A buffer is read up to its first zero: what stands behind it does not count, and without
/// one the whole buffer does.
pub proof fn law_buffer_ends_at_the_first_zero(units: Seq<u16>, rest: Seq<u16>)
    requires
        forall|i: int| 0 <= i < units.len() ==> units[i] != 0,
    ensures
        before_zero(units) == units,
        before_zero(units.push(0) + rest) == units,
{
    lemma_before_zero(units, units.len() as int);
    assert(units.take(units.len() as int) =~= units);
    let all = units.push(0) + rest;
    assert forall|i: int| 0 <= i < units.len() implies all[i] != 0 by {
        assert(all[i] == units[i]);
    }
    assert(all[units.len() as int] == 0);
    lemma_before_zero(all, units.len() as int);
    assert(all.take(units.len() as int) =~= units);
}

/// Decoding goes unit by unit: one that is no surrogate is the character with its number, a
/// pair of surrogates is the character that it encodes, and a surrogate on its own becomes
/// the replacement character.
pub proof fn law_units_are_decoded(a: u16, b: u16, rest: Seq<u16>)
    ensures
        utf16_text(Seq::empty()).len() == 0,
        a < 0xd800 || a >= 0xe000 ==> utf16_text(seq![a] + rest) == seq![a as char] + utf16_text(
            rest,
        ),
        0xd800 <= a < 0xdc00 && 0xdc00 <= b < 0xe000 ==> utf16_text(seq![a, b] + rest) == seq![
            (0x10000 + (a - 0xd800) * 0x400 + (b - 0xdc00)) as char,
        ] + utf16_text(rest),
        0xdc00 <= a < 0xe000 ==> utf16_text(seq![a] + rest) == seq!['\u{fffd}'] + utf16_text(rest),
        0xd800 <= a < 0xdc00 && (rest.len() == 0 || !(0xdc00 <= rest[0] < 0xe000)) ==> utf16_text(
            seq![a] + rest,
        ) == seq!['\u{fffd}'] + utf16_text(rest),
{
    assert((seq![a] + rest).skip(1) =~= rest);
    assert((seq![a, b] + rest).skip(2) =~= rest);
    if rest.len() > 0 {
        assert((seq![a] + rest)[1] == rest[0]);
    }
}

/// An account is what the buffers and the code say.
pub proof fn law_account_is_what_was_found(
    a: AccountInfo,
    name: Seq<u16>,
    domain: Seq<u16>,
    use_code: i32,
)
    requires
        is_account(a, name.push(0), domain.push(0), use_code),
        forall|i: int| 0 <= i < name.len() ==> name[i] != 0,
        forall|i: int| 0 <= i < domain.len() ==> domain[i] != 0,
    ensures
        a.name@ == utf16_text(name),
        a.domain@ == utf16_text(domain),
        a.kind == kind_of_use(use_code),
{
    law_buffer_ends_at_the_first_zero(name, Seq::empty());
    law_buffer_ends_at_the_first_zero(domain, Seq::empty());
    assert(name.push(0) + Seq::empty() =~= name.push(0));
    assert(domain.push(0) + Seq::empty() =~= domain.push(0));
}

/// Names that are not empty are kept, in their order.
pub proof fn law_names_are_kept(texts: Seq<Seq<char>>)
    ensures
        non_empty(texts) == texts.filter(|s: Seq<char>| s.len() > 0),
    decreases texts.len(),
{
    reveal(Seq::filter);
    if texts.len() > 0 {
        law_names_are_kept(texts.drop_last());
    }
}

/// The identity of an account is what the account says. Only a user is called disabled, and
/// only where that is known; an empty domain is none.
pub proof fn law_identity_is_what_the_account_says(
    sid: Seq<char>,
    account: AccountInfo,
    disabled: Option<bool>,
)
    ensures
        ({
            let i = sam_identity(sid, account, disabled);
            &&& i.sid == sid
            &&& i.name == Some(account.name@)
            &&& account.domain@.len() > 0 ==> i.domain == Some(account.domain@)
            &&& account.domain@.len() == 0 ==> i.domain is None
            &&& i.kind == account.kind
            &&& i.disabled == (account.kind == IdentityKind::User && disabled == Some(true))
            &&& i.user_principal_name is None
            &&& i.sid_history_count == 0 && i.sid_history.len() == 0
        }),
{
}

/// Every global group with a SID gives a direct membership of one step, in their order, with
/// the name and the SID of the group. One without a SID gives none.
pub proof fn law_every_global_group_is_stated(
    sid: Seq<char>,
    name: Seq<char>,
    groups: Seq<(String, Result<Sid, CoreError>)>,
    g: (String, Result<Sid, CoreError>),
)
    ensures
        global_memberships(sid, name, Seq::empty()).len() == 0,
        g.1 is Err ==> global_memberships(sid, name, groups.push(g)) == global_memberships(
            sid,
            name,
            groups,
        ),
        g.1 matches Ok(s) ==> {
            let all = global_memberships(sid, name, groups.push(g));
            let m = all.last();
            &&& all.len() > 0
            &&& all.drop_last() == global_memberships(sid, name, groups)
            &&& m.member_sid == sid
            &&& m.group_sid == s@
            &&& m.group_name == Some(g.0@)
            &&& m.direct
            &&& m.path is Some && m.path->0.nodes == seq![sid, s@] && m.path->0.names == seq![
                Some(name),
                Some(g.0@),
            ] && m.path->0.complete && m.path->0.source == MembershipPathSource::DomainGroup
            &&& m.group_sid_history_count == 0 && m.group_sid_history.len() == 0
        },
{
    assert(groups.push(g).drop_last() =~= groups);
    if g.1 is Ok {
        let all = global_memberships(sid, name, groups.push(g));
        assert(all.drop_last() =~= global_memberships(sid, name, groups));
    }
}

/// Every local group gives a membership, in their order, with a chain from the user to it.
pub proof fn law_every_local_group_is_stated(
    locals: Seq<membership::GroupMembershipView>,
    sid: Seq<char>,
    name: Seq<char>,
    facts: SamFacts,
    i: int,
)
    requires
        are_locals(locals, sid, name, facts),
    ensures
        facts.local_groups is Err ==> locals.len() == 0,
        facts.local_groups matches Ok(groups) ==> locals.len() == groups@.len() && (0 <= i
            < groups@.len() ==> locals[i].member_sid == sid && locals[i].group_sid
            == groups@[i].group.sid@ && locals[i].path is Some && locals[i].path->0.nodes[0] == sid
            && locals[i].path->0.nodes.last() == groups@[i].group.sid@ && locals[i].group_name
            is Some),
{
    if let Ok(groups) = facts.local_groups {
        let (known, chains) = choose|known: Seq<(Sid, String)>, chains: Seq<LocalChain>|
            #![trigger is_token(known, sid, name, globals_of(sid, name, facts)), local_groups::chain_memberships(sid, chains)]
            {
                &&& is_token(known, sid, name, globals_of(sid, name, facts))
                &&& chains.len() == groups@.len()
                &&& forall|i: int|
                    0 <= i < chains.len() ==> local_groups::is_chain_to(
                        #[trigger] chains[i],
                        sid,
                        Some(name),
                        known,
                        groups@[i],
                    )
                &&& locals == local_groups::chain_memberships(sid, chains)
            };
        if 0 <= i < groups@.len() {
            local_groups::law_chain_gives_its_membership(sid, chains, i);
            assert(local_groups::is_chain_to(chains[i], sid, Some(name), known, groups@[i]));
            local_groups::law_chain_connects_user_and_group(sid, Some(name), known, groups@[i]);
        }
    }
}

/// The token of a user holds the user and every global group, each with its name.
pub proof fn law_token_holds_user_and_groups(
    known: Seq<(Sid, String)>,
    sid: Seq<char>,
    name: Seq<char>,
    globals: Seq<membership::GroupMembershipView>,
    i: int,
)
    requires
        is_token(known, sid, name, globals),
    ensures
        known.len() == globals.len() + 1,
        known[0].0@ == sid && known[0].1@ == name,
        0 <= i < globals.len() ==> known[i + 1].0@ == globals[i].group_sid
            && globals[i].group_name == Some(known[i + 1].1@),
{
}

/// Names that the groups bring along are known, the last one for a SID counts, and such a SID
/// need not be looked up. Groups without a name are left to be looked up.
pub proof fn law_given_names_are_taken_over(memberships: Seq<GroupMembership>, m: GroupMembership)
    ensures
        forall|s: Seq<char>| !(#[trigger] seeded(Seq::empty()).names.contains_key(s)),
        forall|s: Seq<char>| !(#[trigger] seeded(Seq::empty()).tried.contains(s)),
        m.group_name is Some && m.group_name->0@.len() > 0 ==> {
            let n = seeded(memberships.push(m));
            let before = seeded(memberships);
            &&& n.names == before.names.insert(m.group_sid@, m.group_name->0@)
            &&& n.tried == before.tried.insert(m.group_sid@)
            &&& unnamed_sids(memberships.push(m)) == unnamed_sids(memberships)
        },
        m.group_name is None || m.group_name->0@.len() == 0 ==> {
            &&& seeded(memberships.push(m)) == seeded(memberships)
            &&& unnamed_sids(memberships.push(m)) == unnamed_sids(memberships).push(m.group_sid@)
        },
        unnamed_sids(Seq::empty()).len() == 0,
{
    assert(memberships.push(m).drop_last() =~= memberships);
}

/// An answer for a SID that was not tried gives its name, with the domain in front of it, and
/// settles the SID. A failed answer settles it too. What is known of other SIDs stays.
pub proof fn law_answer_names_its_sid(
    n: NamesView,
    sid: Seq<char>,
    answer: Result<AccountInfo, CoreError>,
    other: Seq<char>,
)
    ensures
        ({
            let after = learned(n, sid, answer);
            &&& after.tried.contains(sid)
            &&& other != sid ==> after.tried.contains(other) == n.tried.contains(other)
            &&& other != sid ==> after.names.contains_key(other) == n.names.contains_key(other)
            &&& other != sid && n.names.contains_key(other) ==> after.names[other]
                == n.names[other]
            &&& !n.tried.contains(sid) ==> (answer matches Ok(a) ==> (a.name@.len() > 0
                ==> after.names.contains_key(sid) && after.names[sid] == enumerate::qualified(
                a.domain@,
                a.name@,
            )))
            &&& !n.tried.contains(sid) && answer is Err ==> after.names == n.names
        }),
{
    reveal_strlit("\\");
}

/// What has to be looked up is every SID that was not tried, each once.
pub proof fn law_untried_sids_are_asked_for(n: NamesView, sids: Seq<Seq<char>>, s: Seq<char>)
    ensures
        untried_sids(n, sids).contains(s) == (sids.contains(s) && !n.tried.contains(s)),
        untried_sids(n, sids).no_duplicates(),
    decreases sids.len(),
{
    if sids.len() > 0 {
        let init = sids.drop_last();
        let last = sids.last();
        law_untried_sids_are_asked_for(n, init, s);
        law_untried_sids_are_asked_for(n, init, last);
        let before = untried_sids(n, init);
        let after = untried_sids(n, sids);
        assert(sids[sids.len() - 1] == last);
        assert(sids.contains(s) == (init.contains(s) || s == last)) by {
            if init.contains(s) {
                let i = choose|i: int| 0 <= i < init.len() && init[i] == s;
                assert(sids[i] == s);
            }
            if sids.contains(s) {
                let i = choose|i: int| 0 <= i < sids.len() && sids[i] == s;
                if i < init.len() {
                    assert(init[i] == s);
                }
            }
        }
        if !(n.tried.contains(last) || before.contains(last)) {
            assert(after[before.len() as int] == last);
            assert(after.contains(s) == (before.contains(s) || s == last)) by {
                if before.contains(s) {
                    let i = choose|i: int| 0 <= i < before.len() && before[i] == s;
                    assert(after[i] == s);
                }
                if after.contains(s) {
                    let i = choose|i: int| 0 <= i < after.len() && after[i] == s;
                    if i < before.len() {
                        assert(before[i] == s);
                    }
                }
            }
        }
    }
}

} // verus!
