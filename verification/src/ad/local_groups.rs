//! Local groups of a target server.
//!
//! The token of a user holds, beside the groups of the domain, the local groups
//! of the server. What the server answers is handed in; the functions here say
//! what it means.

use vstd::prelude::*;

use crate::ad::enumerate;
use crate::ad::sam::AccountInfo;
use crate::error::CoreError;
use crate::model::identity;
use crate::model::identity::{clone_text, Identity};
use crate::model::membership;
use crate::model::membership::{short_path, GroupMembership, MembershipPath, MembershipPathSource};
use crate::model::sid;
use crate::model::sid::Sid;
use crate::text;

verus! {

/// Windows error: access is denied.
pub const ERROR_ACCESS_DENIED: u32 = 5;

/// Network status: the user does not exist.
pub const NERR_USER_NOT_FOUND: u32 = 2221;

/// Whether a domain is written like a DNS suffix.
pub open spec fn is_dns_like(domain: Seq<char>) -> bool {
    domain.contains('.') && domain[0] != '.' && domain.last() != '.'
}

/// Decides whether a domain is written like a DNS suffix, with a dot inside. A
/// NetBIOS name is not a valid suffix of a user principal name.
pub fn looks_like_dns_domain(domain: &str) -> (r: bool)
    ensures
        r == is_dns_like(domain@),
{
    let chars: Vec<char> = text::chars_of(domain);
    if !text::contains_char(domain, '.') {
        return false;
    }
    assert(chars@.len() > 0) by {
        let i = choose|i: int| 0 <= i < domain@.len() && domain@[i] == '.';
        assert(0 <= i < domain@.len());
    }
    chars[0] != '.' && chars[chars.len() - 1] != '.'
}

/// A text, where it is given and not empty.
pub open spec fn given(o: Option<Seq<char>>) -> Option<Seq<char>> {
    match o {
        Some(s) => if s.len() == 0 {
            None
        } else {
            Some(s)
        },
        None => None,
    }
}

/// A text, where it is given and not empty.
fn given_text(o: &Option<String>) -> (r: Option<&str>)
    ensures
        (match r {
            Some(s) => Some(s@),
            None => None,
        }) == given(text::text_of(*o)),
{
    match o {
        Some(s) => if s.as_str().is_empty() {
            None
        } else {
            Some(s.as_str())
        },
        None => None,
    }
}

/// `list` with `s` behind it, unless it holds `s`.
pub open spec fn with_new(list: Seq<Seq<char>>, s: Seq<char>) -> Seq<Seq<char>> {
    if list.contains(s) {
        list
    } else {
        list.push(s)
    }
}

/// Adds `s`, unless the list holds it.
fn push_new(list: &mut Vec<String>, s: String)
    ensures
        text::texts(final(list)@) == with_new(text::texts(old(list)@), s@),
{
    if !text::is_listed(list, s.as_str()) {
        let ghost before = text::texts(list@);
        list.push(s);
        assert(text::texts(list@) =~= before.push(s@));
    }
}

/// The forms in which a server may know an account, the preferred one first: the
/// user principal name, `DOMAIN\name`, `name@domain` where the domain is written
/// like a DNS suffix, and the name alone.
pub open spec fn account_candidates(i: identity::IdentityView) -> Seq<Seq<char>> {
    let upn = match given(i.user_principal_name) {
        Some(u) => seq![u],
        None => Seq::empty(),
    };
    match given(i.name) {
        None => upn,
        Some(name) => with_new(
            match given(i.domain) {
                None => upn,
                Some(domain) => {
                    let qualified = with_new(upn, domain + "\\"@ + name);
                    if is_dns_like(domain) {
                        with_new(qualified, name + "@"@ + domain)
                    } else {
                        qualified
                    }
                },
            },
            name,
        ),
    }
}

/// Lists the forms in which a server may know an account.
pub fn format_account_candidates_for_local_groups(identity: &Identity) -> (r: Vec<String>)
    ensures
        text::texts(r@) == account_candidates(identity@),
{
    let mut candidates: Vec<String> = Vec::new();
    assert(text::texts(candidates@) =~= Seq::empty());
    if let Some(upn) = given_text(&identity.user_principal_name) {
        candidates.push(upn.to_owned());
        assert(text::texts(candidates@) =~= seq![upn@]);
    }
    let name: &str = match given_text(&identity.name) {
        Some(n) => n,
        None => {
            return candidates;
        },
    };
    if let Some(domain) = given_text(&identity.domain) {
        push_new(&mut candidates, domain.to_owned().concat("\\").concat(name));
        if looks_like_dns_domain(domain) {
            push_new(&mut candidates, name.to_owned().concat("@").concat(domain));
        }
    }
    push_new(&mut candidates, name.to_owned());
    candidates
}

/// The preferred form of an account, where there is one.
pub fn format_account_for_local_groups(identity: &Identity) -> (r: Option<String>)
    ensures
        text::text_of(r) == (if account_candidates(identity@).len() == 0 {
            None
        } else {
            Some(account_candidates(identity@)[0])
        }),
{
    let candidates: Vec<String> = format_account_candidates_for_local_groups(identity);
    if candidates.len() == 0 {
        None
    } else {
        assert(text::texts(candidates@)[0] == candidates@[0]@);
        Some(candidates[0].clone())
    }
}

/// No form is tried twice, and the user principal name comes first where there is
/// one.
pub proof fn law_candidates_are_distinct(i: identity::IdentityView)
    ensures
        account_candidates(i).no_duplicates(),
        given(i.user_principal_name) matches Some(u) ==> account_candidates(i)[0] == u,
{
    let upn = match given(i.user_principal_name) {
        Some(u) => seq![u],
        None => Seq::empty(),
    };
    if let Some(name) = given(i.name) {
        let qualified = match given(i.domain) {
            None => upn,
            Some(domain) => with_new(upn, domain + "\\"@ + name),
        };
        lemma_with_new(upn, qualified.last());
        if let Some(domain) = given(i.domain) {
            lemma_with_new(upn, domain + "\\"@ + name);
            lemma_with_new(qualified, name + "@"@ + domain);
            lemma_with_new(with_new(qualified, name + "@"@ + domain), name);
        }
        lemma_with_new(qualified, name);
    }
}

/// Adding what is new keeps a list free of duplicates, and keeps its first item.
proof fn lemma_with_new(list: Seq<Seq<char>>, s: Seq<char>)
    requires
        list.no_duplicates(),
    ensures
        with_new(list, s).no_duplicates(),
        list.len() > 0 ==> with_new(list, s).len() > 0 && with_new(list, s)[0] == list[0],
{
}

/// What is shown of a server for debugging.
pub open spec fn shown_server(server: Option<Seq<char>>) -> Seq<char> {
    match server {
        Some(s) => "Some("@ + text::debug_quoted(s) + ")"@,
        None => "None"@,
    }
}

/// The text of an optional server.
pub open spec fn server_of(server: Option<&str>) -> Option<Seq<char>> {
    match server {
        Some(s) => Some(s@),
        None => None,
    }
}

/// Shows a server for debugging.
pub(crate) fn server_text(server: Option<&str>) -> (r: String)
    ensures
        r@ == shown_server(server_of(server)),
{
    match server {
        Some(s) => "Some(".to_owned().concat(text::quote_for_debug(s).as_str()).concat(")"),
        None => "None".to_owned(),
    }
}

/// A local group that the server names, with its SID where it could be looked up.
#[derive(Debug)]
pub struct RawLocalGroup {
    pub name: String,
    pub sid: Option<String>,
}

/// What the server says about the local groups of an account.
#[derive(Debug)]
pub enum LocalGroupLookupOutcome {
    /// The account is known; these are its groups.
    WithGroups(Vec<Sid>),
    /// The account is not known.
    UserNotFoundOnServer,
}

/// A local group with name and SID.
#[derive(Debug)]
pub struct LocalGroupInfo {
    pub name: String,
    pub sid: Sid,
}

/// Whether a group has a name and a SID.
pub open spec fn is_usable(g: RawLocalGroup) -> bool {
    g.name@.len() > 0 && g.sid is Some
}

/// Names and SIDs of the groups that have both, in their order.
pub open spec fn usable_groups(groups: Seq<RawLocalGroup>) -> Seq<(Seq<char>, Seq<char>)>
    decreases groups.len(),
{
    if groups.len() == 0 {
        Seq::empty()
    } else {
        let init = usable_groups(groups.drop_last());
        if is_usable(groups.last()) {
            init.push((groups.last().name@, groups.last().sid->0@))
        } else {
            init
        }
    }
}

/// Names and SIDs of a list of groups.
pub open spec fn group_texts(s: Seq<LocalGroupInfo>) -> Seq<(Seq<char>, Seq<char>)> {
    s.map_values(|g: LocalGroupInfo| (g.name@, g.sid@))
}

/// Keeps the groups that have a name and a SID.
fn keep_usable(groups: &Vec<RawLocalGroup>) -> (r: Vec<LocalGroupInfo>)
    ensures
        group_texts(r@) == usable_groups(groups@),
{
    let mut out: Vec<LocalGroupInfo> = Vec::new();
    assert(group_texts(out@) =~= Seq::empty());
    for i in 0..groups.len()
        invariant
            group_texts(out@) == usable_groups(groups@.take(i as int)),
    {
        let g: &RawLocalGroup = &groups[i];
        assert(groups@.take(i + 1).drop_last() =~= groups@.take(i as int));
        if !g.name.as_str().is_empty() {
            if let Some(s) = &g.sid {
                let ghost before = group_texts(out@);
                let info: LocalGroupInfo = LocalGroupInfo {
                    name: g.name.clone(),
                    sid: Sid(s.clone()),
                };
                out.push(info);
                assert(group_texts(out@) =~= before.push((info.name@, info.sid@)));
            }
        }
    }
    assert(groups@.take(groups@.len() as int) =~= groups@);
    out
}

/// Whether `e` is the error for a call that ended with `status`. `call` is the
/// function, `subject` what it was asked about.
pub open spec fn is_status_error(
    e: CoreError,
    call: Seq<char>,
    subject: Seq<char>,
    server: Option<Seq<char>>,
    status: u32,
) -> bool {
    if status == ERROR_ACCESS_DENIED {
        e matches CoreError::AccessDenied(m) && m@ == call + ": access denied for '"@ + subject
            + "' on "@ + shown_server(server)
    } else {
        e matches CoreError::LdapQuery(m) && m@ == call + "('"@ + subject
            + "') failed with status "@ + text::decimal(status as nat)
    }
}

/// The error for a call that ended with `status`.
pub(crate) fn status_error(call: &str, subject: &str, server: Option<&str>, status: u32) -> (r: CoreError)
    ensures
        is_status_error(r, call@, subject@, server_of(server), status),
{
    if status == ERROR_ACCESS_DENIED {
        CoreError::AccessDenied(
            call.to_owned().concat(": access denied for '").concat(subject).concat("' on ").concat(
                server_text(server).as_str(),
            ),
        )
    } else {
        let mut m: String = call.to_owned().concat("('").concat(subject).concat(
            "') failed with status ",
        );
        text::push_decimal(&mut m, status as u64);
        CoreError::LdapQuery(m)
    }
}

/// Interprets what the server says about the local groups of an account, the
/// groups with their names. An account that is not known has none.
pub fn resolve_local_groups(
    server: Option<&str>,
    account: &str,
    reply: Result<Vec<RawLocalGroup>, u32>,
) -> (r: Result<Vec<LocalGroupInfo>, CoreError>)
    ensures
        (match reply {
            Ok(groups) => r matches Ok(v) && group_texts(v@) == usable_groups(groups@),
            Err(status) => if status == NERR_USER_NOT_FOUND {
                r matches Ok(v) && v@.len() == 0
            } else {
                r matches Err(e) && is_status_error(
                    e,
                    "NetUserGetLocalGroups"@,
                    account@,
                    server_of(server),
                    status,
                )
            },
        }),
{
    match reply {
        Ok(groups) => Ok(keep_usable(&groups)),
        Err(status) => if status == NERR_USER_NOT_FOUND {
            Ok(Vec::new())
        } else {
            Err(status_error("NetUserGetLocalGroups", account, server, status))
        },
    }
}

/// The SIDs of the groups that have a name and a SID.
pub open spec fn usable_sids(groups: Seq<RawLocalGroup>) -> Seq<Seq<char>> {
    usable_groups(groups).map_values(|g: (Seq<char>, Seq<char>)| g.1)
}

/// Interprets what the server says about the local groups of an account. An
/// account that is not known is told apart from one without groups.
pub fn resolve_local_group_sids_strict(
    server: Option<&str>,
    account: &str,
    reply: Result<Vec<RawLocalGroup>, u32>,
) -> (r: Result<LocalGroupLookupOutcome, CoreError>)
    ensures
        (match reply {
            Ok(groups) => r matches Ok(LocalGroupLookupOutcome::WithGroups(v)) && sid::sid_texts(v@)
                == usable_sids(groups@),
            Err(status) => if status == NERR_USER_NOT_FOUND {
                r matches Ok(LocalGroupLookupOutcome::UserNotFoundOnServer)
            } else {
                r matches Err(e) && is_status_error(
                    e,
                    "NetUserGetLocalGroups"@,
                    account@,
                    server_of(server),
                    status,
                )
            },
        }),
{
    match reply {
        Ok(groups) => {
            let infos: Vec<LocalGroupInfo> = keep_usable(&groups);
            let mut sids: Vec<Sid> = Vec::new();
            for i in 0..infos.len()
                invariant
                    sids@.len() == i,
                    forall|j: int| 0 <= j < i ==> (#[trigger] sids@[j])@ == infos@[j].sid@,
            {
                sids.push(infos[i].sid.clone());
            }
            assert(sid::sid_texts(sids@) =~= usable_sids(groups@)) by {
                assert forall|j: int| 0 <= j < infos@.len() implies #[trigger] usable_sids(
                    groups@,
                )[j] == infos@[j].sid@ by {
                    assert(group_texts(infos@)[j].1 == infos@[j].sid@);
                }
            }
            Ok(LocalGroupLookupOutcome::WithGroups(sids))
        },
        Err(status) => if status == NERR_USER_NOT_FOUND {
            Ok(LocalGroupLookupOutcome::UserNotFoundOnServer)
        } else {
            Err(status_error("NetUserGetLocalGroups", account, server, status))
        },
    }
}

/// Interprets what the server says about the local groups of an account. An
/// account that is not known has none.
pub fn resolve_local_group_sids(
    server: Option<&str>,
    account: &str,
    reply: Result<Vec<RawLocalGroup>, u32>,
) -> (r: Result<Vec<Sid>, CoreError>)
    ensures
        (match reply {
            Ok(groups) => r matches Ok(v) && sid::sid_texts(v@) == usable_sids(groups@),
            Err(status) => if status == NERR_USER_NOT_FOUND {
                r matches Ok(v) && v@.len() == 0
            } else {
                r matches Err(e) && is_status_error(
                    e,
                    "NetUserGetLocalGroups"@,
                    account@,
                    server_of(server),
                    status,
                )
            },
        }),
{
    match resolve_local_group_sids_strict(server, account, reply) {
        Ok(LocalGroupLookupOutcome::WithGroups(v)) => Ok(v),
        Ok(LocalGroupLookupOutcome::UserNotFoundOnServer) => Ok(Vec::new()),
        Err(e) => Err(e),
    }
}

/// What is shown of a list of texts for debugging.
pub open spec fn shown_list(list: Seq<Seq<char>>) -> Seq<char> {
    "["@ + text::joined(list.map_values(|s: Seq<char>| text::debug_quoted(s)), ", "@) + "]"@
}

/// Shows the first `count` texts of a list for debugging.
fn list_text(list: &Vec<String>, count: usize) -> (r: String)
    requires
        count <= list@.len(),
    ensures
        r@ == shown_list(text::texts(list@).take(count as int)),
{
    let mut parts: Vec<String> = Vec::new();
    let ghost want = text::texts(list@).take(count as int).map_values(
        |s: Seq<char>| text::debug_quoted(s),
    );
    for i in 0..count
        invariant
            count <= list@.len(),
            want == text::texts(list@).take(count as int).map_values(
                |s: Seq<char>| text::debug_quoted(s),
            ),
            parts@.len() == i,
            forall|j: int| 0 <= j < i ==> (#[trigger] parts@[j])@ == want[j],
    {
        parts.push(text::quote_for_debug(list[i].as_str()));
    }
    assert(text::texts(parts@) =~= want);
    "[".to_owned().concat(text::join(&parts, ", ").as_str()).concat("]")
}

/// The answer for one form of an account.
pub type SidsReply = Result<LocalGroupLookupOutcome, CoreError>;

/// Whether an answer settles the search: the account is known, or the server
/// could not be asked.
pub open spec fn settles(reply: SidsReply) -> bool {
    !(reply matches Ok(LocalGroupLookupOutcome::UserNotFoundOnServer))
}

/// Decides whether an answer settles the search, so that no other form has to be
/// tried.
pub fn is_settled(reply: &SidsReply) -> (r: bool)
    ensures
        r == settles(*reply),
{
    match reply {
        Ok(LocalGroupLookupOutcome::UserNotFoundOnServer) => false,
        _ => true,
    }
}

/// The message where no form can be derived.
pub open spec fn no_form_message(subject: Seq<char>, sid: Seq<char>) -> Seq<char> {
    subject + ": no usable account name form derivable from identity "@ + sid
}

/// The message where the server knows none of the forms.
pub open spec fn unknown_account_message(
    sid: Seq<char>,
    server: Option<Seq<char>>,
    tried: Seq<Seq<char>>,
) -> Seq<char> {
    "NetUserGetLocalGroups: account for identity "@ + sid + " not known on "@ + shown_server(server)
        + " (tried forms: "@ + shown_list(tried)
        + "). Local server group memberships are not available; the result is marked incomplete."@
}

/// The shorter of two lengths.
pub open spec fn shorter(a: nat, b: nat) -> nat {
    if a < b {
        a
    } else {
        b
    }
}

/// Finds the local groups of an identity. `replies` are the answers for the forms
/// of its account, in their order, as far as they were tried: the first one that
/// settles the search decides.
pub fn resolve_local_group_sids_for_identity(
    server: Option<&str>,
    identity: &Identity,
    replies: Vec<SidsReply>,
) -> (r: Result<Vec<Sid>, CoreError>)
    ensures
        ({
            let forms = account_candidates(identity@);
            let n = shorter(forms.len(), replies@.len()) as int;
            &&& forms.len() == 0 ==> (r matches Err(CoreError::Validation(m)) && m@
                == no_form_message("Local groups"@, identity@.sid))
            &&& forms.len() > 0 && (forall|i: int| 0 <= i < n ==> !settles(#[trigger] replies@[i]))
                ==> (r matches Err(CoreError::Validation(m)) && m@ == unknown_account_message(
                identity@.sid,
                server_of(server),
                forms.take(n),
            ))
            &&& forall|i: int|
                0 <= i < n && settles(#[trigger] replies@[i]) && (forall|j: int|
                    0 <= j < i ==> !settles(#[trigger] replies@[j])) ==> (match replies@[i] {
                    Ok(LocalGroupLookupOutcome::WithGroups(v)) => r == Ok::<Vec<Sid>, CoreError>(v),
                    Ok(_) => false,
                    Err(e) => r == Err::<Vec<Sid>, CoreError>(e),
                })
        }),
{
    let candidates: Vec<String> = format_account_candidates_for_local_groups(identity);
    if candidates.len() == 0 {
        return Err(
            CoreError::Validation(
                "Local groups".to_owned().concat(
                    ": no usable account name form derivable from identity ",
                ).concat(identity.sid.0.as_str()),
            ),
        );
    }
    let n: usize = if candidates.len() < replies.len() {
        candidates.len()
    } else {
        replies.len()
    };
    let ghost all = replies@;
    let mut i: usize = 0;
    while i < n && !is_settled(&replies[i])
        invariant
            n <= replies@.len(),
            i <= n,
            replies@ == all,
            forall|j: int| 0 <= j < i ==> !settles(#[trigger] all[j]),
        decreases n - i,
    {
        i = i + 1;
    }
    if i < n {
        let mut replies: Vec<SidsReply> = replies;
        let reply: SidsReply = replies.swap_remove(i);
        assert(reply == all[i as int]);
        return match reply {
            Ok(LocalGroupLookupOutcome::WithGroups(v)) => Ok(v),
            Ok(LocalGroupLookupOutcome::UserNotFoundOnServer) => Ok(Vec::new()),
            Err(e) => Err(e),
        };
    }
    Err(
        CoreError::Validation(
            "NetUserGetLocalGroups: account for identity ".to_owned().concat(
                identity.sid.0.as_str(),
            ).concat(" not known on ").concat(server_text(server).as_str()).concat(
                " (tried forms: ",
            ).concat(list_text(&candidates, n).as_str()).concat(
                "). Local server group memberships are not available; the result is marked incomplete.",
            ),
        ),
    )
}

/// A member of a local group, as the server lists it.
#[derive(Debug)]
pub struct RawMember {
    /// The SID, where there is one and it could be read.
    pub sid: Option<String>,
    /// `DOMAIN\Name`; may be empty.
    pub name: String,
}

/// A member of a local group.
#[derive(Debug)]
pub struct LocalGroupMember {
    pub sid: Option<Sid>,
    pub display_name: Option<String>,
}

/// What a [`LocalGroupMember`] says.
pub struct LocalMemberView {
    pub sid: Option<Seq<char>>,
    pub display_name: Option<Seq<char>>,
}

impl View for LocalGroupMember {
    type V = LocalMemberView;

    open spec fn view(&self) -> LocalMemberView {
        LocalMemberView {
            sid: match self.sid {
                Some(s) => Some(s@),
                None => None,
            },
            display_name: text::text_of(self.display_name),
        }
    }
}

/// What a raw member says: what is empty is not known.
pub open spec fn member_of(m: RawMember) -> LocalMemberView {
    LocalMemberView {
        sid: given(text::text_of(m.sid)),
        display_name: given(Some(m.name@)),
    }
}

/// Interprets what the server says about the members of a local group.
pub fn get_local_group_members(
    server: Option<&str>,
    group_name: &str,
    reply: Result<Vec<RawMember>, u32>,
) -> (r: Result<Vec<LocalGroupMember>, CoreError>)
    ensures
        (match reply {
            Ok(members) => {
                &&& r matches Ok(v) && v@.len() == members@.len() && forall|i: int|
                    0 <= i < v@.len() ==> (#[trigger] v@[i])@ == member_of(members@[i])
            },
            Err(status) => r matches Err(e) && is_status_error(
                e,
                "NetLocalGroupGetMembers"@,
                group_name@,
                server_of(server),
                status,
            ),
        }),
{
    let members: Vec<RawMember> = match reply {
        Ok(v) => v,
        Err(status) => {
            return Err(status_error("NetLocalGroupGetMembers", group_name, server, status));
        },
    };
    let mut out: Vec<LocalGroupMember> = Vec::new();
    for i in 0..members.len()
        invariant
            out@.len() == i,
            forall|j: int| 0 <= j < i ==> (#[trigger] out@[j])@ == member_of(members@[j]),
    {
        let m: &RawMember = &members[i];
        let sid: Option<Sid> = match given_text(&m.sid) {
            Some(s) => Some(Sid(s.to_owned())),
            None => None,
        };
        let display_name: Option<String> = if m.name.as_str().is_empty() {
            None
        } else {
            Some(m.name.clone())
        };
        out.push(LocalGroupMember { sid, display_name });
    }
    Ok(out)
}

/// A local group with what is known about it.
#[derive(Debug)]
pub struct LocalGroupFacts {
    pub group: LocalGroupInfo,
    /// The account of the group, where it could be looked up.
    pub account: Option<AccountInfo>,
    /// The members of the group, where they could be read.
    pub members: Result<Vec<LocalGroupMember>, CoreError>,
}

/// How a local group is named: by its account, or else as the server names it.
pub open spec fn group_label(f: LocalGroupFacts) -> Seq<char> {
    match f.account {
        Some(a) => enumerate::qualified(a.domain@, a.name@),
        None => f.group.name@,
    }
}

/// Names and SIDs that are known to be in the token. A later entry for the same
/// SID replaces an earlier one.
pub open spec fn known_name(known: Seq<(Sid, String)>, sid: Seq<char>) -> Option<Seq<char>>
    decreases known.len(),
{
    if known.len() == 0 {
        None
    } else if known.last().0@ == sid {
        Some(known.last().1@)
    } else {
        known_name(known.drop_last(), sid)
    }
}

/// Looks up the name of a SID that is known to be in the token.
fn find_known(known: &Vec<(Sid, String)>, sid: &Sid) -> (r: Option<String>)
    ensures
        text::text_of(r) == known_name(known@, sid@),
{
    let mut i: usize = known.len();
    assert(known@.take(known@.len() as int) =~= known@);
    while i > 0
        invariant
            i <= known@.len(),
            known_name(known@, sid@) == known_name(known@.take(i as int), sid@),
        decreases i,
    {
        assert(known@.take(i as int).drop_last() =~= known@.take(i - 1));
        if text::same_text(known[i - 1].0.0.as_str(), sid.0.as_str()) {
            return Some(known[i - 1].1.clone());
        }
        i = i - 1;
    }
    None
}

/// Whether a member of the list has this SID.
pub open spec fn lists_sid(members: Seq<LocalGroupMember>, sid: Seq<char>) -> bool {
    exists|i: int| 0 <= i < members.len() && (#[trigger] members[i])@.sid == Some(sid)
}

/// The first member that is known to be in the token, with its name.
pub open spec fn mediator(members: Seq<LocalGroupMember>, known: Seq<(Sid, String)>) -> Option<
    (Seq<char>, Seq<char>),
>
    decreases members.len(),
{
    if members.len() == 0 {
        None
    } else {
        match mediator(members.drop_last(), known) {
            Some(m) => Some(m),
            None => match members.last()@.sid {
                Some(s) => match known_name(known, s) {
                    Some(name) => Some((s, name)),
                    None => None,
                },
                None => None,
            },
        }
    }
}

/// The chain from a user to a local group. It is complete where the user is a
/// member itself, or through a group of its token.
pub open spec fn local_chain(
    user: Seq<char>,
    user_name: Option<Seq<char>>,
    known: Seq<(Sid, String)>,
    f: LocalGroupFacts,
) -> membership::MembershipPathView {
    let direct = match f.members {
        Ok(m) => lists_sid(m@, user),
        Err(_) => false,
    };
    let through = match f.members {
        Ok(m) => mediator(m@, known),
        Err(_) => None,
    };
    match through {
        Some((sid, name)) if !direct => membership::MembershipPathView {
            nodes: seq![user, sid, f.group.sid@],
            names: seq![user_name, Some(name), Some(group_label(f))],
            source: MembershipPathSource::LocalGroup,
            complete: true,
        },
        _ => membership::short_path_view(
            user,
            user_name,
            f.group.sid@,
            Some(group_label(f)),
            MembershipPathSource::LocalGroup,
            direct,
        ),
    }
}

/// A local group with its name and the chain that leads to it.
pub type LocalChain = (Sid, Option<String>, MembershipPath);

/// Whether `c` is the chain from `user` to the group of `f`.
pub open spec fn is_chain_to(
    c: LocalChain,
    user: Seq<char>,
    user_name: Option<Seq<char>>,
    known: Seq<(Sid, String)>,
    f: LocalGroupFacts,
) -> bool {
    &&& c.0@ == f.group.sid@
    &&& text::text_of(c.1) == Some(group_label(f))
    &&& c.2@ == local_chain(user, user_name, known, f)
}

/// Names a local group.
fn label_of(f: &LocalGroupFacts) -> (r: String)
    ensures
        r@ == group_label(*f),
{
    match &f.account {
        Some(a) => a.display(),
        None => f.group.name.clone(),
    }
}

/// Finds out how a user belongs to a local group: directly, or through the first
/// member that is known to be in its token.
fn find_route(members: &Vec<LocalGroupMember>, user_sid: &Sid, known: &Vec<(Sid, String)>) -> (r: (
    bool,
    Option<(Sid, String)>,
))
    ensures
        r.0 == lists_sid(members@, user_sid@),
        !r.0 ==> (match r.1 {
            Some((s, n)) => Some((s@, n@)),
            None => None,
        }) == mediator(members@, known@),
{
    let mut through: Option<(Sid, String)> = None;
    for i in 0..members.len()
        invariant
            forall|j: int| 0 <= j < i ==> (#[trigger] members@[j])@.sid != Some(user_sid@),
            (match through {
                Some((s, n)) => Some((s@, n@)),
                None => None,
            }) == mediator(members@.take(i as int), known@),
    {
        assert(members@.take(i + 1).drop_last() =~= members@.take(i as int));
        if let Some(s) = &members[i].sid {
            if text::same_text(s.0.as_str(), user_sid.0.as_str()) {
                assert(members@[i as int]@.sid == Some(user_sid@));
                return (true, None);
            }
            if through.is_none() {
                if let Some(name) = find_known(known, s) {
                    through = Some((s.clone(), name));
                }
            }
        }
    }
    assert(members@.take(members@.len() as int) =~= members@);
    (false, through)
}

/// The name of a user, where it is given.
pub open spec fn user_name_of(user_name: Option<&str>) -> Option<Seq<char>> {
    match user_name {
        Some(s) => Some(s@),
        None => None,
    }
}

/// Builds the chain from a user to one local group.
fn chain_to_group(
    user_sid: &Sid,
    user_name: Option<&str>,
    known: &Vec<(Sid, String)>,
    f: &LocalGroupFacts,
) -> (r: LocalChain)
    ensures
        is_chain_to(r, user_sid@, user_name_of(user_name), known@, *f),
{
    let label: String = label_of(f);
    let own_name: Option<String> = match user_name {
        Some(s) => Some(s.to_owned()),
        None => None,
    };
    let (direct, through) = match &f.members {
        Ok(members) => find_route(members, user_sid, known),
        Err(_) => (false, None),
    };
    let group_name: Option<String> = Some(label.clone());
    if !direct {
        if let Some((sid, name)) = through {
            let ghost via_sid = sid@;
            let ghost via_name = name@;
            let mut nodes: Vec<Sid> = Vec::new();
            nodes.push(user_sid.clone());
            nodes.push(sid);
            nodes.push(f.group.sid.clone());
            let mut names: Vec<Option<String>> = Vec::new();
            names.push(own_name);
            names.push(Some(name));
            names.push(Some(label));
            assert(sid::sid_texts(nodes@) =~= seq![user_sid@, via_sid, f.group.sid@]);
            assert(membership::name_texts(names@) =~= seq![
                user_name_of(user_name),
                Some(via_name),
                Some(group_label(*f)),
            ]);
            let path: MembershipPath = MembershipPath {
                nodes,
                names,
                source: MembershipPathSource::LocalGroup,
                complete: true,
            };
            return (f.group.sid.clone(), group_name, path);
        }
    }
    let path: MembershipPath = short_path(
        user_sid,
        own_name,
        &f.group.sid,
        Some(label),
        MembershipPathSource::LocalGroup,
        direct,
    );
    (f.group.sid.clone(), group_name, path)
}

/// Reconstructs the chains from a user to its local groups. `known` holds the SIDs
/// of its token with their names. A group that is nested in another local group,
/// or whose members cannot be read, gets a chain that is not complete.
pub fn resolve_local_group_chains(
    user_sid: &Sid,
    user_name: Option<&str>,
    known: &Vec<(Sid, String)>,
    groups: &Vec<LocalGroupFacts>,
) -> (r: Vec<LocalChain>)
    ensures
        r@.len() == groups@.len(),
        forall|i: int|
            0 <= i < r@.len() ==> is_chain_to(
                #[trigger] r@[i],
                user_sid@,
                user_name_of(user_name),
                known@,
                groups@[i],
            ),
{
    let mut out: Vec<LocalChain> = Vec::new();
    for i in 0..groups.len()
        invariant
            out@.len() == i,
            forall|j: int|
                0 <= j < i ==> is_chain_to(
                    #[trigger] out@[j],
                    user_sid@,
                    user_name_of(user_name),
                    known@,
                    groups@[j],
                ),
    {
        out.push(chain_to_group(user_sid, user_name, known, &groups[i]));
    }
    out
}

/// The membership that a chain stands for: direct where the chain is complete and
/// of one step.
pub open spec fn chain_membership(member: Seq<char>, c: LocalChain) -> membership::GroupMembershipView {
    membership::GroupMembershipView {
        member_sid: member,
        group_sid: c.0@,
        direct: c.2@.nodes.len() == 2 && c.2@.complete,
        group_name: text::text_of(c.1),
        path: Some(c.2@),
        group_sid_history_count: 0,
        group_sid_history: Seq::empty(),
    }
}

/// The memberships that `chains` stand for.
pub open spec fn chain_memberships(member: Seq<char>, chains: Seq<LocalChain>) -> Seq<
    membership::GroupMembershipView,
> {
    chains.map_values(|c: LocalChain| chain_membership(member, c))
}

/// Turns chains into memberships.
pub fn memberships_of_chains(member: &Sid, chains: &Vec<LocalChain>) -> (r: Vec<GroupMembership>)
    ensures
        membership::membership_views(r@) == chain_memberships(member@, chains@),
{
    let mut out: Vec<GroupMembership> = Vec::new();
    for i in 0..chains.len()
        invariant
            out@.len() == i,
            forall|j: int| 0 <= j < i ==> (#[trigger] out@[j])@ == chain_membership(
                member@,
                chains@[j],
            ),
    {
        let c: &LocalChain = &chains[i];
        let m: GroupMembership = GroupMembership {
            member_sid: member.clone(),
            group_sid: c.0.clone(),
            direct: c.2.nodes.len() == 2 && c.2.complete,
            group_name: clone_text(&c.1),
            path: Some(c.2.clone()),
            group_sid_history_count: 0,
            group_sid_history: Vec::new(),
        };
        assert(m@.group_sid_history =~= Seq::empty());
        out.push(m);
    }
    assert(membership::membership_views(out@) =~= chain_memberships(member@, chains@));
    out
}

/// The answer for one form of an account.
#[derive(Debug)]
pub enum ChainReply {
    /// The server does not know the account.
    NotFound,
    /// The server could not be asked.
    Failed(CoreError),
    /// The account is known, with these chains.
    Chains(Vec<LocalChain>),
}

/// The message where the server knows none of the forms.
pub open spec fn no_chain_message(
    sid: Seq<char>,
    server: Option<Seq<char>>,
    tried: Seq<Seq<char>>,
) -> Seq<char> {
    "Local group chains: no account form for identity "@ + sid + " known on "@ + shown_server(
        server,
    ) + " (tried: "@ + shown_list(tried)
        + "). Local server group memberships are not available; the result is marked incomplete."@
}

/// The last failure among `replies`.
pub open spec fn last_failure(replies: Seq<ChainReply>) -> Option<CoreError>
    decreases replies.len(),
{
    if replies.len() == 0 {
        None
    } else {
        match replies.last() {
            ChainReply::Failed(e) => Some(e),
            _ => last_failure(replies.drop_last()),
        }
    }
}

/// Finds the local groups of an identity, with their chains. `replies` are the
/// answers for the forms of its account, in their order, as far as they were
/// tried: the first one with chains decides. Without one, the last failure is
/// returned.
pub fn resolve_local_group_chains_for_identity(
    server: Option<&str>,
    identity: &Identity,
    replies: Vec<ChainReply>,
) -> (r: Result<Vec<GroupMembership>, CoreError>)
    ensures
        ({
            let forms = account_candidates(identity@);
            let n = shorter(forms.len(), replies@.len()) as int;
            &&& forms.len() == 0 ==> (r matches Err(CoreError::Validation(m)) && m@
                == no_form_message("Local group chains"@, identity@.sid))
            &&& forms.len() > 0 && (forall|i: int|
                0 <= i < n ==> !((#[trigger] replies@[i]) is Chains)) ==> (match last_failure(
                replies@.take(n),
            ) {
                Some(e) => r == Err::<Vec<GroupMembership>, CoreError>(e),
                None => r matches Err(CoreError::Validation(m)) && m@ == no_chain_message(
                    identity@.sid,
                    server_of(server),
                    forms.take(n),
                ),
            })
            &&& forall|i: int|
                0 <= i < n && (#[trigger] replies@[i]) is Chains && (forall|j: int|
                    0 <= j < i ==> !((#[trigger] replies@[j]) is Chains)) ==> (r matches Ok(v)
                    && membership::membership_views(v@) == chain_memberships(
                    identity@.sid,
                    replies@[i]->Chains_0@,
                ))
        }),
{
    let candidates: Vec<String> = format_account_candidates_for_local_groups(identity);
    if candidates.len() == 0 {
        return Err(
            CoreError::Validation(
                "Local group chains".to_owned().concat(
                    ": no usable account name form derivable from identity ",
                ).concat(identity.sid.0.as_str()),
            ),
        );
    }
    let n: usize = if candidates.len() < replies.len() {
        candidates.len()
    } else {
        replies.len()
    };
    let mut failed: Option<usize> = None;
    for i in 0..n
        invariant
            n == shorter(account_candidates(identity@).len(), replies@.len()),
            n <= replies@.len(),
            account_candidates(identity@).len() > 0,
            forall|j: int| 0 <= j < i ==> !((#[trigger] replies@[j]) is Chains),
            (match failed {
                Some(k) => k < i && replies@[k as int] is Failed && last_failure(
                    replies@.take(i as int),
                ) == Some(replies@[k as int]->Failed_0),
                None => last_failure(replies@.take(i as int)) is None,
            }),
    {
        assert(replies@.take(i + 1).drop_last() =~= replies@.take(i as int));
        match &replies[i] {
            ChainReply::Chains(chains) => {
                return Ok(memberships_of_chains(&identity.sid, chains));
            },
            ChainReply::Failed(_) => {
                failed = Some(i);
            },
            ChainReply::NotFound => {},
        }
    }
    if let Some(k) = failed {
        let ghost all = replies@;
        let mut replies: Vec<ChainReply> = replies;
        let reply: ChainReply = replies.swap_remove(k);
        assert(reply == all[k as int]);
        if let ChainReply::Failed(e) = reply {
            return Err(e);
        }
    }
    Err(
        CoreError::Validation(
            "Local group chains: no account form for identity ".to_owned().concat(
                identity.sid.0.as_str(),
            ).concat(" known on ").concat(server_text(server).as_str()).concat(" (tried: ").concat(
                list_text(&candidates, n).as_str(),
            ).concat(
                "). Local server group memberships are not available; the result is marked incomplete.",
            ),
        ),
    )
}

/// A chain starts at the user, ends at the group, and is complete exactly where
/// the members of the group show how the user belongs to it.
pub proof fn law_chain_connects_user_and_group(
    user: Seq<char>,
    user_name: Option<Seq<char>>,
    known: Seq<(Sid, String)>,
    f: LocalGroupFacts,
)
    ensures
        ({
            let c = local_chain(user, user_name, known, f);
            &&& c.nodes.len() == c.names.len()
            &&& c.nodes[0] == user
            &&& c.nodes.last() == f.group.sid@
            &&& c.complete == (f.members matches Ok(m) && (lists_sid(m@, user) || mediator(
                m@,
                known,
            ) is Some))
        }),
{
}

/// A domain is written like a DNS suffix where a dot stands inside it, and none at its ends.
pub proof fn law_dns_suffix_has_an_inner_dot(a: Seq<char>, b: Seq<char>)
    ensures
        a.len() > 0 && b.len() > 0 && a[0] != '.' && b.last() != '.' ==> is_dns_like(
            a.push('.') + b,
        ),
        !is_dns_like(seq!['.'] + b),
        !is_dns_like(a.push('.')),
        !a.contains('.') ==> !is_dns_like(a),
{
    let d = a.push('.') + b;
    assert(d[a.len() as int] == '.');
    if b.len() > 0 {
        assert(d.last() == b.last());
    }
    if a.len() > 0 {
        assert(d[0] == a[0]);
    }
    assert((seq!['.'] + b)[0] == '.');
}

/// What `with_new` holds.
proof fn lemma_with_new_contains(list: Seq<Seq<char>>, s: Seq<char>)
    ensures
        forall|x: Seq<char>| #[trigger] with_new(list, s).contains(x) == (list.contains(x) || x
            == s),
{
    let all = with_new(list, s);
    assert forall|x: Seq<char>| #[trigger] all.contains(x) == (list.contains(x) || x == s) by {
        if list.contains(x) {
            let i = choose|i: int| 0 <= i < list.len() && list[i] == x;
            assert(all[i] == x);
        }
        if x == s && !list.contains(s) {
            assert(all[list.len() as int] == s);
        }
        if all.contains(x) {
            let i = choose|i: int| 0 <= i < all.len() && all[i] == x;
            if i < list.len() {
                assert(list[i] == x);
            }
        }
    }
}

/// An account is tried in every form that its identity allows, and in no other: by its user
/// principal name, by domain and name, by name and domain where the domain is written like a
/// DNS suffix, and by its name. Nothing is tried of what is empty.
pub proof fn law_every_form_is_tried(i: identity::IdentityView, x: Seq<char>)
    ensures
        ({
            let has_upn = i.user_principal_name is Some && i.user_principal_name->0.len() > 0;
            let has_name = i.name is Some && i.name->0.len() > 0;
            let has_domain = i.domain is Some && i.domain->0.len() > 0;
            account_candidates(i).contains(x) == ({
                ||| has_upn && x == i.user_principal_name->0
                ||| has_name && has_domain && x == i.domain->0.push('\\') + i.name->0
                ||| has_name && has_domain && is_dns_like(i.domain->0) && x == i.name->0.push('@')
                    + i.domain->0
                ||| has_name && x == i.name->0
            })
        }),
{
    reveal_strlit("\\");
    reveal_strlit("@");
    let upn = match given(i.user_principal_name) {
        Some(u) => seq![u],
        None => Seq::empty(),
    };
    if i.user_principal_name is Some && i.user_principal_name->0.len() > 0 {
        assert(upn[0] == i.user_principal_name->0);
    }
    if let Some(name) = given(i.name) {
        if let Some(domain) = given(i.domain) {
            let a = domain + "\\"@ + name;
            let b = name + "@"@ + domain;
            assert(a =~= domain.push('\\') + name);
            assert(b =~= name.push('@') + domain);
            lemma_with_new_contains(upn, a);
            let qualified = with_new(upn, a);
            lemma_with_new_contains(qualified, b);
            lemma_with_new_contains(with_new(qualified, b), name);
            lemma_with_new_contains(qualified, name);
        } else {
            lemma_with_new_contains(upn, name);
        }
    }
}

/// Every group with a name and a SID is kept, in their order, and no other one.
pub proof fn law_usable_groups_are_kept(groups: Seq<RawLocalGroup>, g: RawLocalGroup)
    ensures
        usable_groups(Seq::empty()).len() == 0,
        g.name@.len() > 0 && g.sid is Some ==> usable_groups(groups.push(g)) == usable_groups(
            groups,
        ).push((g.name@, g.sid->0@)),
        g.name@.len() == 0 || g.sid is None ==> usable_groups(groups.push(g)) == usable_groups(
            groups,
        ),
        usable_sids(groups).len() == usable_groups(groups).len(),
        forall|i: int|
            0 <= i < usable_sids(groups).len() ==> #[trigger] usable_sids(groups)[i]
                == usable_groups(groups)[i].1,
{
    assert(groups.push(g).drop_last() =~= groups);
}

/// A refusal is told from other failures by its code, and the message names what was asked.
pub proof fn law_status_is_told(
    e: CoreError,
    call: Seq<char>,
    subject: Seq<char>,
    server: Option<Seq<char>>,
    status: u32,
)
    requires
        is_status_error(e, call, subject, server, status),
    ensures
        (e is AccessDenied) == (status == 5),
        e matches CoreError::AccessDenied(m) ==> text::occurs_in(subject, m@) && call.is_prefix_of(
            m@,
        ),
        status != 5 ==> (e matches CoreError::LdapQuery(m) && text::occurs_in(subject, m@)
            && text::occurs_in(text::decimal(status as nat), m@) && call.is_prefix_of(m@)),
{
    let d = text::decimal(status as nat);
    let a = ": access denied for '"@;
    let b = "' on "@ + shown_server(server);
    text::lemma_part_occurs(call + a, subject, b);
    text::lemma_assoc(call + a + subject, "' on "@, shown_server(server));
    let refused = call + a + subject + b;
    assert(refused.subrange(0, call.len() as int) =~= call);
    let c = "('"@;
    let f = "') failed with status "@;
    text::lemma_part_occurs(call + c, subject, f + d);
    text::lemma_assoc(call + c + subject, f, d);
    let failed = call + c + subject + f + d;
    text::lemma_part_occurs(call + c + subject + f, d, Seq::empty());
    assert(failed + Seq::empty() =~= failed);
    assert(failed.subrange(0, call.len() as int) =~= call);
}

/// A member is what the server says; what is empty or missing is not known.
pub proof fn law_member_is_what_the_server_says(m: RawMember)
    ensures
        m.sid is Some && m.sid->0@.len() > 0 ==> member_of(m).sid == Some(m.sid->0@),
        m.sid is None || m.sid->0@.len() == 0 ==> member_of(m).sid is None,
        m.name@.len() > 0 ==> member_of(m).display_name == Some(m.name@),
        m.name@.len() == 0 ==> member_of(m).display_name is None,
{
}

/// Of several names for one SID the last counts, and a SID without one is not known.
pub proof fn law_last_name_counts(known: Seq<(Sid, String)>, x: (Sid, String), sid: Seq<char>)
    ensures
        known_name(Seq::empty(), sid) is None,
        x.0@ == sid ==> known_name(known.push(x), sid) == Some(x.1@),
        x.0@ != sid ==> known_name(known.push(x), sid) == known_name(known, sid),
{
    assert(known.push(x).drop_last() =~= known);
}

/// The mediator is the first member that is known to be in the token.
pub proof fn law_mediator_is_the_first_known_member(
    members: Seq<LocalGroupMember>,
    known: Seq<(Sid, String)>,
)
    ensures
        mediator(members, known) matches Some((s, n)) ==> known_name(known, s) == Some(n)
            && exists|i: int|
            0 <= i < members.len() && (#[trigger] members[i])@.sid == Some(s) && forall|j: int|
                0 <= j < i && (#[trigger] members[j])@.sid is Some ==> known_name(
                    known,
                    members[j]@.sid->0,
                ) is None,
        mediator(members, known) is None ==> forall|j: int|
            0 <= j < members.len() && (#[trigger] members[j])@.sid is Some ==> known_name(
                known,
                members[j]@.sid->0,
            ) is None,
    decreases members.len(),
{
    if members.len() > 0 {
        let init = members.drop_last();
        law_mediator_is_the_first_known_member(init, known);
        assert forall|j: int| 0 <= j < init.len() implies #[trigger] members[j] == init[j] by {}
        if let Some((s, n)) = mediator(init, known) {
            let i = choose|i: int|
                0 <= i < init.len() && (#[trigger] init[i])@.sid == Some(s) && forall|j: int|
                    0 <= j < i && (#[trigger] init[j])@.sid is Some ==> known_name(
                        known,
                        init[j]@.sid->0,
                    ) is None;
            assert(members[i]@.sid == Some(s));
            assert forall|j: int| 0 <= j < i && (#[trigger] members[j])@.sid is Some implies known_name(
                known,
                members[j]@.sid->0,
            ) is None by {
                assert(init[j]@.sid is Some);
            }
        } else {
            let last = members.len() - 1;
            assert forall|j: int| 0 <= j < last && (#[trigger] members[j])@.sid is Some implies
                known_name(known, members[j]@.sid->0) is None by {
                assert(init[j]@.sid is Some);
            }
            if let Some((s, n)) = mediator(members, known) {
                assert(members[last]@.sid == Some(s));
            }
        }
    }
}

/// How a user belongs to a local group is told: in one step where the group lists the user,
/// else through the first member of its token that the group lists, and else in one step that
/// is marked as incomplete. The group goes by its account, or else by the name that the
/// server gave.
pub proof fn law_chain_tells_the_route(
    user: Seq<char>,
    user_name: Option<Seq<char>>,
    known: Seq<(Sid, String)>,
    f: LocalGroupFacts,
)
    ensures
        ({
            let c = local_chain(user, user_name, known, f);
            let listed = f.members is Ok && exists|i: int|
                0 <= i < f.members->Ok_0@.len() && (#[trigger] f.members->Ok_0@[i])@.sid == Some(
                    user,
                );
            let label = match f.account {
                Some(a) => enumerate::qualified(a.domain@, a.name@),
                None => f.group.name@,
            };
            &&& c.source == MembershipPathSource::LocalGroup
            &&& c.names[0] == user_name && c.names.last() == Some(label)
            &&& listed ==> c.nodes == seq![user, f.group.sid@] && c.complete
            &&& !listed && f.members is Ok && mediator(f.members->Ok_0@, known) is Some ==> {
                let (s, n) = mediator(f.members->Ok_0@, known)->0;
                &&& c.nodes == seq![user, s, f.group.sid@]
                &&& c.names[1] == Some(n)
                &&& c.complete
            }
            &&& !listed && (f.members is Err || mediator(f.members->Ok_0@, known) is None) ==> c.nodes
                == seq![user, f.group.sid@] && !c.complete
        }),
{
}

/// A chain gives the membership in its group: direct exactly where it is complete and of one
/// step. It carries the chain, and no history.
pub proof fn law_chain_gives_its_membership(member: Seq<char>, chains: Seq<LocalChain>, i: int)
    requires
        0 <= i < chains.len(),
    ensures
        chain_memberships(member, chains).len() == chains.len(),
        ({
            let m = chain_memberships(member, chains)[i];
            &&& m.member_sid == member
            &&& m.group_sid == chains[i].0@
            &&& m.direct == (chains[i].2@.complete && chains[i].2@.nodes.len() == 2)
            &&& chains[i].1 is Some ==> m.group_name == Some(chains[i].1->0@)
            &&& chains[i].1 is None ==> m.group_name is None
            &&& m.path == Some(chains[i].2@)
            &&& m.group_sid_history_count == 0 && m.group_sid_history.len() == 0
        }),
{
}

/// The last failure is the failure behind which no other one comes.
pub proof fn law_last_failure_counts(replies: Seq<ChainReply>, x: ChainReply)
    ensures
        last_failure(Seq::empty()) is None,
        x matches ChainReply::Failed(e) ==> last_failure(replies.push(x)) == Some(e),
        !(x is Failed) ==> last_failure(replies.push(x)) == last_failure(replies),
{
    assert(replies.push(x).drop_last() =~= replies);
}

/// The codes of the system that are told apart: access denied, and a user that is not known.
pub proof fn law_codes_of_the_system()
    ensures
        ERROR_ACCESS_DENIED == 5,
        NERR_USER_NOT_FOUND == 2221,
{
}

/// The first answer that is not "no such user" decides: its groups are the result, or its
/// error is. Where every form is unknown to the server, or there is none to try, that is an
/// error which names the identity.
pub proof fn law_first_telling_answer_decides(
    server: Option<&str>,
    identity: &Identity,
    replies: Vec<SidsReply>,
    r: Result<Vec<Sid>, CoreError>,
    i: int,
)
    requires
        call_ensures(resolve_local_group_sids_for_identity, (server, identity, replies), r),
        replies@.len() <= account_candidates(identity@).len(),
        0 <= i <= replies@.len(),
        forall|j: int|
            0 <= j < i ==> (#[trigger] replies@[j] matches Ok(
                LocalGroupLookupOutcome::UserNotFoundOnServer,
            )),
    ensures
        i < replies@.len() ==> match replies@[i] {
            Ok(LocalGroupLookupOutcome::WithGroups(v)) => r matches Ok(w) && w == v,
            Ok(_) => true,
            Err(e) => r matches Err(passed) && passed == e,
        },
        i == replies@.len() ==> (r matches Err(CoreError::Validation(m)) && text::occurs_in(
            identity.sid@,
            m@,
        )),
{
    let forms = account_candidates(identity@);
    let n = replies@.len() as int;
    let sid = identity.sid@;
    let a = "NetUserGetLocalGroups: account for identity "@;
    let b = " not known on "@;
    let shown = shown_server(server_of(server));
    let c = " (tried forms: "@;
    let list = shown_list(forms.take(n));
    let d =
        "). Local server group memberships are not available; the result is marked incomplete."@;
    lemma_second_part_occurs(a, sid, b, shown, c, list, d);
    text::lemma_first_part_leads(
        "Local groups"@ + ": no usable account name form derivable from identity "@,
        sid,
    );
    if i < n {
        assert(forall|j: int| 0 <= j < i ==> !settles(#[trigger] replies@[j]));
    }
}

/// The second of seven parts occurs in what they are put together to.
proof fn lemma_second_part_occurs(
    a: Seq<char>,
    x: Seq<char>,
    b: Seq<char>,
    c: Seq<char>,
    d: Seq<char>,
    e: Seq<char>,
    f: Seq<char>,
)
    ensures
        text::occurs_in(x, a + x + b + c + d + e + f),
{
    text::lemma_found_at(x, a + x + b + c + d + e + f, a.len() as int);
}

/// The first answer with chains decides, and every chain of it gives a membership. Without
/// one the last failure is passed on; where the server only knew no such user, that is an
/// error which names the identity.
pub proof fn law_first_chains_decide(
    server: Option<&str>,
    identity: &Identity,
    replies: Vec<ChainReply>,
    r: Result<Vec<GroupMembership>, CoreError>,
    i: int,
)
    requires
        call_ensures(resolve_local_group_chains_for_identity, (server, identity, replies), r),
        replies@.len() <= account_candidates(identity@).len(),
        0 <= i <= replies@.len(),
        forall|j: int| 0 <= j < i ==> !((#[trigger] replies@[j]) is Chains),
    ensures
        i < replies@.len() ==> (replies@[i] matches ChainReply::Chains(c) ==> (r matches Ok(v)
            && v@.len() == c@.len())),
        i == replies@.len() ==> r is Err,
        i == replies@.len() ==> forall|k: int|
            0 <= k < i && (#[trigger] replies@[k]) is Failed && (forall|j: int|
                k < j < i ==> (#[trigger] replies@[j]) is NotFound) ==> r->Err_0
                == replies@[k]->Failed_0,
        i == replies@.len() && (forall|j: int| 0 <= j < i ==> (#[trigger] replies@[j]) is NotFound)
            ==> (r->Err_0 matches CoreError::Validation(m) && text::occurs_in(identity.sid@, m@)),
{
    let forms = account_candidates(identity@);
    let n = replies@.len() as int;
    assert(replies@.take(n) =~= replies@);
    let sid = identity.sid@;
    lemma_second_part_occurs(
        "Local group chains: no account form for identity "@,
        sid,
        " known on "@,
        shown_server(server_of(server)),
        " (tried: "@,
        shown_list(forms.take(n)),
        "). Local server group memberships are not available; the result is marked incomplete."@,
    );
    text::lemma_first_part_leads(
        "Local group chains"@ + ": no usable account name form derivable from identity "@,
        sid,
    );
    if i == n {
        assert forall|k: int|
            0 <= k < i && (#[trigger] replies@[k]) is Failed && (forall|j: int|
                k < j < i ==> (#[trigger] replies@[j]) is NotFound) implies last_failure(replies@)
            == Some(replies@[k]->Failed_0) by {
            lemma_last_failure_stands(replies@, k);
        }
        if forall|j: int| 0 <= j < i ==> (#[trigger] replies@[j]) is NotFound {
            lemma_no_failure(replies@);
        }
    } else if replies@[i] is Chains {
        let v = r->Ok_0;
        assert(membership::membership_views(v@).len() == v@.len());
        let c = replies@[i]->Chains_0;
        assert(chain_memberships(sid, c@).len() == c@.len());
    }
}

/// A failure behind which there is none is the last one.
proof fn lemma_last_failure_stands(replies: Seq<ChainReply>, k: int)
    requires
        0 <= k < replies.len(),
        replies[k] is Failed,
        forall|j: int| k < j < replies.len() ==> (#[trigger] replies[j]) is NotFound,
    ensures
        last_failure(replies) == Some(replies[k]->Failed_0),
    decreases replies.len(),
{
    if k < replies.len() - 1 {
        assert(replies[replies.len() - 1] is NotFound);
        lemma_last_failure_stands(replies.drop_last(), k);
    }
}

/// Without a failure there is no last one.
proof fn lemma_no_failure(replies: Seq<ChainReply>)
    requires
        forall|j: int| 0 <= j < replies.len() ==> (#[trigger] replies[j]) is NotFound,
    ensures
        last_failure(replies) is None,
    decreases replies.len(),
{
    if replies.len() > 0 {
        assert(replies[replies.len() - 1] is NotFound);
        lemma_no_failure(replies.drop_last());
    }
}

} // verus!
