//! What is asked of the directory, and what follows from its answers.

use vstd::prelude::*;

use crate::ad::ldap_client;
use crate::ad::ldap_client::{filter_by_primary_group, filter_members_by_backlink, RawEntry};
use crate::ad::memberships;
use crate::ad::memberships::{assemble_memberships, MembershipEntries};
use crate::ad::resolver;
use crate::ad::resolver::{group_not_found, group_rid, primary_group_sid};
use crate::error::CoreError;
use crate::model::identity::{Identity, IdentityKind};
use crate::model::membership::GroupMembership;
use crate::model::sid::Sid;
use crate::text;

verus! {

/// A question to the directory.
#[derive(Debug, PartialEq, Eq)]
pub enum Question {
    /// The entry with this SID.
    BySid(String),
    /// The groups that the entry with this name is in, directly or through others.
    GroupsOf(String),
    /// None.
    Nothing,
}

/// What a [`Question`] says.
pub enum QuestionView {
    BySid(Seq<char>),
    GroupsOf(Seq<char>),
    Nothing,
}

impl View for Question {
    type V = QuestionView;

    open spec fn view(&self) -> QuestionView {
        match self {
            Question::BySid(s) => QuestionView::BySid(s@),
            Question::GroupsOf(s) => QuestionView::GroupsOf(s@),
            Question::Nothing => QuestionView::Nothing,
        }
    }
}

/// An answer of the directory.
pub type Answer = Result<Vec<RawEntry>, CoreError>;

/// The first entry of an answer.
pub open spec fn first(entries: Seq<RawEntry>) -> Option<RawEntry> {
    if entries.len() == 0 {
        None
    } else {
        Some(entries[0])
    }
}

/// Takes the first entry of an answer.
pub fn first_entry(entries: Vec<RawEntry>) -> (r: Option<RawEntry>)
    ensures
        r == first(entries@),
{
    let mut entries = entries;
    if entries.len() == 0 {
        None
    } else {
        Some(entries.swap_remove(0))
    }
}

/// How far the lookup of the memberships of a principal has come.
pub enum MembershipLookup {
    /// The principal is looked up.
    Principal { sid: Sid },
    /// It is checked that the primary group exists.
    PrimaryCheck { sid: Sid, principal: RawEntry, candidate: Sid },
    /// The groups of the principal are looked up.
    Groups { sid: Sid, principal: RawEntry, confirmed: Option<Sid> },
    /// The primary group is looked up.
    Primary { sid: Sid, principal: RawEntry, groups: Vec<RawEntry>, primary: Sid },
    /// The groups of the primary group are looked up.
    Parents {
        sid: Sid,
        principal: RawEntry,
        groups: Vec<RawEntry>,
        primary: Sid,
        entry: RawEntry,
    },
    /// The lookup has ended.
    Finished(Result<Vec<GroupMembership>, CoreError>),
}

/// Whether `next` holds the memberships that follow from the entries.
pub open spec fn is_assembled(sid: Seq<char>, m: MembershipEntries, next: MembershipLookup) -> bool {
    next matches MembershipLookup::Finished(Ok(ms)) && memberships::states_all(
        memberships::origin_of(sid, m),
        memberships::group_facts(sid, m),
        ms@,
    )
}

/// Whether the lookup of the groups of the principal is next.
pub open spec fn asks_groups(
    sid: Sid,
    principal: RawEntry,
    primary: Option<Sid>,
    next: MembershipLookup,
) -> bool {
    next == (MembershipLookup::Groups { sid, principal, confirmed: primary })
}

/// Whether `next` holds the memberships without entries for the primary group.
pub open spec fn ends_without_primary(
    sid: Seq<char>,
    principal: RawEntry,
    groups: Vec<RawEntry>,
    primary: Option<Sid>,
    next: MembershipLookup,
) -> bool {
    exists|parents: Vec<RawEntry>|
        parents@.len() == 0 && #[trigger] is_assembled(
            sid,
            MembershipEntries {
                principal,
                transitive_groups: groups,
                primary_group_sid: primary,
                primary_group: None,
                primary_group_parents: parents,
            },
            next,
        )
}

impl MembershipLookup {
    /// What is asked next.
    pub open spec fn asks(self) -> QuestionView {
        match self {
            MembershipLookup::Principal { sid } => QuestionView::BySid(sid@),
            MembershipLookup::PrimaryCheck { candidate, .. } => QuestionView::BySid(candidate@),
            MembershipLookup::Groups { principal, .. } => QuestionView::GroupsOf(principal.dn@),
            MembershipLookup::Primary { primary, .. } => QuestionView::BySid(primary@),
            MembershipLookup::Parents { entry, .. } => QuestionView::GroupsOf(entry.dn@),
            MembershipLookup::Finished(_) => QuestionView::Nothing,
        }
    }

    /// Whether an answer leads from this state to `next`. An unknown principal has no
    /// memberships. A primary group that cannot be found is left out, and every other
    /// failure ends the lookup.
    pub open spec fn leads_to(self, answer: Answer, next: MembershipLookup) -> bool {
        match self {
            MembershipLookup::Principal { sid } => match answer {
                Err(e) => next == MembershipLookup::Finished(Err(e)),
                Ok(found) => match first(found@) {
                    None => next matches MembershipLookup::Finished(Ok(ms)) && ms@.len() == 0,
                    Some(p) => match resolver::primary_group_of(p) {
                        Some(c) => {
                            &&& next matches MembershipLookup::PrimaryCheck {
                                sid: s,
                                principal,
                                candidate,
                            }
                            &&& s == sid
                            &&& principal == p
                            &&& candidate@ == c
                        },
                        None => asks_groups(sid, p, None, next),
                    },
                },
            },
            MembershipLookup::PrimaryCheck { sid, principal, candidate } => asks_groups(
                sid,
                principal,
                if answer is Ok && answer->Ok_0@.len() > 0 {
                    Some(candidate)
                } else {
                    None
                },
                next,
            ),
            MembershipLookup::Groups { sid, principal, confirmed } => match answer {
                Err(e) => next == MembershipLookup::Finished(Err(e)),
                Ok(groups) => match confirmed {
                    Some(p) => next == (MembershipLookup::Primary {
                        sid,
                        principal,
                        groups,
                        primary: p,
                    }),
                    None => ends_without_primary(sid@, principal, groups, None, next),
                },
            },
            MembershipLookup::Primary { sid, principal, groups, primary } => match answer {
                Err(e) => next == MembershipLookup::Finished(Err(e)),
                Ok(found) => match first(found@) {
                    Some(entry) => next == (MembershipLookup::Parents {
                        sid,
                        principal,
                        groups,
                        primary,
                        entry,
                    }),
                    None => ends_without_primary(sid@, principal, groups, Some(primary), next),
                },
            },
            MembershipLookup::Parents { sid, principal, groups, primary, entry } => match answer {
                Err(e) => next == MembershipLookup::Finished(Err(e)),
                Ok(parents) => is_assembled(
                    sid@,
                    MembershipEntries {
                        principal,
                        transitive_groups: groups,
                        primary_group_sid: Some(primary),
                        primary_group: Some(entry),
                        primary_group_parents: parents,
                    },
                    next,
                ),
            },
            MembershipLookup::Finished(_) => next == self,
        }
    }

    /// Number of answers that are still awaited at most.
    pub open spec fn remaining(self) -> nat {
        match self {
            MembershipLookup::Principal { .. } => 5,
            MembershipLookup::PrimaryCheck { .. } => 4,
            MembershipLookup::Groups { .. } => 3,
            MembershipLookup::Primary { .. } => 2,
            MembershipLookup::Parents { .. } => 1,
            MembershipLookup::Finished(_) => 0,
        }
    }

    /// Starts the lookup for the principal with this SID.
    pub fn start(sid: Sid) -> (r: Self)
        ensures
            r == (MembershipLookup::Principal { sid }),
    {
        MembershipLookup::Principal { sid }
    }

    /// What is asked next.
    pub fn question(&self) -> (r: Question)
        ensures
            r@ == self.asks(),
    {
        match self {
            MembershipLookup::Principal { sid } => Question::BySid(sid.0.clone()),
            MembershipLookup::PrimaryCheck { candidate, .. } => Question::BySid(
                candidate.0.clone(),
            ),
            MembershipLookup::Groups { principal, .. } => Question::GroupsOf(principal.dn.clone()),
            MembershipLookup::Primary { primary, .. } => Question::BySid(primary.0.clone()),
            MembershipLookup::Parents { entry, .. } => Question::GroupsOf(entry.dn.clone()),
            MembershipLookup::Finished(_) => Question::Nothing,
        }
    }

    /// Takes the answer to the question.
    pub fn answer(self, answer: Answer) -> (r: Self)
        ensures
            self.leads_to(answer, r),
    {
        if let MembershipLookup::PrimaryCheck { sid, principal, candidate } = self {
            let exists: bool = match &answer {
                Ok(found) => found.len() > 0,
                Err(_) => false,
            };
            return MembershipLookup::Groups {
                sid,
                principal,
                confirmed: if exists {
                    Some(candidate)
                } else {
                    None
                },
            };
        }
        if let MembershipLookup::Finished(r) = self {
            return MembershipLookup::Finished(r);
        }
        let entries: Vec<RawEntry> = match answer {
            Ok(entries) => entries,
            Err(e) => {
                return MembershipLookup::Finished(Err(e));
            },
        };
        match self {
            MembershipLookup::Principal { sid } => match first_entry(entries) {
                None => MembershipLookup::Finished(Ok(Vec::new())),
                Some(principal) => match primary_group_sid(&principal) {
                    Some(candidate) => MembershipLookup::PrimaryCheck { sid, principal, candidate },
                    None => MembershipLookup::Groups { sid, principal, confirmed: None },
                },
            },
            MembershipLookup::Groups { sid, principal, confirmed } => match confirmed {
                Some(primary) => MembershipLookup::Primary {
                    sid,
                    principal,
                    groups: entries,
                    primary,
                },
                None => finish(sid, principal, entries, None, None, Vec::new()),
            },
            MembershipLookup::Primary { sid, principal, groups, primary } => match first_entry(
                entries,
            ) {
                Some(entry) => MembershipLookup::Parents { sid, principal, groups, primary, entry },
                None => finish(sid, principal, groups, Some(primary), None, Vec::new()),
            },
            MembershipLookup::Parents { sid, principal, groups, primary, entry } => finish(
                sid,
                principal,
                groups,
                Some(primary),
                Some(entry),
                entries,
            ),
            other => other,
        }
    }
}

/// Ends a lookup with the memberships that follow from the entries.
fn finish(
    sid: Sid,
    principal: RawEntry,
    groups: Vec<RawEntry>,
    primary: Option<Sid>,
    entry: Option<RawEntry>,
    parents: Vec<RawEntry>,
) -> (r: MembershipLookup)
    ensures
        is_assembled(
            sid@,
            MembershipEntries {
                principal,
                transitive_groups: groups,
                primary_group_sid: primary,
                primary_group: entry,
                primary_group_parents: parents,
            },
            r,
        ),
{
    let m: MembershipEntries = MembershipEntries {
        principal,
        transitive_groups: groups,
        primary_group_sid: primary,
        primary_group: entry,
        primary_group_parents: parents,
    };
    MembershipLookup::Finished(Ok(assemble_memberships(&sid, &m)))
}

/// A lookup ends: every answer leaves fewer to wait for.
pub proof fn law_lookup_ends(q: MembershipLookup, answer: Answer, next: MembershipLookup)
    requires
        q.leads_to(answer, next),
        !(q is Finished),
    ensures
        next.remaining() < q.remaining(),
        next.remaining() == 0 ==> next is Finished,
{
}

/// A failed search is never taken for an empty one: it ends the lookup with its error,
/// unless it only checked that the primary group exists.
pub proof fn law_failure_is_no_empty_answer(
    q: MembershipLookup,
    e: CoreError,
    next: MembershipLookup,
)
    requires
        q.leads_to(Err(e), next),
        !(q is Finished),
        !(q is PrimaryCheck),
    ensures
        next == MembershipLookup::Finished(Err(e)),
{
}

/// The two searches for the members of a group.
#[derive(Debug, PartialEq, Eq)]
pub struct MemberSearches {
    /// Filter for entries that name the group in `memberOf`.
    pub backlink: String,
    /// Filter for entries whose primary group it is.
    pub primary: String,
}

/// Plans the searches for the members of a group, given the lookup of the group itself.
pub fn plan_member_searches(group_sid: &Sid, reply: Answer) -> (r: Result<
    MemberSearches,
    CoreError,
>)
    ensures
        (match resolver::rid_of(group_sid@) {
            None => r matches Err(CoreError::SidResolution(m)) && m@
                == "Cannot derive RID from group SID: "@ + group_sid@,
            Some(rid) => match reply {
                Err(e) => r == Err::<MemberSearches, CoreError>(e),
                Ok(found) => match first(found@) {
                    None => r matches Err(CoreError::SidResolution(m)) && m@
                        == "Group not found in the configured base: "@ + group_sid@,
                    Some(g) => {
                        &&& r matches Ok(s)
                        &&& s.backlink@ == "(memberOf="@ + ldap_client::escaped_value(g.dn@)
                            + ")"@
                        &&& s.primary@ == "(primaryGroupID="@ + text::decimal(rid) + ")"@
                    },
                },
            },
        }),
{
    let rid: u32 = match group_rid(group_sid) {
        Ok(rid) => rid,
        Err(e) => {
            return Err(e);
        },
    };
    match reply {
        Err(e) => Err(e),
        Ok(found) => match first_entry(found) {
            None => Err(group_not_found(group_sid)),
            Some(group) => Ok(
                MemberSearches {
                    backlink: filter_members_by_backlink(group.dn.as_str()),
                    primary: filter_by_primary_group(rid),
                },
            ),
        },
    }
}

/// What a lookup by SID has found: nothing where all that is left is an orphan.
pub fn known_identity(reply: Result<Identity, CoreError>) -> (r: Result<
    Option<Identity>,
    CoreError,
>)
    ensures
        (match reply {
            Err(e) => r == Err::<Option<Identity>, CoreError>(e),
            Ok(i) => r == Ok::<Option<Identity>, CoreError>(
                if i.kind == IdentityKind::Orphaned {
                    None
                } else {
                    Some(i)
                },
            ),
        }),
{
    match reply {
        Err(e) => Err(e),
        Ok(i) => if i.kind == IdentityKind::Orphaned {
            Ok(None)
        } else {
            Ok(Some(i))
        },
    }
}

/// The lookup asks for what it needs, in turn: the principal by its SID, the primary group by
/// the SID that the principal holds, the groups of the principal by its name, the primary
/// group once more, and its groups by its name.
pub proof fn law_lookup_asks_in_turn(
    sid: Sid,
    s1: MembershipLookup,
    s2: MembershipLookup,
    s3: MembershipLookup,
    s4: MembershipLookup,
    found: Vec<RawEntry>,
    checked: Vec<RawEntry>,
    groups: Vec<RawEntry>,
    primary: Vec<RawEntry>,
)
    requires
        (MembershipLookup::Principal { sid }).leads_to(Ok(found), s1),
        s1.leads_to(Ok(checked), s2),
        s2.leads_to(Ok(groups), s3),
        s3.leads_to(Ok(primary), s4),
        found@.len() > 0,
        checked@.len() > 0,
        primary@.len() > 0,
        resolver::primary_group_of(found@[0]) is Some,
    ensures
        (MembershipLookup::Principal { sid }).asks() == QuestionView::BySid(sid@),
        s1.asks() == QuestionView::BySid(resolver::primary_group_of(found@[0])->0),
        s2.asks() == QuestionView::GroupsOf(found@[0].dn@),
        s3.asks() == QuestionView::BySid(resolver::primary_group_of(found@[0])->0),
        s4.asks() == QuestionView::GroupsOf(primary@[0].dn@),
{
}

/// Whatever the directory answers about the groups of a principal and of its primary group
/// ends up in the memberships: each group with a SID other than that of the principal, once.
pub proof fn law_lookup_finds_every_group(
    sid: Sid,
    s1: MembershipLookup,
    s2: MembershipLookup,
    s3: MembershipLookup,
    s4: MembershipLookup,
    s5: MembershipLookup,
    found: Vec<RawEntry>,
    checked: Vec<RawEntry>,
    groups: Vec<RawEntry>,
    primary: Vec<RawEntry>,
    parents: Vec<RawEntry>,
    e: RawEntry,
    s: Seq<char>,
)
    requires
        (MembershipLookup::Principal { sid }).leads_to(Ok(found), s1),
        s1.leads_to(Ok(checked), s2),
        s2.leads_to(Ok(groups), s3),
        s3.leads_to(Ok(primary), s4),
        s4.leads_to(Ok(parents), s5),
        found@.len() > 0,
        checked@.len() > 0,
        primary@.len() > 0,
        resolver::primary_group_of(found@[0]) is Some,
        groups@.contains(e) || parents@.contains(e),
        resolver::entry_sid(e) == Some(s),
        s != sid@,
    ensures
        s5 matches MembershipLookup::Finished(Ok(ms)) && (exists|i: int|
            0 <= i < ms@.len() && (#[trigger] ms@[i])@.group_sid == s) && (forall|i: int, j: int|
            0 <= i < ms@.len() && 0 <= j < ms@.len() && (#[trigger] ms@[i])@.group_sid == s && (
            #[trigger] ms@[j])@.group_sid == s ==> i == j),
{
    let m = MembershipEntries {
        principal: found@[0],
        transitive_groups: groups,
        primary_group_sid: Some(s4->Parents_primary),
        primary_group: Some(primary@[0]),
        primary_group_parents: parents,
    };
    assert(is_assembled(sid@, m, s5));
    if let MembershipLookup::Finished(Ok(ms)) = s5 {
        memberships::law_every_group_has_one_membership(sid@, m, ms@, e, s);
    }
}

/// Without a primary group the groups of the principal are found all the same.
pub proof fn law_lookup_finds_groups_without_a_primary_one(
    sid: Sid,
    principal: RawEntry,
    next: MembershipLookup,
    groups: Vec<RawEntry>,
    e: RawEntry,
    s: Seq<char>,
)
    requires
        (MembershipLookup::Groups { sid, principal, confirmed: None }).leads_to(Ok(groups), next),
        groups@.contains(e),
        resolver::entry_sid(e) == Some(s),
        s != sid@,
    ensures
        next matches MembershipLookup::Finished(Ok(ms)) && exists|i: int|
            0 <= i < ms@.len() && (#[trigger] ms@[i])@.group_sid == s,
{
    let parents = choose|parents: Vec<RawEntry>|
        parents@.len() == 0 && #[trigger] is_assembled(
            sid@,
            MembershipEntries {
                principal,
                transitive_groups: groups,
                primary_group_sid: None,
                primary_group: None,
                primary_group_parents: parents,
            },
            next,
        );
    let m = MembershipEntries {
        principal,
        transitive_groups: groups,
        primary_group_sid: None,
        primary_group: None,
        primary_group_parents: parents,
    };
    if let MembershipLookup::Finished(Ok(ms)) = next {
        memberships::law_every_group_has_one_membership(sid@, m, ms@, e, s);
    }
}

/// A principal that the directory does not know has no memberships, and a primary group that
/// does not exist is not asked for again.
pub proof fn law_unknown_principal_has_no_groups(
    sid: Sid,
    principal: RawEntry,
    candidate: Sid,
    none: Vec<RawEntry>,
    next: MembershipLookup,
    after: MembershipLookup,
)
    requires
        none@.len() == 0,
        (MembershipLookup::Principal { sid }).leads_to(Ok(none), next),
        (MembershipLookup::PrimaryCheck { sid, principal, candidate }).leads_to(Ok(none), after),
    ensures
        next matches MembershipLookup::Finished(Ok(ms)) && ms@.len() == 0,
        after.asks() == QuestionView::GroupsOf(principal.dn@),
        after matches MembershipLookup::Groups { confirmed, .. } && confirmed is None,
{
}

/// The members of a group are searched for by the name of its entry and by the last number of
/// its SID. A SID without a number, and a group that is not there, are errors that name the
/// group; an error of the lookup is passed on.
pub proof fn law_members_are_searched_both_ways(
    group_sid: &Sid,
    reply: Answer,
    r: Result<MemberSearches, CoreError>,
)
    requires
        call_ensures(plan_member_searches, (group_sid, reply), r),
    ensures
        r is Ok == (resolver::rid_of(group_sid@) is Some && reply is Ok && reply->Ok_0@.len() > 0),
        r matches Ok(s) ==> {
            &&& s.primary@ == "(primaryGroupID="@ + text::decimal(resolver::rid_of(group_sid@)->0)
                + ")"@
            &&& text::occurs_in(ldap_client::escaped_value(reply->Ok_0@[0].dn@), s.backlink@)
        },
        resolver::rid_of(group_sid@) is Some ==> (reply matches Err(e) ==> r->Err_0 == e),
        r is Err && (resolver::rid_of(group_sid@) is None || reply is Ok) ==> (
        r->Err_0 matches CoreError::SidResolution(m) && text::occurs_in(group_sid@, m@)),
{
    text::lemma_first_part_leads("Cannot derive RID from group SID: "@, group_sid@);
    text::lemma_first_part_leads("Group not found in the configured base: "@, group_sid@);
    if let Ok(found) = reply {
        if found@.len() > 0 {
            text::lemma_part_occurs(
                "(memberOf="@,
                ldap_client::escaped_value(found@[0].dn@),
                ")"@,
            );
        }
    }
}

} // verus!
