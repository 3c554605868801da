//! Group memberships, in both directions.

use vstd::prelude::*;

use crate::model::diagnostic::PermissionDiagnostic;
use crate::model::identity::{clone_sids, clone_text, Identity, IdentityKind};
use crate::model::sid;
use crate::model::sid::Sid;
use crate::text;

verus! {

/// Where a membership chain comes from.
#[derive(Debug, Clone, Copy, PartialEq, Eq, Structural)]
pub enum MembershipPathSource {
    /// The primary group of the account (`primaryGroupID`).
    PrimaryGroup,
    /// Domain groups, along concrete `member` edges.
    DomainGroup,
    /// A local group of the target server.
    LocalGroup,
    /// The membership is certain, its route is not known.
    LdapMatchingRule,
}

/// Membership chain from an identity to a group.
///
/// `nodes[0]` is the start, the last node the target group. `names` runs in
/// parallel to `nodes`. `complete` says that every step is a concrete edge.
#[derive(Debug, PartialEq, Eq)]
pub struct MembershipPath {
    pub nodes: Vec<Sid>,
    pub names: Vec<Option<String>>,
    pub source: MembershipPathSource,
    pub complete: bool,
}

/// What a [`MembershipPath`] says.
pub struct MembershipPathView {
    pub nodes: Seq<Seq<char>>,
    pub names: Seq<Option<Seq<char>>>,
    pub source: MembershipPathSource,
    pub complete: bool,
}

/// The views of a sequence of optional names.
pub open spec fn name_texts(s: Seq<Option<String>>) -> Seq<Option<Seq<char>>> {
    s.map_values(|x: Option<String>| text::text_of(x))
}

impl View for MembershipPath {
    type V = MembershipPathView;

    open spec fn view(&self) -> MembershipPathView {
        MembershipPathView {
            nodes: sid::sid_texts(self.nodes@),
            names: name_texts(self.names@),
            source: self.source,
            complete: self.complete,
        }
    }
}

/// Copies a list of optional names.
fn clone_names(v: &Vec<Option<String>>) -> (r: Vec<Option<String>>)
    ensures
        r@ == v@,
{
    let mut out: Vec<Option<String>> = Vec::new();
    for i in 0..v.len()
        invariant
            out@ == v@.take(i as int),
    {
        out.push(clone_text(&v[i]));
        assert(out@ =~= v@.take(i + 1));
    }
    assert(v@.take(v@.len() as int) =~= v@);
    out
}

impl Clone for MembershipPath {
    fn clone(&self) -> (r: Self)
        ensures
            r@ == self@,
    {
        MembershipPath {
            nodes: clone_sids(&self.nodes),
            names: clone_names(&self.names),
            source: self.source,
            complete: self.complete,
        }
    }
}

/// A chain of one step.
pub fn short_path(
    from: &Sid,
    from_name: Option<String>,
    to: &Sid,
    to_name: Option<String>,
    source: MembershipPathSource,
    complete: bool,
) -> (r: MembershipPath)
    ensures
        r@ == short_path_view(
            from@,
            text::text_of(from_name),
            to@,
            text::text_of(to_name),
            source,
            complete,
        ),
{
    let mut nodes: Vec<Sid> = Vec::new();
    nodes.push(from.clone());
    nodes.push(to.clone());
    let mut names: Vec<Option<String>> = Vec::new();
    names.push(from_name);
    names.push(to_name);
    assert(sid::sid_texts(nodes@) =~= seq![from@, to@]);
    assert(name_texts(names@) =~= seq![text::text_of(from_name), text::text_of(to_name)]);
    MembershipPath { nodes, names, source, complete }
}

/// What a chain of one step says.
pub open spec fn short_path_view(
    from: Seq<char>,
    from_name: Option<Seq<char>>,
    to: Seq<char>,
    to_name: Option<Seq<char>>,
    source: MembershipPathSource,
    complete: bool,
) -> MembershipPathView {
    MembershipPathView {
        nodes: seq![from, to],
        names: seq![from_name, to_name],
        source,
        complete,
    }
}

/// Membership of an identity in a group.
#[derive(Debug)]
pub struct GroupMembership {
    pub member_sid: Sid,
    pub group_sid: Sid,
    pub direct: bool,
    /// Name of the group where the resolver supplied one.
    pub group_name: Option<String>,
    /// Chain from the member to the group where the resolver supplied one.
    pub path: Option<MembershipPath>,
    /// Number of historical SIDs the group itself carries.
    pub group_sid_history_count: usize,
    /// The historical SIDs of the group that could be parsed.
    pub group_sid_history: Vec<Sid>,
}

/// What a [`GroupMembership`] says.
pub struct GroupMembershipView {
    pub member_sid: Seq<char>,
    pub group_sid: Seq<char>,
    pub direct: bool,
    pub group_name: Option<Seq<char>>,
    pub path: Option<MembershipPathView>,
    pub group_sid_history_count: usize,
    pub group_sid_history: Seq<Seq<char>>,
}

impl View for GroupMembership {
    type V = GroupMembershipView;

    open spec fn view(&self) -> GroupMembershipView {
        GroupMembershipView {
            member_sid: self.member_sid@,
            group_sid: self.group_sid@,
            direct: self.direct,
            group_name: text::text_of(self.group_name),
            path: match self.path {
                Some(p) => Some(p@),
                None => None,
            },
            group_sid_history_count: self.group_sid_history_count,
            group_sid_history: sid::sid_texts(self.group_sid_history@),
        }
    }
}

/// The views of a sequence of memberships.
pub open spec fn membership_views(s: Seq<GroupMembership>) -> Seq<GroupMembershipView> {
    s.map_values(|m: GroupMembership| m@)
}

impl Clone for GroupMembership {
    fn clone(&self) -> (r: Self)
        ensures
            r@ == self@,
    {
        GroupMembership {
            member_sid: self.member_sid.clone(),
            group_sid: self.group_sid.clone(),
            direct: self.direct,
            group_name: clone_text(&self.group_name),
            path: match &self.path {
                Some(p) => Some(p.clone()),
                None => None,
            },
            group_sid_history_count: self.group_sid_history_count,
            group_sid_history: clone_sids(&self.group_sid_history),
        }
    }
}

/// Whether no earlier membership names the group of `ms[i]`.
pub open spec fn names_group_first(ms: Seq<GroupMembership>, i: int) -> bool {
    forall|j: int| 0 <= j < i ==> (#[trigger] ms[j]).group_sid@ != ms[i].group_sid@
}

/// Number of groups in `ms` with parsed historical SIDs; a group counts once,
/// by its first membership.
pub open spec fn history_groups(ms: Seq<GroupMembership>) -> nat
    decreases ms.len(),
{
    if ms.len() == 0 {
        0
    } else {
        let m = ms.last();
        history_groups(ms.drop_last()) + (if names_group_first(ms, ms.len() - 1)
            && m.group_sid_history_count > 0 && m.group_sid_history@.len() > 0 {
            1nat
        } else {
            0
        })
    }
}

/// Number of parsed historical SIDs over the groups of `ms`.
pub open spec fn history_evaluated(ms: Seq<GroupMembership>) -> nat
    decreases ms.len(),
{
    if ms.len() == 0 {
        0
    } else {
        let m = ms.last();
        history_evaluated(ms.drop_last()) + (if names_group_first(ms, ms.len() - 1)
            && m.group_sid_history_count > 0 {
            m.group_sid_history@.len()
        } else {
            0
        })
    }
}

/// Number of historical SIDs over the groups of `ms` that were not parsed.
pub open spec fn history_unevaluated(ms: Seq<GroupMembership>) -> nat
    decreases ms.len(),
{
    if ms.len() == 0 {
        0
    } else {
        let m = ms.last();
        history_unevaluated(ms.drop_last()) + (if names_group_first(ms, ms.len() - 1)
            && m.group_sid_history_count > m.group_sid_history@.len() {
            (m.group_sid_history_count - m.group_sid_history@.len()) as nat
        } else {
            0
        })
    }
}

/// The markers for the historical SIDs of the groups in `ms`.
pub open spec fn group_history_markers(ms: Seq<GroupMembership>) -> Seq<PermissionDiagnostic> {
    (if history_evaluated(ms) > 0 {
        seq![
            PermissionDiagnostic::GroupSidHistoryEvaluated {
                groups: history_groups(ms) as usize,
                count: history_evaluated(ms) as usize,
            },
        ]
    } else {
        Seq::empty()
    }) + (if history_unevaluated(ms) > 0 {
        seq![
            PermissionDiagnostic::GroupSidHistoryPresent { count: history_unevaluated(ms) as usize },
        ]
    } else {
        Seq::empty()
    })
}

/// Listing a group once more, as happens where the directory and the server both name
/// it, does not change the markers.
pub proof fn law_group_counts_once(ms: Seq<GroupMembership>, again: GroupMembership)
    requires
        exists|i: int| 0 <= i < ms.len() && (#[trigger] ms[i]).group_sid@ == again.group_sid@,
    ensures
        group_history_markers(ms.push(again)) == group_history_markers(ms),
{
    let all = ms.push(again);
    let i = choose|i: int|
        0 <= i < ms.len() && (#[trigger] ms[i]).group_sid@ == again.group_sid@;
    assert(all[i].group_sid@ == all[all.len() - 1].group_sid@);
    assert(!names_group_first(all, all.len() - 1));
    assert(all.drop_last() =~= ms);
}

/// The counts of a shorter list are no larger.
proof fn lemma_history_grows(ms: Seq<GroupMembership>, n: int)
    requires
        0 <= n <= ms.len(),
    ensures
        history_groups(ms.take(n)) <= n,
        history_evaluated(ms.take(n)) <= history_evaluated(ms),
        history_unevaluated(ms.take(n)) <= history_unevaluated(ms),
    decreases ms.len(),
{
    if n < ms.len() {
        assert(ms.drop_last().take(n) =~= ms.take(n));
        lemma_history_grows(ms.drop_last(), n);
    } else {
        assert(ms.take(n) =~= ms);
        if n > 0 {
            lemma_history_grows(ms.drop_last(), n - 1);
            assert(ms.drop_last().take(n - 1) =~= ms.drop_last());
        }
    }
}

/// Classifies the `sIDHistory` of the groups in a membership set. A group that
/// is listed several times counts once.
pub fn group_sid_history_diagnostics(memberships: &[GroupMembership]) -> (r: Vec<
    PermissionDiagnostic,
>)
    requires
        history_evaluated(memberships@) <= usize::MAX,
        history_unevaluated(memberships@) <= usize::MAX,
    ensures
        r@ == group_history_markers(memberships@),
{
    let mut groups: usize = 0;
    let mut evaluated: usize = 0;
    let mut unevaluated: usize = 0;
    let ghost all = memberships@;
    for i in 0..memberships.len()
        invariant
            all == memberships@,
            history_evaluated(all) <= usize::MAX,
            history_unevaluated(all) <= usize::MAX,
            groups == history_groups(all.take(i as int)),
            evaluated == history_evaluated(all.take(i as int)),
            unevaluated == history_unevaluated(all.take(i as int)),
    {
        let gm: &GroupMembership = &memberships[i];
        let mut first: bool = true;
        for j in 0..i
            invariant
                i < memberships@.len(),
                *gm == memberships@[i as int],
                first == (forall|k: int|
                    0 <= k < j ==> (#[trigger] memberships@[k]).group_sid@ != gm.group_sid@),
        {
            if memberships[j].group_sid.0 == gm.group_sid.0 {
                first = false;
            }
        }
        let ghost now = all.take(i + 1);
        proof {
            assert(now.drop_last() =~= all.take(i as int));
            assert(now.last() == *gm);
            assert(names_group_first(now, i as int) == first) by {
                assert(forall|k: int| 0 <= k < i ==> now[k] == all[k]);
            }
            lemma_history_grows(all, i + 1);
            lemma_history_grows(all, i as int);
        }
        if first && gm.group_sid_history_count > 0 {
            let parsed: usize = gm.group_sid_history.len();
            if parsed > 0 {
                groups = groups + 1;
                evaluated = evaluated + parsed;
            }
            unevaluated = unevaluated + gm.group_sid_history_count.saturating_sub(parsed);
        }
    }
    assert(all.take(all.len() as int) =~= all);
    let mut d: Vec<PermissionDiagnostic> = Vec::new();
    if evaluated > 0 {
        d.push(PermissionDiagnostic::GroupSidHistoryEvaluated { groups, count: evaluated });
    }
    if unevaluated > 0 {
        d.push(PermissionDiagnostic::GroupSidHistoryPresent { count: unevaluated });
    }
    assert(d@ =~= group_history_markers(memberships@));
    d
}

/// The name of node `i` of a chain: its display name where known, its SID otherwise.
pub open spec fn node_label(p: MembershipPathView, i: int) -> Seq<char> {
    if i < p.names.len() && p.names[i] is Some {
        p.names[i]->0
    } else {
        p.nodes[i]
    }
}

/// The names of the first `n` nodes of a chain.
pub open spec fn node_labels(p: MembershipPathView, n: nat) -> Seq<Seq<char>> {
    Seq::new(n, |i: int| node_label(p, i))
}

/// How a membership arose, in words.
pub open spec fn origin_text(m: GroupMembershipView) -> Seq<char> {
    if m.path matches Some(p) && p.source is PrimaryGroup {
        "primary group"@
    } else if m.path matches Some(p) && p.source is LocalGroup {
        "local group"@
    } else if m.direct {
        "direct"@
    } else {
        match m.path {
            None => "nested"@,
            Some(p) => {
                let chain = "via "@ + text::joined(node_labels(p, p.nodes.len()), " \u{2192} "@);
                if p.complete {
                    chain
                } else {
                    chain + " (chain not fully reconstructed)"@
                }
            },
        }
    }
}

impl GroupMembership {
    /// Describes how this membership arose.
    pub fn origin_label(&self) -> (r: String)
        ensures
            r@ == origin_text(self@),
    {
        if let Some(p) = &self.path {
            match p.source {
                MembershipPathSource::PrimaryGroup => {
                    return "primary group".to_owned();
                },
                MembershipPathSource::LocalGroup => {
                    return "local group".to_owned();
                },
                _ => {},
            }
        }
        if self.direct {
            return "direct".to_owned();
        }
        match &self.path {
            None => "nested".to_owned(),
            Some(p) => {
                let mut chain: Vec<String> = Vec::new();
                for i in 0..p.nodes.len()
                    invariant
                        text::texts(chain@) == node_labels(p@, i as nat),
                {
                    let mut label: String = p.nodes[i].0.clone();
                    if i < p.names.len() {
                        if let Some(n) = &p.names[i] {
                            label = n.clone();
                        }
                    }
                    assert(label@ == node_label(p@, i as int)) by {
                        if i < p.names@.len() {
                            assert(p@.names[i as int] == text::text_of(p.names@[i as int]));
                        }
                    }
                    let ghost before = text::texts(chain@);
                    chain.push(label);
                    assert(text::texts(chain@) =~= before.push(label@));
                    assert(node_labels(p@, (i + 1) as nat) =~= node_labels(p@, i as nat).push(
                        label@,
                    ));
                }
                let arrow: String = text::join(&chain, " \u{2192} ");
                let label: String = "via ".to_owned().concat(arrow.as_str());
                if p.complete {
                    label
                } else {
                    label.concat(" (chain not fully reconstructed)")
                }
            },
        }
    }
}

/// The privileged role of a built-in group.
pub open spec fn builtin_role(sid: Seq<char>) -> Option<Seq<char>> {
    if sid == "S-1-5-32-544"@ {
        Some("Administrators"@)
    } else if sid == "S-1-5-32-548"@ {
        Some("Account Operators"@)
    } else if sid == "S-1-5-32-549"@ {
        Some("Server Operators"@)
    } else if sid == "S-1-5-32-550"@ {
        Some("Print Operators"@)
    } else if sid == "S-1-5-32-551"@ {
        Some("Backup Operators"@)
    } else {
        None
    }
}

/// The privileged role of a domain group with the relative identifier `rid`.
pub open spec fn domain_role(rid: Seq<char>) -> Option<Seq<char>> {
    if rid == "512"@ {
        Some("Domain Admins"@)
    } else if rid == "519"@ {
        Some("Enterprise Admins"@)
    } else if rid == "518"@ {
        Some("Schema Admins"@)
    } else if rid == "520"@ {
        Some("Group Policy Creator Owners"@)
    } else if rid == "526"@ {
        Some("Key Admins"@)
    } else if rid == "527"@ {
        Some("Enterprise Key Admins"@)
    } else {
        None
    }
}

/// The privileged role that a SID stands for.
pub open spec fn role_of(sid: Seq<char>) -> Option<Seq<char>> {
    match builtin_role(sid) {
        Some(role) => Some(role),
        None => if "S-1-5-21-"@.is_prefix_of(sid) {
            domain_role(text::split_at_char(sid.skip(9), '-').last())
        } else {
            None
        },
    }
}

/// The view of an optional string slice.
pub open spec fn slice_of(o: Option<&'static str>) -> Option<Seq<char>> {
    match o {
        Some(s) => Some(s@),
        None => None,
    }
}

/// The privileged role of a group: built-in groups by their SID, domain groups
/// by their relative identifier.
pub fn privileged_group_role(sid: &Sid) -> (r: Option<&'static str>)
    ensures
        slice_of(r) == role_of(sid@),
{
    let s: &str = sid.0.as_str();
    if text::same_text(s, "S-1-5-32-544") {
        return Some("Administrators");
    }
    if text::same_text(s, "S-1-5-32-548") {
        return Some("Account Operators");
    }
    if text::same_text(s, "S-1-5-32-549") {
        return Some("Server Operators");
    }
    if text::same_text(s, "S-1-5-32-550") {
        return Some("Print Operators");
    }
    if text::same_text(s, "S-1-5-32-551") {
        return Some("Backup Operators");
    }
    proof {
        reveal_strlit("S-1-5-21-");
    }
    if !text::starts_with(s, "S-1-5-21-") {
        return None;
    }
    let n: usize = s.unicode_len();
    let rest: &str = s.substring_char(9, n);
    assert(rest@ =~= s@.skip(9));
    let parts: Vec<String> = text::split(rest, '-');
    let rid: &str = parts[parts.len() - 1].as_str();
    assert(rid@ == text::split_at_char(rest@, '-').last());
    if text::same_text(rid, "512") {
        Some("Domain Admins")
    } else if text::same_text(rid, "519") {
        Some("Enterprise Admins")
    } else if text::same_text(rid, "518") {
        Some("Schema Admins")
    } else if text::same_text(rid, "520") {
        Some("Group Policy Creator Owners")
    } else if text::same_text(rid, "526") {
        Some("Key Admins")
    } else if text::same_text(rid, "527") {
        Some("Enterprise Key Admins")
    } else {
        None
    }
}

/// The role of a domain group rests on its relative identifier alone, in whatever
/// domain it is.
pub proof fn law_role_does_not_depend_on_domain(domain: Seq<char>, rid: Seq<char>)
    requires
        !rid.contains('-'),
    ensures
        role_of("S-1-5-21-"@ + (domain.push('-') + rid)) == domain_role(rid),
{
    let sid = "S-1-5-21-"@ + (domain.push('-') + rid);
    reveal_strlit("S-1-5-21-");
    reveal_strlit("S-1-5-32-544");
    reveal_strlit("S-1-5-32-548");
    reveal_strlit("S-1-5-32-549");
    reveal_strlit("S-1-5-32-550");
    reveal_strlit("S-1-5-32-551");
    assert(sid[6] == '2');
    assert("S-1-5-32-544"@[6] == '3');
    assert("S-1-5-32-548"@[6] == '3');
    assert("S-1-5-32-549"@[6] == '3');
    assert("S-1-5-32-550"@[6] == '3');
    assert("S-1-5-32-551"@[6] == '3');
    assert("S-1-5-21-"@.is_prefix_of(sid));
    assert(sid.skip(9) =~= domain.push('-') + rid);
    text::lemma_split_behind(domain, '-', rid);
}

/// The privileged ones among `sids`, each with its role, in order.
pub open spec fn privileged_among(sids: Seq<Seq<char>>) -> Seq<(Seq<char>, Seq<char>)>
    decreases sids.len(),
{
    if sids.len() == 0 {
        Seq::empty()
    } else {
        let init = privileged_among(sids.drop_last());
        match role_of(sids.last()) {
            Some(role) => init.push((sids.last(), role)),
            None => init,
        }
    }
}

/// The views of a sequence of SIDs with their roles.
pub open spec fn role_texts(v: Seq<(&Sid, &'static str)>) -> Seq<(Seq<char>, Seq<char>)> {
    v.map_values(|p: (&Sid, &'static str)| (p.0@, p.1@))
}

/// The groups an identity belongs to.
#[derive(Debug)]
pub struct MembershipReport {
    pub identity: Identity,
    /// `true` where a directory connection backed the resolution.
    pub ad_connected: bool,
    pub memberships: Vec<GroupMembership>,
    pub diagnostics: Vec<PermissionDiagnostic>,
}

/// The group SIDs of `ms`.
pub open spec fn group_sids(ms: Seq<GroupMembership>) -> Seq<Seq<char>> {
    ms.map_values(|m: GroupMembership| m.group_sid@)
}

impl MembershipReport {
    /// The memberships in privileged groups, each with its role.
    pub fn privileged(&self) -> (r: Vec<(&Sid, &'static str)>)
        ensures
            role_texts(r@) == privileged_among(group_sids(self.memberships@)),
    {
        let mut out: Vec<(&Sid, &'static str)> = Vec::new();
        let ghost all = group_sids(self.memberships@);
        assert(role_texts(out@) =~= privileged_among(all.take(0)));
        for i in 0..self.memberships.len()
            invariant
                all == group_sids(self.memberships@),
                role_texts(out@) == privileged_among(all.take(i as int)),
        {
            let sid: &Sid = &self.memberships[i].group_sid;
            let ghost before = role_texts(out@);
            assert(all.take(i + 1).drop_last() =~= all.take(i as int));
            if let Some(role) = privileged_group_role(sid) {
                out.push((sid, role));
                assert(role_texts(out@) =~= before.push((sid@, role@)));
            }
        }
        assert(all.take(all.len() as int) =~= all);
        out
    }
}

/// How a member came into a group.
#[derive(Debug, Clone, Copy, PartialEq, Eq, Structural)]
pub enum MemberVia {
    /// Listed in the `member` attribute of the group.
    Direct,
    /// The group is the primary group of the member; such members are not in
    /// the `member` attribute.
    PrimaryGroup,
}

impl MemberVia {
    /// Short label.
    pub fn label(&self) -> (r: &'static str)
        ensures
            r@ == (match *self {
                MemberVia::Direct => "direct"@,
                MemberVia::PrimaryGroup => "via primaryGroupID"@,
            }),
    {
        match self {
            MemberVia::Direct => "direct",
            MemberVia::PrimaryGroup => "via primaryGroupID",
        }
    }
}

/// One member of a group.
#[derive(Debug)]
pub struct MemberNode {
    pub identity: Identity,
    pub via: MemberVia,
    /// Members of a nested group; empty for direct members.
    pub children: Vec<MemberNode>,
}

/// The members of a group.
#[derive(Debug)]
pub struct GroupMembersReport {
    pub group: Identity,
    pub members: Vec<MemberNode>,
    pub diagnostics: Vec<PermissionDiagnostic>,
}

/// Why the members view does not apply to an identity; `None` for a group.
pub open spec fn rejection_text(identity: Identity) -> Option<Seq<char>> {
    match identity.kind {
        IdentityKind::Group => None,
        IdentityKind::Unknown | IdentityKind::Orphaned => Some(
            "'"@ + identity.shown_name()
                + "' could not be resolved as a group in the directory."@,
        ),
        kind => Some(
            "'"@ + identity.shown_name() + "' is a "@ + kind.name()
                + ", not a group — the members view only applies to groups."@,
        ),
    }
}

/// Refuses the members view for anything but a group, with the reason.
pub fn members_view_rejection(identity: &Identity) -> (r: Option<String>)
    ensures
        text::text_of(r) == rejection_text(*identity),
{
    let subject: String = "'".to_owned().concat(identity.display());
    match identity.kind {
        IdentityKind::Group => None,
        IdentityKind::Unknown | IdentityKind::Orphaned => Some(
            subject.concat("' could not be resolved as a group in the directory."),
        ),
        kind => Some(
            subject.concat("' is a ").concat(kind.kind_name()).concat(
                ", not a group — the members view only applies to groups.",
            ),
        ),
    }
}

/// Number of the members that came through their primary group.
pub open spec fn via_primary(members: Seq<MemberNode>) -> nat
    decreases members.len(),
{
    if members.len() == 0 {
        0
    } else {
        via_primary(members.drop_last()) + (if members.last().via is PrimaryGroup {
            1nat
        } else {
            0
        })
    }
}

/// Counts the members that came through their primary group.
pub fn count_via_primary(members: &Vec<MemberNode>) -> (r: usize)
    ensures
        r == via_primary(members@),
        r <= members@.len(),
{
    let mut n: usize = 0;
    for i in 0..members.len()
        invariant
            n == via_primary(members@.take(i as int)),
            n <= i,
    {
        assert(members@.take(i + 1).drop_last() =~= members@.take(i as int));
        if let MemberVia::PrimaryGroup = members[i].via {
            n = n + 1;
        }
    }
    assert(members@.take(members@.len() as int) =~= members@);
    n
}

/// The SIDs of `members`.
pub open spec fn member_sids(members: Seq<MemberNode>) -> Seq<Seq<char>> {
    members.map_values(|m: MemberNode| m.identity.sid@)
}

impl GroupMembersReport {
    /// Number of direct members, and how many of them came through their
    /// primary group.
    pub fn direct_counts(&self) -> (r: (usize, usize))
        ensures
            r.0 == self.members@.len(),
            r.1 == via_primary(self.members@),
    {
        (self.members.len(), count_via_primary(&self.members))
    }

    /// The members that are privileged groups themselves, each with its role.
    pub fn privileged_members(&self) -> (r: Vec<(&Sid, &'static str)>)
        ensures
            role_texts(r@) == privileged_among(member_sids(self.members@)),
    {
        let mut out: Vec<(&Sid, &'static str)> = Vec::new();
        let ghost all = member_sids(self.members@);
        assert(role_texts(out@) =~= privileged_among(all.take(0)));
        for i in 0..self.members.len()
            invariant
                all == member_sids(self.members@),
                role_texts(out@) == privileged_among(all.take(i as int)),
        {
            let sid: &Sid = &self.members[i].identity.sid;
            let ghost before = role_texts(out@);
            assert(all.take(i + 1).drop_last() =~= all.take(i as int));
            if let Some(role) = privileged_group_role(sid) {
                out.push((sid, role));
                assert(role_texts(out@) =~= before.push((sid@, role@)));
            }
        }
        assert(all.take(all.len() as int) =~= all);
        out
    }
}

/// A group that is met for the first time adds its history: what was parsed to what was
/// evaluated, the rest to what was not, and itself to the groups where any was parsed. A
/// group without history adds nothing.
pub proof fn law_new_group_adds_its_history(ms: Seq<GroupMembership>, m: GroupMembership)
    requires
        forall|i: int| 0 <= i < ms.len() ==> (#[trigger] ms[i]).group_sid@ != m.group_sid@,
        m.group_sid_history@.len() <= m.group_sid_history_count,
    ensures
        history_evaluated(ms.push(m)) == history_evaluated(ms) + m.group_sid_history@.len(),
        history_unevaluated(ms.push(m)) == history_unevaluated(ms) + (m.group_sid_history_count
            - m.group_sid_history@.len()),
        history_groups(ms.push(m)) == history_groups(ms) + (if m.group_sid_history@.len() > 0 {
            1int
        } else {
            0
        }),
        history_evaluated(Seq::empty()) == 0 && history_unevaluated(Seq::empty()) == 0
            && history_groups(Seq::empty()) == 0,
{
    let all = ms.push(m);
    assert(all.drop_last() =~= ms);
    assert(names_group_first(all, all.len() - 1));
}

/// The history of groups is marked: what was evaluated with the number of groups and of SIDs,
/// and what was not with its number. Without any there is no marker.
pub proof fn law_group_history_is_marked(ms: Seq<GroupMembership>)
    requires
        history_evaluated(ms) <= usize::MAX,
        history_unevaluated(ms) <= usize::MAX,
        history_groups(ms) <= usize::MAX,
    ensures
        ({
            let d = group_history_markers(ms);
            &&& history_evaluated(ms) > 0 ==> d.len() > 0 && (d[0]
                matches PermissionDiagnostic::GroupSidHistoryEvaluated { groups, count } && groups
                == history_groups(ms) && count == history_evaluated(ms))
            &&& history_unevaluated(ms) > 0 ==> d.len() > 0 && (d.last()
                matches PermissionDiagnostic::GroupSidHistoryPresent { count } && count
                == history_unevaluated(ms))
            &&& d.len() == (if history_evaluated(ms) > 0 {
                1int
            } else {
                0
            }) + (if history_unevaluated(ms) > 0 {
                1int
            } else {
                0
            })
        }),
{
}

/// How a membership arose is told: the primary group and local groups by their sort, a direct
/// one as such, and every other one by the chain to it, which is marked where it is not
/// known in full.
pub proof fn law_origin_is_told(m: GroupMembershipView)
    ensures
        m.path matches Some(p) ==> (p.source == MembershipPathSource::PrimaryGroup ==> origin_text(
            m,
        ) == "primary group"@),
        m.path matches Some(p) ==> (p.source == MembershipPathSource::LocalGroup ==> origin_text(m)
            == "local group"@),
        m.direct && (m.path matches Some(p) ==> p.source != MembershipPathSource::PrimaryGroup
            && p.source != MembershipPathSource::LocalGroup) ==> origin_text(m) == "direct"@,
        !m.direct && m.path is None ==> origin_text(m) == "nested"@,
        !m.direct ==> (m.path matches Some(p) ==> (p.source != MembershipPathSource::PrimaryGroup
            && p.source != MembershipPathSource::LocalGroup ==> {
            let chain = text::joined(node_labels(p, p.nodes.len()), " \u{2192} "@);
            &&& p.complete ==> origin_text(m) == "via "@ + chain
            &&& !p.complete ==> ("via "@ + chain).is_prefix_of(origin_text(m)) && origin_text(
                m,
            ).len() > ("via "@ + chain).len()
        })),
{
    reveal_strlit(" (chain not fully reconstructed)");
    if let Some(p) = m.path {
        let chain = "via "@ + text::joined(node_labels(p, p.nodes.len()), " \u{2192} "@);
        let t = chain + " (chain not fully reconstructed)"@;
        assert(t.subrange(0, chain.len() as int) =~= chain);
    }
}

/// Every node of a chain is shown, by its name where that is known and by its SID otherwise.
pub proof fn law_every_node_is_shown(p: MembershipPathView, i: int)
    requires
        0 <= i < p.nodes.len(),
    ensures
        node_labels(p, p.nodes.len()).len() == p.nodes.len(),
        i < p.names.len() && p.names[i] is Some ==> node_labels(p, p.nodes.len())[i]
            == p.names[i]->0,
        i >= p.names.len() || p.names[i] is None ==> node_labels(p, p.nodes.len())[i] == p.nodes[i],
{
}

/// The privileged ones among SIDs are listed, each with its role and in their order, and
/// nobody else.
pub proof fn law_privileged_ones_are_listed(sids: Seq<Seq<char>>, s: Seq<char>)
    ensures
        privileged_among(Seq::empty()).len() == 0,
        role_of(s) matches Some(role) ==> privileged_among(sids.push(s)) == privileged_among(
            sids,
        ).push((s, role)),
        role_of(s) is None ==> privileged_among(sids.push(s)) == privileged_among(sids),
{
    assert(sids.push(s).drop_last() =~= sids);
}

/// The privileged roles are those of eleven groups: six of a domain, by their relative
/// identifiers, and five that are built in.
pub proof fn law_privileged_roles(rid: Seq<char>, sid: Seq<char>)
    ensures
        (domain_role(rid) is Some) == (rid == "512"@ || rid == "518"@ || rid == "519"@ || rid
            == "520"@ || rid == "526"@ || rid == "527"@),
        rid == "512"@ ==> domain_role(rid) == Some("Domain Admins"@),
        rid == "518"@ ==> domain_role(rid) == Some("Schema Admins"@),
        rid == "519"@ ==> domain_role(rid) == Some("Enterprise Admins"@),
        rid == "520"@ ==> domain_role(rid) == Some("Group Policy Creator Owners"@),
        rid == "526"@ ==> domain_role(rid) == Some("Key Admins"@),
        rid == "527"@ ==> domain_role(rid) == Some("Enterprise Key Admins"@),
        (builtin_role(sid) is Some) == (sid == "S-1-5-32-544"@ || sid == "S-1-5-32-548"@ || sid
            == "S-1-5-32-549"@ || sid == "S-1-5-32-550"@ || sid == "S-1-5-32-551"@),
        sid == "S-1-5-32-544"@ ==> role_of(sid) == Some("Administrators"@),
        sid == "S-1-5-32-548"@ ==> role_of(sid) == Some("Account Operators"@),
        sid == "S-1-5-32-549"@ ==> role_of(sid) == Some("Server Operators"@),
        sid == "S-1-5-32-550"@ ==> role_of(sid) == Some("Print Operators"@),
        sid == "S-1-5-32-551"@ ==> role_of(sid) == Some("Backup Operators"@),
        builtin_role(sid) is None && !"S-1-5-21-"@.is_prefix_of(sid) ==> role_of(sid) is None,
{
    reveal_strlit("512");
    reveal_strlit("518");
    reveal_strlit("519");
    reveal_strlit("520");
    reveal_strlit("526");
    reveal_strlit("527");
    assert("512"@[1] == '1' && "512"@[2] == '2');
    assert("518"@[1] == '1' && "518"@[2] == '8');
    assert("519"@[1] == '1' && "519"@[2] == '9');
    assert("520"@[1] == '2' && "520"@[2] == '0');
    assert("526"@[1] == '2' && "526"@[2] == '6');
    assert("527"@[1] == '2' && "527"@[2] == '7');
    reveal_strlit("S-1-5-32-544");
    reveal_strlit("S-1-5-32-548");
    reveal_strlit("S-1-5-32-549");
    reveal_strlit("S-1-5-32-550");
    reveal_strlit("S-1-5-32-551");
    assert("S-1-5-32-544"@[11] == '4' && "S-1-5-32-548"@[11] == '8' && "S-1-5-32-549"@[11] == '9'
        && "S-1-5-32-550"@[11] == '0' && "S-1-5-32-551"@[11] == '1');
}

/// The members view takes groups and nothing else; a refusal names the identity.
pub proof fn law_members_view_takes_groups(identity: Identity)
    ensures
        (rejection_text(identity) is None) == (identity.kind == IdentityKind::Group),
        rejection_text(identity) matches Some(m) ==> text::occurs_in(identity.shown_name(), m),
{
    let n = identity.shown_name();
    text::lemma_part_occurs("'"@, n, "' could not be resolved as a group in the directory."@);
    let rest = "' is a "@ + identity.kind.name()
        + ", not a group — the members view only applies to groups."@;
    text::lemma_part_occurs("'"@, n, rest);
    text::lemma_assoc("'"@ + n, "' is a "@, identity.kind.name());
    text::lemma_assoc(
        "'"@ + n,
        "' is a "@ + identity.kind.name(),
        ", not a group — the members view only applies to groups."@,
    );
}

/// Members that came through their primary group are counted.
pub proof fn law_primary_members_are_counted(members: Seq<MemberNode>)
    ensures
        via_primary(members) == members.filter(
            |m: MemberNode| m.via == MemberVia::PrimaryGroup,
        ).len(),
    decreases members.len(),
{
    reveal(Seq::filter);
    if members.len() > 0 {
        law_primary_members_are_counted(members.drop_last());
    }
}

/// A membership says all that it holds, and so does its chain.
pub proof fn law_membership_says_everything(m: GroupMembership, k: int)
    ensures
        m@.member_sid == m.member_sid.0@,
        m@.group_sid == m.group_sid.0@,
        m@.direct == m.direct,
        m@.group_name is Some == m.group_name is Some,
        m.group_name matches Some(s) ==> m@.group_name == Some(s@),
        m@.group_sid_history_count == m.group_sid_history_count,
        m@.group_sid_history.len() == m.group_sid_history@.len(),
        0 <= k < m.group_sid_history@.len() ==> m@.group_sid_history[k]
            == m.group_sid_history@[k].0@,
        m@.path is Some == m.path is Some,
        m.path matches Some(p) ==> (m@.path matches Some(v) && {
            &&& v.source == p.source
            &&& v.complete == p.complete
            &&& v.nodes.len() == p.nodes@.len()
            &&& v.names.len() == p.names@.len()
            &&& 0 <= k < p.nodes@.len() ==> v.nodes[k] == p.nodes@[k].0@
            &&& 0 <= k < p.names@.len() ==> v.names[k] is Some == p.names@[k] is Some
            &&& 0 <= k < p.names@.len() && p.names@[k] is Some ==> v.names[k] == Some(
                p.names@[k]->0@,
            )
        }),
{
}

/// A chain of one step goes from its start to its end, and says which is which.
pub proof fn law_short_path_goes_from_start_to_end(
    from: Seq<char>,
    from_name: Option<Seq<char>>,
    to: Seq<char>,
    to_name: Option<Seq<char>>,
    source: MembershipPathSource,
    complete: bool,
)
    ensures
        ({
            let p = short_path_view(from, from_name, to, to_name, source, complete);
            &&& p.nodes.len() == 2 && p.names.len() == 2
            &&& p.nodes.first() == from && p.nodes.last() == to
            &&& p.names.first() == from_name && p.names.last() == to_name
            &&& p.source == source && p.complete == complete
        }),
{
}

} // verus!
