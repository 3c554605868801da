//! What goes into the evaluation of an object.

use vstd::hash_map::StringHashMap;
use vstd::prelude::*;

use crate::ad::principal;
use crate::ad::principal::{EngineFlags, PrincipalResolution};
use crate::analysis::PermissionEvaluationInput;
use crate::error::CoreError;
use crate::model::access::{
    AccessMask, FileSystemObject, LocalGroupEvalStatus, ShareMaskStatus,
};
use crate::model::identity::{clone_sids, AccessContext, Identity};
use crate::model::membership;
use crate::model::membership::GroupMembership;
use crate::model::sid;
use crate::model::sid::Sid;
use crate::text;

verus! {

/// Names and SIDs of a token, as texts.
pub open spec fn pair_texts(s: Seq<(Sid, String)>) -> Seq<(Seq<char>, Seq<char>)> {
    s.map_values(|x: (Sid, String)| (x.0@, x.1@))
}

/// The groups that have a name, in their order.
pub open spec fn named_groups(memberships: Seq<GroupMembership>) -> Seq<(Seq<char>, Seq<char>)>
    decreases memberships.len(),
{
    if memberships.len() == 0 {
        Seq::empty()
    } else {
        let init = named_groups(memberships.drop_last());
        match memberships.last().group_name {
            Some(n) => init.push((memberships.last().group_sid@, n@)),
            None => init,
        }
    }
}

/// The SIDs that are known to be in a token, with their names: the identity, then
/// its groups.
pub open spec fn known_pairs(identity: Identity, memberships: Seq<GroupMembership>) -> Seq<
    (Seq<char>, Seq<char>),
> {
    (match identity.name {
        Some(n) => seq![(identity.sid@, n@)],
        None => Seq::empty(),
    }) + named_groups(memberships)
}

/// Lists the SIDs that are known to be in a token, with their names.
pub fn known_members(identity: &Identity, memberships: &Vec<GroupMembership>) -> (r: Vec<
    (Sid, String),
>)
    ensures
        pair_texts(r@) == known_pairs(*identity, memberships@),
{
    let mut out: Vec<(Sid, String)> = Vec::new();
    let ghost first = known_pairs(*identity, Seq::empty());
    if let Some(n) = &identity.name {
        out.push((identity.sid.clone(), n.clone()));
    }
    assert(pair_texts(out@) =~= first + named_groups(memberships@.take(0)));
    for i in 0..memberships.len()
        invariant
            pair_texts(out@) == first + named_groups(memberships@.take(i as int)),
    {
        assert(memberships@.take(i + 1).drop_last() =~= memberships@.take(i as int));
        if let Some(n) = &memberships[i].group_name {
            let ghost before = pair_texts(out@);
            out.push((memberships[i].group_sid.clone(), n.clone()));
            assert(pair_texts(out@) =~= before.push((memberships@[i as int].group_sid@, n@)));
            assert(pair_texts(out@) =~= first + named_groups(memberships@.take(i + 1)));
        }
    }
    assert(memberships@.take(memberships@.len() as int) =~= memberships@);
    assert(first + named_groups(memberships@) =~= known_pairs(*identity, memberships@));
    out
}

/// The local groups of an identity on the target server.
#[derive(Debug)]
pub struct LocalGroups {
    pub sids: Vec<Sid>,
    pub memberships: Vec<GroupMembership>,
    pub status: LocalGroupEvalStatus,
}

/// The SIDs of the groups of memberships.
pub open spec fn group_sids(memberships: Seq<GroupMembership>) -> Seq<Seq<char>> {
    memberships.map_values(|m: GroupMembership| m.group_sid@)
}

/// Takes the local groups over. A failure does not end the analysis; it leaves no
/// groups, and says why.
pub fn local_group_outcome(reply: Result<Vec<GroupMembership>, CoreError>) -> (r: LocalGroups)
    ensures
        (match reply {
            Ok(m) => {
                &&& r.memberships == m
                &&& sid::sid_texts(r.sids@) == group_sids(m@)
                &&& r.status is Applied
            },
            Err(e) => {
                &&& r.memberships@.len() == 0
                &&& r.sids@.len() == 0
                &&& r.status matches LocalGroupEvalStatus::NotAvailable(m) && m@ == e.text()
            },
        }),
{
    match reply {
        Ok(memberships) => {
            let mut sids: Vec<Sid> = Vec::new();
            for i in 0..memberships.len()
                invariant
                    sids@.len() == i,
                    forall|j: int| 0 <= j < i ==> (#[trigger] sids@[j])@
                        == memberships@[j].group_sid@,
            {
                sids.push(memberships[i].group_sid.clone());
            }
            assert(sid::sid_texts(sids@) =~= group_sids(memberships@));
            LocalGroups { sids, memberships, status: LocalGroupEvalStatus::Applied }
        },
        Err(e) => LocalGroups {
            sids: Vec::new(),
            memberships: Vec::new(),
            status: LocalGroupEvalStatus::NotAvailable(e.message()),
        },
    }
}

/// What was read of a share: the mask for the token, `None` where there is no
/// restriction, and the number of entries that could not be interpreted.
#[derive(Debug)]
pub struct ShareScan {
    pub mask: Option<AccessMask>,
    pub unsupported_count: usize,
}

/// Takes the share side over. `reply` is `None` without an SMB context. A share
/// without a DACL is unrestricted, which is not the same as a mask with all bits.
pub fn share_outcome(reply: Option<Result<ShareScan, String>>) -> (r: (ShareMaskStatus, usize))
    ensures
        r.0 == (match reply {
            None => ShareMaskStatus::NotApplicable,
            Some(Err(e)) => ShareMaskStatus::ReadFailed(e),
            Some(Ok(s)) => match s.mask {
                Some(m) => ShareMaskStatus::Applied(m),
                None => ShareMaskStatus::Unrestricted,
            },
        }),
        r.1 == (match reply {
            Some(Ok(s)) => s.unsupported_count,
            _ => 0,
        }),
{
    match reply {
        None => (ShareMaskStatus::NotApplicable, 0),
        Some(Err(e)) => (ShareMaskStatus::ReadFailed(e), 0),
        Some(Ok(s)) => match s.mask {
            Some(m) => (ShareMaskStatus::Applied(m), s.unsupported_count),
            None => (ShareMaskStatus::Unrestricted, s.unsupported_count),
        },
    }
}

/// The mask of a share, where one was applied.
pub fn applied_mask(status: &ShareMaskStatus) -> (r: Option<AccessMask>)
    ensures
        r == (match *status {
            ShareMaskStatus::Applied(m) => Some(m),
            _ => None,
        }),
{
    match status {
        ShareMaskStatus::Applied(m) => Some(*m),
        _ => None,
    }
}

/// The command that warns.
#[derive(Debug, Clone, Copy, PartialEq, Eq, Structural)]
pub enum Command {
    Analyze,
    Scan,
}

/// What the user has to know about the completeness of the results.
pub open spec fn completeness_warnings(
    command: Command,
    local: LocalGroupEvalStatus,
    share: ShareMaskStatus,
    unsupported_share_aces: usize,
) -> Seq<Seq<char>> {
    (match local {
        LocalGroupEvalStatus::NotAvailable(m) => seq![
            (match command {
                Command::Analyze =>
                    "[Warning] Local server groups could not be resolved — result is incomplete (token may miss local-group SIDs). ("@,
                Command::Scan =>
                    "[Warning] Local server groups could not be resolved — scan results are incomplete (token may miss local-group SIDs). ("@,
            }) + m@ + ")"@,
        ],
        _ => Seq::empty(),
    }) + (match share {
        ShareMaskStatus::ReadFailed(m) => seq![
            (match command {
                Command::Analyze =>
                    "[Warning] Share DACL could not be read — result is incomplete (effective_mask reflects NTFS only). ("@,
                Command::Scan =>
                    "[Warning] Share DACL could not be read — scan results are incomplete (effective masks reflect NTFS only). ("@,
            }) + m@ + ")"@,
        ],
        _ => Seq::empty(),
    }) + (if unsupported_share_aces > 0 {
        seq![
            "[Warning] "@ + text::decimal(unsupported_share_aces as nat) + (match command {
                Command::Analyze =>
                    " share ACE(s) of unsupported type were skipped — share mask may be incomplete."@,
                Command::Scan =>
                    " share ACE(s) of unsupported type were skipped — share mask may be incomplete (Diagnostic propagated to each result)."@,
            }),
        ]
    } else {
        Seq::empty()
    })
}

/// Says what the user has to know about the completeness of the results.
pub fn warnings(
    command: Command,
    local: &LocalGroupEvalStatus,
    share: &ShareMaskStatus,
    unsupported_share_aces: usize,
) -> (r: Vec<String>)
    ensures
        text::texts(r@) == completeness_warnings(command, *local, *share, unsupported_share_aces),
{
    let mut out: Vec<String> = Vec::new();
    if let LocalGroupEvalStatus::NotAvailable(m) = local {
        let lead: &str = match command {
            Command::Analyze =>
                "[Warning] Local server groups could not be resolved — result is incomplete (token may miss local-group SIDs). (",
            Command::Scan =>
                "[Warning] Local server groups could not be resolved — scan results are incomplete (token may miss local-group SIDs). (",
        };
        text::push_line(&mut out, lead.to_owned().concat(m.as_str()).concat(")"));
    }
    if let ShareMaskStatus::ReadFailed(m) = share {
        let lead: &str = match command {
            Command::Analyze =>
                "[Warning] Share DACL could not be read — result is incomplete (effective_mask reflects NTFS only). (",
            Command::Scan =>
                "[Warning] Share DACL could not be read — scan results are incomplete (effective masks reflect NTFS only). (",
        };
        text::push_line(&mut out, lead.to_owned().concat(m.as_str()).concat(")"));
    }
    if unsupported_share_aces > 0 {
        let tail: &str = match command {
            Command::Analyze =>
                " share ACE(s) of unsupported type were skipped — share mask may be incomplete.",
            Command::Scan =>
                " share ACE(s) of unsupported type were skipped — share mask may be incomplete (Diagnostic propagated to each result).",
        };
        text::push_line(
            &mut out,
            "[Warning] ".to_owned().concat(
                text::decimal_text(unsupported_share_aces as u64).as_str(),
            ).concat(tail),
        );
    }
    assert(text::texts(out@) =~= completeness_warnings(
        command,
        *local,
        *share,
        unsupported_share_aces,
    ));
    out
}

/// What is the same for every object of a run.
pub struct EvaluationContext {
    pub resolution: PrincipalResolution,
    pub local_groups: LocalGroups,
    pub share_status: ShareMaskStatus,
    pub unsupported_share_ace_count: usize,
    pub access_context: AccessContext,
}

/// Copies memberships behind others.
fn push_memberships(out: &mut Vec<GroupMembership>, more: &Vec<GroupMembership>)
    ensures
        membership::membership_views(final(out)@) == membership::membership_views(old(out)@)
            + membership::membership_views(more@),
{
    let ghost before = membership::membership_views(out@);
    let ghost all = membership::membership_views(more@);
    assert(before + all.take(0) =~= before);
    for i in 0..more.len()
        invariant
            all == membership::membership_views(more@),
            membership::membership_views(out@) == before + all.take(i as int),
    {
        let ghost so_far = membership::membership_views(out@);
        let m: GroupMembership = more[i].clone();
        out.push(m);
        assert(membership::membership_views(out@) =~= so_far.push(m@));
        assert(membership::membership_views(out@) =~= before + all.take(i + 1));
    }
    assert(all.take(all.len() as int) =~= all);
}

/// Whether `input` evaluates `fso` in the context `c`: domain groups come before local
/// ones, and the flags are those of the resolution.
pub open spec fn is_input(
    input: PermissionEvaluationInput,
    c: EvaluationContext,
    fso: FileSystemObject,
    names: Map<Seq<char>, String>,
) -> bool {
    let p = c.resolution@;
    &&& input.identity@ == p.identity
    &&& membership::membership_views(input.group_memberships@) == p.memberships
        + membership::membership_views(c.local_groups.memberships@)
    &&& input.file_system_object == fso
    &&& input.share_status == c.share_status
    &&& sid::sid_texts(input.local_group_sids@) == sid::sid_texts(c.local_groups.sids@)
    &&& input.local_group_status == c.local_groups.status
    &&& input.access_context == c.access_context
    &&& input.unsupported_share_ace_count == c.unsupported_share_ace_count
    &&& input.sid_names@ == names
    &&& input.group_resolution_via_sam_fallback == (p.groups is SamFlat)
    &&& input.identity_not_in_configured_ldap_base == (p.scope is Outside)
    &&& input.identity_disabled_status_unknown == (p.disabled_status is Unknown)
    &&& text::text_of(input.identity_lookup_failure_reason) == (match p.scope {
        principal::ScopeView::Failed(reason) => Some(reason),
        _ => None,
    })
    &&& text::text_of(input.group_resolution_failure_reason) == principal::group_failure(
        p.scope,
        p.groups,
    )
    &&& input.identity_resolved_via_fsp == p.via_fsp
    &&& input.group_resolution_via_global_catalog == p.via_global_catalog
}

/// Puts together what the evaluation of an object needs.
pub fn evaluation_input(
    context: &EvaluationContext,
    fso: FileSystemObject,
    sid_names: StringHashMap<String>,
) -> (r: PermissionEvaluationInput)
    ensures
        is_input(r, *context, fso, sid_names@),
{
    let flags: EngineFlags = context.resolution.engine_flags();
    let mut group_memberships: Vec<GroupMembership> = Vec::new();
    assert(membership::membership_views(group_memberships@) =~= Seq::empty());
    push_memberships(&mut group_memberships, &context.resolution.memberships);
    push_memberships(&mut group_memberships, &context.local_groups.memberships);
    assert(Seq::<membership::GroupMembershipView>::empty() + context.resolution@.memberships
        =~= context.resolution@.memberships);
    PermissionEvaluationInput {
        identity: context.resolution.identity.clone(),
        group_memberships,
        file_system_object: fso,
        share_status: context.share_status.clone(),
        local_group_sids: clone_sids(&context.local_groups.sids),
        local_group_status: context.local_groups.status.clone(),
        access_context: context.access_context,
        unsupported_share_ace_count: context.unsupported_share_ace_count,
        sid_names,
        group_resolution_via_sam_fallback: flags.group_resolution_via_sam_fallback,
        identity_not_in_configured_ldap_base: flags.identity_not_in_configured_ldap_base,
        identity_disabled_status_unknown: flags.identity_disabled_status_unknown,
        identity_lookup_failure_reason: flags.identity_lookup_failure_reason,
        group_resolution_failure_reason: flags.group_resolution_failure_reason,
        identity_resolved_via_fsp: flags.identity_resolved_via_fsp,
        group_resolution_via_global_catalog: flags.group_resolution_via_global_catalog,
    }
}

/// What is evaluated is what was found out: the identity, all groups with those of the
/// domain first, the object, the share side, the local groups, and every caveat of the
/// resolution.
pub proof fn law_evaluation_takes_everything_over(
    input: PermissionEvaluationInput,
    c: EvaluationContext,
    fso: FileSystemObject,
    names: Map<Seq<char>, String>,
)
    requires
        is_input(input, c, fso, names),
    ensures
        input.identity.sid@ == c.resolution.identity.sid@,
        input.identity.kind == c.resolution.identity.kind,
        input.identity.disabled == c.resolution.identity.disabled,
        input.identity.sid_history_count == c.resolution.identity.sid_history_count,
        sid::sid_texts(input.identity.sid_history@) == sid::sid_texts(
            c.resolution.identity.sid_history@,
        ),
        input.group_memberships@.len() == c.resolution.memberships@.len()
            + c.local_groups.memberships@.len(),
        forall|i: int|
            0 <= i < c.resolution.memberships@.len() ==> (#[trigger] input.group_memberships@[i])@
                == c.resolution.memberships@[i]@,
        forall|i: int|
            0 <= i < c.local_groups.memberships@.len() ==> input.group_memberships@[i
                + c.resolution.memberships@.len()]@ == (#[trigger] c.local_groups.memberships@[i])@,
        input.local_group_sids@.len() == c.local_groups.sids@.len(),
        forall|i: int|
            0 <= i < c.local_groups.sids@.len() ==> (#[trigger] input.local_group_sids@[i])@
                == c.local_groups.sids@[i]@,
        input.file_system_object == fso,
        input.share_status == c.share_status,
        input.local_group_status == c.local_groups.status,
        input.access_context == c.access_context,
        input.unsupported_share_ace_count == c.unsupported_share_ace_count,
        input.sid_names@ == names,
        input.group_resolution_via_sam_fallback == (c.resolution.group_resolution_status
            is SamFlat),
        input.identity_not_in_configured_ldap_base == (c.resolution.scope_status
            is OutsideConfiguredLdapBase),
        input.identity_disabled_status_unknown == (c.resolution.disabled_status is Unknown),
        (input.identity_lookup_failure_reason is Some) == (c.resolution.scope_status
            is LookupFailed),
        c.resolution.group_resolution_status is Failed ==> input.group_resolution_failure_reason
            is Some,
        c.resolution.group_resolution_status is LdapRecursive ==> input.group_resolution_failure_reason
            is None,
        input.identity_resolved_via_fsp == c.resolution.resolved_via_fsp,
        input.group_resolution_via_global_catalog == c.resolution.resolved_via_global_catalog,
{
    let domain = membership::membership_views(c.resolution.memberships@);
    let local = membership::membership_views(c.local_groups.memberships@);
    let all = membership::membership_views(input.group_memberships@);
    assert(all == domain + local);
    assert forall|i: int| 0 <= i < c.resolution.memberships@.len() implies (
    #[trigger] input.group_memberships@[i])@ == c.resolution.memberships@[i]@ by {
        assert(all[i] == domain[i]);
    }
    assert forall|i: int| 0 <= i < c.local_groups.memberships@.len() implies input.group_memberships@[i
        + c.resolution.memberships@.len()]@ == (#[trigger] c.local_groups.memberships@[i])@ by {
        assert(all[i + domain.len()] == local[i]);
    }
    let a = sid::sid_texts(input.local_group_sids@);
    let b = sid::sid_texts(c.local_groups.sids@);
    assert(a.len() == b.len());
    assert forall|i: int| 0 <= i < c.local_groups.sids@.len() implies (
    #[trigger] input.local_group_sids@[i])@ == c.local_groups.sids@[i]@ by {
        assert(a[i] == b[i]);
    }
}

/// Whoever has a name is known by it: the identity, and every group, each with its SID. No
/// other pair is made up.
pub proof fn law_named_members_are_known(
    identity: Identity,
    memberships: Seq<GroupMembership>,
    s: Seq<char>,
    n: Seq<char>,
)
    ensures
        known_pairs(identity, memberships).contains((s, n)) == ((identity.name is Some
            && identity.name->0@ == n && identity.sid@ == s) || exists|i: int|
            0 <= i < memberships.len() && (#[trigger] memberships[i]).group_name is Some
                && memberships[i].group_name->0@ == n && memberships[i].group_sid@ == s),
        identity.name is Some ==> known_pairs(identity, memberships).len() > 0 && known_pairs(
            identity,
            memberships,
        )[0] == (identity.sid@, identity.name->0@),
{
    lemma_named_groups(memberships, s, n);
    let first = match identity.name {
        Some(name) => seq![(identity.sid@, name@)],
        None => Seq::empty(),
    };
    let groups = named_groups(memberships);
    let all = known_pairs(identity, memberships);
    if all.contains((s, n)) {
        let i = choose|i: int| 0 <= i < all.len() && all[i] == (s, n);
        if i >= first.len() {
            assert(groups[i - first.len()] == (s, n));
        }
    }
    if groups.contains((s, n)) {
        let i = choose|i: int| 0 <= i < groups.len() && groups[i] == (s, n);
        assert(all[i + first.len()] == (s, n));
    }
    if identity.name is Some {
        assert(all[0] == (identity.sid@, identity.name->0@));
    }
}

proof fn lemma_named_groups(memberships: Seq<GroupMembership>, s: Seq<char>, n: Seq<char>)
    ensures
        named_groups(memberships).contains((s, n)) == exists|i: int|
            0 <= i < memberships.len() && (#[trigger] memberships[i]).group_name is Some
                && memberships[i].group_name->0@ == n && memberships[i].group_sid@ == s,
    decreases memberships.len(),
{
    if memberships.len() > 0 {
        let init = memberships.drop_last();
        lemma_named_groups(init, s, n);
        let before = named_groups(init);
        let after = named_groups(memberships);
        assert forall|i: int| 0 <= i < init.len() implies init[i] == #[trigger] memberships[i] by {}
        if before.contains((s, n)) {
            let k = choose|k: int| 0 <= k < before.len() && before[k] == (s, n);
            assert(after[k] == (s, n));
            let i = choose|i: int|
                0 <= i < init.len() && (#[trigger] init[i]).group_name is Some
                    && init[i].group_name->0@ == n && init[i].group_sid@ == s;
            assert(memberships[i] == init[i]);
        }
        let last = memberships.last();
        assert(memberships[memberships.len() - 1] == last);
        if last.group_name is Some && last.group_name->0@ == n && last.group_sid@ == s {
            assert(after[after.len() - 1] == (s, n));
        }
        if after.contains((s, n)) && !before.contains((s, n)) {
            let k = choose|k: int| 0 <= k < after.len() && after[k] == (s, n);
            if k < before.len() {
                assert(before[k] == (s, n));
            }
        }
        if exists|i: int|
            0 <= i < memberships.len() && (#[trigger] memberships[i]).group_name is Some
                && memberships[i].group_name->0@ == n && memberships[i].group_sid@ == s {
            let i = choose|i: int|
                0 <= i < memberships.len() && (#[trigger] memberships[i]).group_name is Some
                    && memberships[i].group_name->0@ == n && memberships[i].group_sid@ == s;
            if i < init.len() {
                assert(init[i] == memberships[i]);
            }
        }
    }
}

/// The user is warned of every gap, and of nothing else: of local groups that could not be
/// resolved and of a share that could not be read, with the reason, and of entries of the
/// share that were skipped, with their number.
pub proof fn law_every_gap_is_warned_of(
    command: Command,
    local: LocalGroupEvalStatus,
    share: ShareMaskStatus,
    unsupported_share_aces: usize,
)
    ensures
        ({
            let w = completeness_warnings(command, local, share, unsupported_share_aces);
            let a: int = if local is NotAvailable {
                1
            } else {
                0
            };
            let b: int = if share is ReadFailed {
                1
            } else {
                0
            };
            let c: int = if unsupported_share_aces > 0 {
                1
            } else {
                0
            };
            &&& w.len() == a + b + c
            &&& local matches LocalGroupEvalStatus::NotAvailable(m) ==> text::occurs_in(m@, w[0])
            &&& share matches ShareMaskStatus::ReadFailed(m) ==> text::occurs_in(m@, w[a])
            &&& unsupported_share_aces > 0 ==> text::occurs_in(
                text::decimal(unsupported_share_aces as nat),
                w[a + b],
            )
        }),
{
    if let LocalGroupEvalStatus::NotAvailable(m) = local {
        let lead = match command {
            Command::Analyze =>
                "[Warning] Local server groups could not be resolved — result is incomplete (token may miss local-group SIDs). ("@,
            Command::Scan =>
                "[Warning] Local server groups could not be resolved — scan results are incomplete (token may miss local-group SIDs). ("@,
        };
        text::lemma_part_occurs(lead, m@, ")"@);
    }
    if let ShareMaskStatus::ReadFailed(m) = share {
        let lead = match command {
            Command::Analyze =>
                "[Warning] Share DACL could not be read — result is incomplete (effective_mask reflects NTFS only). ("@,
            Command::Scan =>
                "[Warning] Share DACL could not be read — scan results are incomplete (effective masks reflect NTFS only). ("@,
        };
        text::lemma_part_occurs(lead, m@, ")"@);
    }
    let tail = match command {
        Command::Analyze =>
            " share ACE(s) of unsupported type were skipped — share mask may be incomplete."@,
        Command::Scan =>
            " share ACE(s) of unsupported type were skipped — share mask may be incomplete (Diagnostic propagated to each result)."@,
    };
    text::lemma_part_occurs("[Warning] "@, text::decimal(unsupported_share_aces as nat), tail);
}

/// The share side of an evaluation says what became of the share: not applicable without an
/// SMB context, failed with the reason, restricted by the mask that was read, and
/// unrestricted where the share has no DACL. Skipped entries are counted wherever the share
/// was read.
pub proof fn law_share_side_is_taken_over(
    reply: Option<Result<ShareScan, String>>,
    r: (ShareMaskStatus, usize),
)
    requires
        call_ensures(share_outcome, (reply,), r),
    ensures
        r.0 is NotApplicable == reply is None,
        r.0 is ReadFailed == (reply matches Some(Err(_))),
        reply matches Some(Err(e)) ==> r.0 == ShareMaskStatus::ReadFailed(e),
        reply matches Some(Ok(s)) ==> r.1 == s.unsupported_count && (r.0 is Applied == s.mask
            is Some) && (r.0 is Unrestricted == s.mask is None),
        r.0 matches ShareMaskStatus::Applied(m) ==> reply->0->Ok_0.mask == Some(m),
        !(reply matches Some(Ok(_))) ==> r.1 == 0,
{
}

/// A mask counts exactly where one was applied.
pub proof fn law_only_an_applied_mask_counts(status: &ShareMaskStatus, r: Option<AccessMask>)
    requires
        call_ensures(applied_mask, (status,), r),
    ensures
        r is Some == status is Applied,
        status matches ShareMaskStatus::Applied(m) ==> r == Some(*m),
{
}

/// Local groups that were found are all taken over, with their SIDs in the same order; a
/// failure leaves none, and its reason.
pub proof fn law_local_groups_are_taken_over(
    reply: Result<Vec<GroupMembership>, CoreError>,
    r: LocalGroups,
    i: int,
)
    requires
        call_ensures(local_group_outcome, (reply,), r),
    ensures
        reply matches Ok(m) ==> {
            &&& r.status is Applied
            &&& r.memberships == m
            &&& r.sids@.len() == m@.len()
            &&& 0 <= i < m@.len() ==> r.sids@[i]@ == m@[i].group_sid@
        },
        reply matches Err(e) ==> {
            &&& r.memberships@.len() == 0 && r.sids@.len() == 0
            &&& r.status matches LocalGroupEvalStatus::NotAvailable(m) && m@ == e.text()
        },
{
    if let Ok(m) = reply {
        assert(sid::sid_texts(r.sids@).len() == group_sids(m@).len());
        if 0 <= i < m@.len() {
            assert(sid::sid_texts(r.sids@)[i] == group_sids(m@)[i]);
        }
    }
}

} // verus!
