//! From directory entries to identities and members.

use vstd::prelude::*;

use crate::ad::config::LdapConfig;
use crate::ad::ldap_client;
use crate::ad::ldap_client::RawEntry;
use crate::ad::sid_util;
use crate::ad::sid_util::bytes_to_sid_str;
use crate::error::CoreError;
use crate::model::diagnostic::PermissionDiagnostic;
use crate::model::identity;
use crate::model::identity::{Identity, IdentityKind};
use crate::model::membership;
use crate::model::membership::{
    count_via_primary, GroupMembersReport, MemberNode, MemberVia,
};
use crate::model::sid;
use crate::model::sid::Sid;
use crate::order;
use crate::order::{stable_sort, Sortable};
use crate::text;

verus! {

/// Bit of `userAccountControl` that marks a disabled account.
pub const UAC_ACCOUNT_DISABLE: u32 = 0x2;

/// The kind of an object with these object classes.
pub open spec fn kind_of_classes(classes: Seq<Seq<char>>) -> IdentityKind {
    if classes.contains("computer"@) {
        IdentityKind::Computer
    } else if classes.contains("group"@) {
        IdentityKind::Group
    } else if classes.contains("user"@) {
        IdentityKind::User
    } else if classes.contains("foreignSecurityPrincipal"@) {
        IdentityKind::ForeignSecurityPrincipal
    } else {
        IdentityKind::Unknown
    }
}

/// The views of a sequence of string slices.
pub open spec fn class_texts(classes: Seq<&str>) -> Seq<Seq<char>> {
    classes.map_values(|s: &str| s@)
}

/// Decides whether a class is among `classes`.
fn has_class(classes: &[&str], class: &str) -> (r: bool)
    ensures
        r == class_texts(classes@).contains(class@),
{
    for i in 0..classes.len()
        invariant
            forall|j: int| 0 <= j < i ==> class_texts(classes@)[j] != class@,
    {
        if text::same_text(classes[i], class) {
            assert(class_texts(classes@)[i as int] == class@);
            return true;
        }
    }
    false
}

/// Determines the kind of an object; a computer is also a user, and counts as
/// a computer.
pub fn classify_identity(object_classes: &[&str]) -> (r: IdentityKind)
    ensures
        r == kind_of_classes(class_texts(object_classes@)),
{
    if has_class(object_classes, "computer") {
        IdentityKind::Computer
    } else if has_class(object_classes, "group") {
        IdentityKind::Group
    } else if has_class(object_classes, "user") {
        IdentityKind::User
    } else if has_class(object_classes, "foreignSecurityPrincipal") {
        IdentityKind::ForeignSecurityPrincipal
    } else {
        IdentityKind::Unknown
    }
}

/// The domain components among the pieces of a distinguished name.
pub open spec fn domain_components(pieces: Seq<Seq<char>>) -> Seq<Seq<char>>
    decreases pieces.len(),
{
    if pieces.len() == 0 {
        Seq::empty()
    } else {
        let init = domain_components(pieces.drop_last());
        let piece = text::trimmed(pieces.last());
        if "DC="@.is_prefix_of(piece) {
            init.push(piece.skip(3))
        } else {
            init
        }
    }
}

/// The domain that a distinguished name lies in.
pub open spec fn domain_of_dn(dn: Seq<char>) -> Option<Seq<char>> {
    let components = domain_components(text::split_at_char(dn, ','));
    if components.len() == 0 {
        None
    } else {
        Some(text::joined(components, "."@))
    }
}

/// Extracts the domain name from a distinguished name:
/// `CN=u,DC=corp,DC=local` lies in `corp.local`.
pub fn dn_to_domain(dn: &str) -> (r: Option<String>)
    ensures
        text::text_of(r) == domain_of_dn(dn@),
{
    let pieces: Vec<String> = text::split(dn, ',');
    let ghost views = text::split_at_char(dn@, ',');
    let mut components: Vec<String> = Vec::new();
    assert(text::texts(components@) =~= domain_components(views.take(0)));
    for i in 0..pieces.len()
        invariant
            views == text::texts(pieces@),
            text::texts(components@) == domain_components(views.take(i as int)),
    {
        let piece: &str = text::trim(pieces[i].as_str());
        proof {
            reveal_strlit("DC=");
            assert(views.take(i + 1).drop_last() =~= views.take(i as int));
            assert(views.take(i + 1).last() == pieces@[i as int]@);
        }
        if text::starts_with(piece, "DC=") {
            let n: usize = piece.unicode_len();
            let component: &str = piece.substring_char(3, n);
            assert(component@ =~= piece@.skip(3));
            let ghost before = text::texts(components@);
            components.push(component.to_owned());
            assert(text::texts(components@) =~= before.push(component@));
        }
    }
    assert(views.take(views.len() as int) =~= views);
    if components.len() == 0 {
        None
    } else {
        Some(text::join(&components, "."))
    }
}

/// The SID of an entry.
pub open spec fn entry_sid(entry: RawEntry) -> Option<Seq<char>> {
    match ldap_client::first_bytes(entry, "objectSid"@) {
        Some(b) => match sid_util::decoded_sid(b) {
            Ok(p) => Some(sid_util::sid_text(p)),
            Err(_) => None,
        },
        None => None,
    }
}

/// The view of an optional SID.
pub open spec fn sid_of(o: Option<Sid>) -> Option<Seq<char>> {
    match o {
        Some(s) => Some(s@),
        None => None,
    }
}

/// Extracts the SID of an entry; `None` where it is missing or malformed.
pub fn extract_sid_from_entry(entry: &RawEntry) -> (r: Option<Sid>)
    ensures
        sid_of(r) == entry_sid(*entry),
{
    match entry.first_bin_attr("objectSid") {
        Some(bytes) => match bytes_to_sid_str(bytes) {
            Ok(s) => Some(Sid(s)),
            Err(_) => None,
        },
        None => None,
    }
}

/// The account name of an entry, or else its common name.
pub open spec fn entry_name(entry: RawEntry) -> Option<Seq<char>> {
    match ldap_client::first_text(entry, "sAMAccountName"@) {
        Some(n) => Some(n),
        None => ldap_client::first_text(entry, "cn"@),
    }
}

/// Names an entry by its account name, or else by its common name.
pub fn name_of_entry(entry: &RawEntry) -> (r: Option<String>)
    ensures
        text::text_of(r) == entry_name(*entry),
{
    match entry.first_attr("sAMAccountName") {
        Some(n) => Some(n.to_owned()),
        None => match entry.first_attr("cn") {
            Some(n) => Some(n.to_owned()),
            None => None,
        },
    }
}

/// The SIDs among raw values; values that are no SID are left out.
pub open spec fn parsed_sids(values: Seq<Vec<u8>>) -> Seq<Seq<char>>
    decreases values.len(),
{
    if values.len() == 0 {
        Seq::empty()
    } else {
        let init = parsed_sids(values.drop_last());
        match sid_util::decoded_sid(values.last()@) {
            Ok(p) => init.push(sid_util::sid_text(p)),
            Err(_) => init,
        }
    }
}

/// The number of historical SIDs of an entry. The directory hands the values
/// out either as raw bytes or as text.
pub open spec fn history_count(entry: RawEntry) -> nat {
    let raw = ldap_client::attr_values(entry.bin_attrs@, "sIDHistory"@);
    if raw.len() > 0 {
        raw.len()
    } else {
        ldap_client::attr_values(entry.attrs@, "sIDHistory"@).len()
    }
}

/// The historical SIDs of an entry that could be parsed.
pub open spec fn history_sids(entry: RawEntry) -> Seq<Seq<char>> {
    parsed_sids(ldap_client::attr_values(entry.bin_attrs@, "sIDHistory"@))
}

/// Reads the historical SIDs of an entry: how many there are, and those that
/// could be parsed.
pub fn sid_history_of_entry(entry: &RawEntry) -> (r: (usize, Vec<Sid>))
    ensures
        r.0 == history_count(*entry),
        sid::sid_texts(r.1@) == history_sids(*entry),
{
    let raw: &[Vec<u8>] = entry.all_bin_attr("sIDHistory");
    let mut sids: Vec<Sid> = Vec::new();
    assert(sid::sid_texts(sids@) =~= parsed_sids(raw@.take(0)));
    for i in 0..raw.len()
        invariant
            sid::sid_texts(sids@) == parsed_sids(raw@.take(i as int)),
    {
        assert(raw@.take(i + 1).drop_last() =~= raw@.take(i as int));
        let ghost before = sid::sid_texts(sids@);
        if let Ok(s) = bytes_to_sid_str(raw[i].as_slice()) {
            sids.push(Sid(s));
            assert(sid::sid_texts(sids@) =~= before.push(s@));
        }
    }
    assert(raw@.take(raw@.len() as int) =~= raw@);
    let count: usize = if raw.len() > 0 {
        raw.len()
    } else {
        entry.all_attr("sIDHistory").len()
    };
    (count, sids)
}

/// Whether an entry is a disabled account.
pub open spec fn entry_disabled(entry: RawEntry) -> bool {
    match ldap_client::first_text(entry, "userAccountControl"@) {
        Some(v) => match text::unsigned_value(v, u32::MAX as nat) {
            Some(uac) => (uac as u32) & UAC_ACCOUNT_DISABLE != 0,
            None => false,
        },
        None => false,
    }
}

/// The identity that an entry describes.
pub open spec fn entry_identity(entry: RawEntry, sid: Seq<char>) -> identity::IdentityView {
    identity::IdentityView {
        sid,
        name: entry_name(entry),
        domain: domain_of_dn(entry.dn@),
        kind: kind_of_classes(
            text::texts(ldap_client::attr_values(entry.attrs@, "objectClass"@)),
        ),
        disabled: entry_disabled(entry),
        user_principal_name: match ldap_client::first_text(entry, "userPrincipalName"@) {
            Some(u) => if u.len() == 0 {
                None
            } else {
                Some(u)
            },
            None => None,
        },
        sid_history_count: history_count(entry) as usize,
        sid_history: history_sids(entry),
    }
}

/// Reads the identity that an entry describes.
pub fn parse_identity_from_entry(entry: &RawEntry, sid: &Sid) -> (r: Identity)
    ensures
        r@ == entry_identity(*entry, sid@),
{
    let name: Option<String> = name_of_entry(entry);
    let domain: Option<String> = dn_to_domain(entry.dn.as_str());
    let user_principal_name: Option<String> = match entry.first_attr("userPrincipalName") {
        Some(u) => if u.is_empty() {
            None
        } else {
            Some(u.to_owned())
        },
        None => None,
    };
    let values: &[String] = entry.all_attr("objectClass");
    let mut classes: Vec<&str> = Vec::new();
    for i in 0..values.len()
        invariant
            class_texts(classes@) == text::texts(values@.take(i as int)),
    {
        let ghost before = class_texts(classes@);
        let class: &str = values[i].as_str();
        classes.push(class);
        assert(class_texts(classes@) =~= before.push(class@));
        assert(text::texts(values@.take(i + 1)) =~= text::texts(values@.take(i as int)).push(
            values@[i as int]@,
        ));
    }
    assert(values@.take(values@.len() as int) =~= values@);
    let kind: IdentityKind = classify_identity(classes.as_slice());
    let disabled: bool = match entry.first_attr("userAccountControl") {
        Some(v) => match text::parse_unsigned(v, 0xffff_ffff) {
            Some(uac) => (uac as u32) & UAC_ACCOUNT_DISABLE != 0,
            None => false,
        },
        None => false,
    };
    let (sid_history_count, sid_history) = sid_history_of_entry(entry);
    Identity {
        sid: sid.clone(),
        name,
        domain,
        kind,
        disabled,
        user_principal_name,
        sid_history_count,
        sid_history,
    }
}

/// The relative identifier of a SID: its last component.
pub open spec fn rid_of(sid: Seq<char>) -> Option<nat> {
    text::unsigned_value(text::split_at_char(sid, '-').last(), u32::MAX as nat)
}

/// Extracts the relative identifier, the number the directory stores as
/// `primaryGroupID`.
pub fn rid_from_sid(sid: &Sid) -> (r: Option<u32>)
    ensures
        (match r {
            Some(v) => rid_of(sid@) == Some(v as nat),
            None => rid_of(sid@) is None,
        }),
{
    let parts: Vec<String> = text::split(sid.0.as_str(), '-');
    assert(text::texts(parts@).last() == parts@.last()@);
    match text::parse_unsigned(parts[parts.len() - 1].as_str(), 0xffff_ffff) {
        Some(v) => Some(v as u32),
        None => None,
    }
}

/// What a [`MemberNode`] says.
pub struct MemberView {
    pub identity: identity::IdentityView,
    pub via: MemberVia,
    pub children: Seq<MemberNode>,
}

impl View for MemberNode {
    type V = MemberView;

    open spec fn view(&self) -> MemberView {
        MemberView { identity: self.identity@, via: self.via, children: self.children@ }
    }
}

/// The views of a sequence of members.
pub open spec fn member_views(s: Seq<MemberNode>) -> Seq<MemberView> {
    s.map_values(|m: MemberNode| m@)
}

/// Whether entry `i` adds a member: it has a SID that is neither in `seen` nor
/// that of an earlier entry.
pub open spec fn adds_member(entries: Seq<RawEntry>, seen: Seq<Seq<char>>, i: int) -> bool {
    &&& entry_sid(entries[i]) is Some
    &&& !seen.contains(entry_sid(entries[i])->0)
    &&& forall|j: int| 0 <= j < i ==> entry_sid(#[trigger] entries[j]) != entry_sid(entries[i])
}

/// The members that `entries` add to those already seen.
pub open spec fn added_members(entries: Seq<RawEntry>, via: MemberVia, seen: Seq<Seq<char>>) -> Seq<
    MemberView,
>
    decreases entries.len(),
{
    if entries.len() == 0 {
        Seq::empty()
    } else {
        let init = added_members(entries.drop_last(), via, seen);
        if adds_member(entries, seen, entries.len() - 1) {
            init.push(
                MemberView {
                    identity: entry_identity(entries.last(), entry_sid(entries.last())->0),
                    via,
                    children: Seq::empty(),
                },
            )
        } else {
            init
        }
    }
}

/// The SIDs seen after `entries`.
pub open spec fn seen_after(entries: Seq<RawEntry>, seen: Seq<Seq<char>>) -> Seq<Seq<char>>
    decreases entries.len(),
{
    if entries.len() == 0 {
        seen
    } else {
        let init = seen_after(entries.drop_last(), seen);
        if adds_member(entries, seen, entries.len() - 1) {
            init.push(entry_sid(entries.last())->0)
        } else {
            init
        }
    }
}

/// A SID was seen after `entries` exactly where it was seen before or belongs
/// to one of them.
proof fn lemma_seen_after(entries: Seq<RawEntry>, seen: Seq<Seq<char>>, s: Seq<char>)
    ensures
        seen_after(entries, seen).contains(s) == (seen.contains(s) || exists|j: int|
            0 <= j < entries.len() && entry_sid(#[trigger] entries[j]) == Some(s)),
    decreases entries.len(),
{
    if entries.len() > 0 {
        let short = entries.drop_last();
        let n = entries.len() - 1;
        lemma_seen_after(short, seen, s);
        let init = seen_after(short, seen);
        let all = seen_after(entries, seen);
        assert(forall|j: int| 0 <= j < n ==> short[j] == entries[j]);
        if exists|j: int| 0 <= j < short.len() && entry_sid(#[trigger] short[j]) == Some(s) {
            let j = choose|j: int| 0 <= j < short.len() && entry_sid(#[trigger] short[j]) == Some(s);
            assert(entry_sid(entries[j]) == Some(s));
        }
        if exists|j: int| 0 <= j < entries.len() && entry_sid(#[trigger] entries[j]) == Some(s) {
            let j = choose|j: int|
                0 <= j < entries.len() && entry_sid(#[trigger] entries[j]) == Some(s);
            if j < n {
                assert(entry_sid(short[j]) == Some(s));
            }
        }
        if adds_member(entries, seen, n) {
            let x = entry_sid(entries[n])->0;
            assert(all == init.push(x));
            assert(all.last() == x);
            if init.contains(s) {
                let k = choose|k: int| 0 <= k < init.len() && init[k] == s;
                assert(all[k] == s);
            }
            if all.contains(s) && s != x {
                let k = choose|k: int| 0 <= k < all.len() && all[k] == s;
                assert(init[k] == s);
            }
            if s == x {
                assert(all[all.len() - 1] == s);
            }
        } else if entry_sid(entries[n]) == Some(s) {
            if !seen.contains(s) {
                let j = choose|j: int|
                    0 <= j < n && entry_sid(#[trigger] entries[j]) == entry_sid(entries[n]);
                assert(entry_sid(short[j]) == Some(s));
            }
        }
    }
}

/// Adds the members that `entries` describe. Entries without a SID are
/// skipped, and so are those whose SID was seen before: the first source wins.
pub fn push_member_entries(
    entries: &[RawEntry],
    via: MemberVia,
    out: &mut Vec<MemberNode>,
    seen: &mut Vec<String>,
)
    ensures
        member_views(final(out)@) == member_views(old(out)@) + added_members(
            entries@,
            via,
            text::texts(old(seen)@),
        ),
        text::texts(final(seen)@) == seen_after(entries@, text::texts(old(seen)@)),
{
    let ghost base = member_views(out@);
    let ghost seen0 = text::texts(seen@);
    assert(base + added_members(entries@.take(0), via, seen0) =~= base);
    for i in 0..entries.len()
        invariant
            member_views(out@) == base + added_members(entries@.take(i as int), via, seen0),
            text::texts(seen@) == seen_after(entries@.take(i as int), seen0),
    {
        let ghost now = entries@.take(i + 1);
        let ghost members0 = member_views(out@);
        let ghost seen1 = text::texts(seen@);
        proof {
            assert(now.drop_last() =~= entries@.take(i as int));
            assert(now.last() == entries@[i as int]);
        }
        if let Some(sid) = extract_sid_from_entry(&entries[i]) {
            let known: bool = text::is_listed(seen, sid.0.as_str());
            proof {
                lemma_seen_after(entries@.take(i as int), seen0, sid@);
                let before = entries@.take(i as int);
                assert(forall|j: int| 0 <= j < i ==> before[j] == now[j]);
                if known {
                    if adds_member(now, seen0, i as int) {
                        let j = choose|j: int|
                            0 <= j < before.len() && entry_sid(#[trigger] before[j]) == Some(sid@);
                        assert(entry_sid(now[j]) != entry_sid(now[i as int]));
                    }
                } else {
                    assert forall|j: int| 0 <= j < i implies entry_sid(#[trigger] now[j])
                        != entry_sid(now[i as int]) by {
                        assert(entry_sid(before[j]) != Some(sid@));
                    }
                }
                assert(known == !adds_member(now, seen0, i as int));
            }
            if !known {
                let identity: Identity = parse_identity_from_entry(&entries[i], &sid);
                let node: MemberNode = MemberNode { identity, via, children: Vec::new() };
                out.push(node);
                seen.push(sid.0);
                proof {
                    assert(node@.children =~= Seq::<MemberNode>::empty());
                    assert(member_views(out@) =~= members0.push(node@));
                    assert(text::texts(seen@) =~= seen1.push(sid@));
                    assert(member_views(out@) =~= base + added_members(now, via, seen0));
                }
            }
        }
    }
    assert(entries@.take(entries@.len() as int) =~= entries@);
}

/// The key that members are listed by.
impl Sortable for MemberNode {
    open spec fn key(self) -> order::Key {
        (
            text::unicode_lower(
                match self.identity.name {
                    Some(n) => n@,
                    None => Seq::empty(),
                },
            ),
            self.identity.sid@,
        )
    }

    fn sort_key(&self) -> (r: (String, String)) {
        let name: String = match &self.identity.name {
            Some(n) => text::lower(n.as_str()),
            None => {
                let empty: String = String::new();
                text::lower(empty.as_str())
            },
        };
        (name, self.identity.sid.0.clone())
    }
}

/// Result of enumerating a group: the direct members, and why the list may be
/// short where one of the two searches failed.
#[derive(Debug)]
pub struct GroupMemberEnumeration {
    pub members: Vec<MemberNode>,
    pub incomplete: Option<String>,
}

/// The markers of an enumeration.
pub open spec fn enumeration_markers(via_primary: nat, incomplete: Option<String>) -> Seq<
    PermissionDiagnostic,
> {
    (if via_primary > 0 {
        seq![
            PermissionDiagnostic::MembersViaPrimaryGroupIncluded { count: via_primary as usize },
        ]
    } else {
        Seq::empty()
    }) + (match incomplete {
        Some(reason) => seq![PermissionDiagnostic::GroupMemberEnumerationIncomplete { reason }],
        None => Seq::empty(),
    })
}

impl GroupMemberEnumeration {
    /// Makes the report of a group: members by name, regardless of case, then
    /// by SID; with markers for members found through their primary group and
    /// for a search that failed.
    pub fn into_report(self, group: Identity) -> (r: GroupMembersReport)
        ensures
            r.group == group,
            order::is_stable_sort(self.members@, r.members@),
            r.diagnostics@ == enumeration_markers(
                membership::via_primary(r.members@),
                self.incomplete,
            ),
    {
        let members: Vec<MemberNode> = stable_sort(self.members);
        let via_primary: usize = count_via_primary(&members);
        let mut diagnostics: Vec<PermissionDiagnostic> = Vec::new();
        if via_primary > 0 {
            diagnostics.push(
                PermissionDiagnostic::MembersViaPrimaryGroupIncluded { count: via_primary },
            );
        }
        if let Some(reason) = self.incomplete {
            diagnostics.push(PermissionDiagnostic::GroupMemberEnumerationIncomplete { reason });
        }
        assert(diagnostics@ =~= enumeration_markers(via_primary as nat, self.incomplete));
        GroupMembersReport { group, members, diagnostics }
    }
}

/// The result of enumerating a group from the outcomes of its two searches.
pub open spec fn combined_members(
    backlink: Result<Seq<RawEntry>, Seq<char>>,
    primary: Result<Seq<RawEntry>, Seq<char>>,
) -> (Seq<MemberView>, Option<Seq<char>>) {
    let (direct, seen) = match backlink {
        Ok(entries) => (
            added_members(entries, MemberVia::Direct, Seq::empty()),
            seen_after(entries, Seq::empty()),
        ),
        Err(_) => (Seq::empty(), Seq::empty()),
    };
    let members = match primary {
        Ok(entries) => direct + added_members(entries, MemberVia::PrimaryGroup, seen),
        Err(_) => direct,
    };
    let first = match backlink {
        Ok(_) => None,
        Err(e) => Some("member back-link search failed: "@ + e),
    };
    let incomplete = match primary {
        Ok(_) => first,
        Err(e) => Some(
            match first {
                Some(prev) => prev + "; "@ + ("primaryGroupID search failed: "@ + e),
                None => "primaryGroupID search failed: "@ + e,
            },
        ),
    };
    (members, incomplete)
}

/// The entries of a search, or the text of its error.
pub open spec fn search_outcome(r: Result<Vec<RawEntry>, CoreError>) -> Result<
    Seq<RawEntry>,
    Seq<char>,
> {
    match r {
        Ok(v) => Ok(v@),
        Err(e) => Err(e.text()),
    }
}

/// Combines the two searches for the members of a group. Where exactly one of
/// them failed, what the other found still counts, be it nothing, and the result
/// says so; where both failed, so does the enumeration.
pub fn combine_member_searches(
    backlink: Result<Vec<RawEntry>, CoreError>,
    primary: Result<Vec<RawEntry>, CoreError>,
) -> (r: Result<GroupMemberEnumeration, CoreError>)
    ensures
        ({
            let (members, incomplete) = combined_members(
                search_outcome(backlink),
                search_outcome(primary),
            );
            if backlink is Err && primary is Err {
                r matches Err(CoreError::LdapQuery(m)) && m@ == "member enumeration failed: "@
                    + incomplete->0
            } else {
                r matches Ok(e) && member_views(e.members@) == members && text::text_of(
                    e.incomplete,
                ) == incomplete
            }
        }),
{
    let mut members: Vec<MemberNode> = Vec::new();
    let mut seen: Vec<String> = Vec::new();
    let mut incomplete: Option<String> = None;
    proof {
        assert(text::texts(seen@) =~= Seq::<Seq<char>>::empty());
        assert(member_views(members@) =~= Seq::<MemberView>::empty());
    }
    match &backlink {
        Ok(entries) => {
            push_member_entries(entries.as_slice(), MemberVia::Direct, &mut members, &mut seen);
            proof {
                let added = added_members(entries@, MemberVia::Direct, Seq::empty());
                assert(Seq::<MemberView>::empty() + added =~= added);
            }
        },
        Err(e) => {
            incomplete = Some(
                "member back-link search failed: ".to_owned().concat(e.message().as_str()),
            );
        },
    }
    match &primary {
        Ok(entries) => {
            push_member_entries(
                entries.as_slice(),
                MemberVia::PrimaryGroup,
                &mut members,
                &mut seen,
            );
        },
        Err(e) => {
            let m: String = "primaryGroupID search failed: ".to_owned().concat(e.message().as_str());
            incomplete = Some(
                match incomplete {
                    Some(prev) => prev.concat("; ").concat(m.as_str()),
                    None => m,
                },
            );
        },
    }
    if backlink.is_err() && primary.is_err() {
        if let Some(reason) = &incomplete {
            return Err(
                CoreError::LdapQuery(
                    "member enumeration failed: ".to_owned().concat(reason.as_str()),
                ),
            );
        }
    }
    Ok(GroupMemberEnumeration { members, incomplete })
}

/// No member is listed twice: what later entries add has SIDs that were not
/// seen before.
pub proof fn law_added_members_are_new(
    entries: Seq<RawEntry>,
    via: MemberVia,
    seen: Seq<Seq<char>>,
    i: int,
)
    requires
        0 <= i < added_members(entries, via, seen).len(),
    ensures
        !seen.contains(added_members(entries, via, seen)[i].identity.sid),
        forall|j: int|
            0 <= j < i ==> (#[trigger] added_members(entries, via, seen)[j]).identity.sid
                != added_members(entries, via, seen)[i].identity.sid,
        added_members(entries, via, seen)[i].via == via,
    decreases entries.len(),
{
    let short = entries.drop_last();
    let init = added_members(short, via, seen);
    let n = entries.len() - 1;
    if i < init.len() {
        law_added_members_are_new(short, via, seen, i);
        assert forall|j: int| 0 <= j < i implies (#[trigger] added_members(
            entries,
            via,
            seen,
        )[j]).identity.sid != added_members(entries, via, seen)[i].identity.sid by {
            assert(init[j].identity.sid != init[i].identity.sid);
        }
    } else {
        let s = entry_sid(entries[n])->0;
        assert forall|j: int| 0 <= j < i implies (#[trigger] added_members(
            entries,
            via,
            seen,
        )[j]).identity.sid != s by {
            lemma_added_member_entry(short, via, seen, j);
            let k = choose|k: int|
                0 <= k < short.len() && entry_sid(#[trigger] short[k]) == Some(
                    init[j].identity.sid,
                );
            assert(short[k] == entries[k]);
        }
    }
}

/// The SID of an added member is that of an entry.
proof fn lemma_added_member_entry(
    entries: Seq<RawEntry>,
    via: MemberVia,
    seen: Seq<Seq<char>>,
    i: int,
)
    requires
        0 <= i < added_members(entries, via, seen).len(),
    ensures
        exists|k: int|
            0 <= k < entries.len() && entry_sid(#[trigger] entries[k]) == Some(
                added_members(entries, via, seen)[i].identity.sid,
            ),
    decreases entries.len(),
{
    let short = entries.drop_last();
    let init = added_members(short, via, seen);
    if i < init.len() {
        lemma_added_member_entry(short, via, seen, i);
        let k = choose|k: int|
            0 <= k < short.len() && entry_sid(#[trigger] short[k]) == Some(init[i].identity.sid);
        assert(entries[k] == short[k]);
    } else {
        assert(entry_sid(entries[entries.len() - 1]) == Some(
            added_members(entries, via, seen)[i].identity.sid,
        ));
    }
}

/// The relative identifier of a group, or the error that it has none.
pub fn group_rid(group_sid: &Sid) -> (r: Result<u32, CoreError>)
    ensures
        r matches Ok(v) ==> rid_of(group_sid@) == Some(v as nat),
        r matches Err(e) ==> rid_of(group_sid@) is None && (e matches CoreError::SidResolution(m)
            && m@ == "Cannot derive RID from group SID: "@ + group_sid@),
{
    match rid_from_sid(group_sid) {
        Some(rid) => Ok(rid),
        None => Err(
            CoreError::SidResolution(
                "Cannot derive RID from group SID: ".to_owned().concat(group_sid.0.as_str()),
            ),
        ),
    }
}

/// The error for a group that the configured base does not hold.
pub fn group_not_found(group_sid: &Sid) -> (r: CoreError)
    ensures
        r matches CoreError::SidResolution(m) && m@ == "Group not found in the configured base: "@
            + group_sid@,
{
    CoreError::SidResolution(
        "Group not found in the configured base: ".to_owned().concat(group_sid.0.as_str()),
    )
}

/// The identity found for a user principal name: none without an entry, an
/// error for an entry without a SID.
pub fn identity_of_upn_entry(entry: Option<RawEntry>, upn: &str) -> (r: Result<
    Option<(Sid, Identity)>,
    CoreError,
>)
    ensures
        (match entry {
            None => r == Ok::<Option<(Sid, Identity)>, CoreError>(None),
            Some(e) => match entry_sid(e) {
                Some(s) => r matches Ok(Some((sid, identity))) && sid@ == s && identity@
                    == entry_identity(e, s),
                None => r matches Err(CoreError::SidResolution(m)) && m@
                    == "No objectSid for UPN: "@ + upn@,
            },
        }),
{
    match entry {
        None => Ok(None),
        Some(e) => match extract_sid_from_entry(&e) {
            Some(sid) => {
                let identity: Identity = parse_identity_from_entry(&e, &sid);
                Ok(Some((sid, identity)))
            },
            None => Err(
                CoreError::SidResolution("No objectSid for UPN: ".to_owned().concat(upn)),
            ),
        },
    }
}

/// The identities that entries describe; entries without a SID are left out.
pub open spec fn entry_identities(entries: Seq<RawEntry>) -> Seq<identity::IdentityView>
    decreases entries.len(),
{
    if entries.len() == 0 {
        Seq::empty()
    } else {
        let init = entry_identities(entries.drop_last());
        match entry_sid(entries.last()) {
            Some(s) => init.push(entry_identity(entries.last(), s)),
            None => init,
        }
    }
}

/// The views of a sequence of identities with their SIDs.
pub open spec fn found_views(v: Seq<(Sid, Identity)>) -> Seq<identity::IdentityView> {
    v.map_values(|p: (Sid, Identity)| p.1@)
}

/// Reads all identities from the entries of a search.
pub fn identities_of_entries(entries: &Vec<RawEntry>) -> (r: Vec<(Sid, Identity)>)
    ensures
        found_views(r@) == entry_identities(entries@),
        forall|i: int| 0 <= i < r@.len() ==> (#[trigger] r@[i]).0@ == r@[i].1@.sid,
{
    let mut out: Vec<(Sid, Identity)> = Vec::new();
    assert(found_views(out@) =~= entry_identities(entries@.take(0)));
    for i in 0..entries.len()
        invariant
            found_views(out@) == entry_identities(entries@.take(i as int)),
            forall|j: int| 0 <= j < out@.len() ==> (#[trigger] out@[j]).0@ == out@[j].1@.sid,
    {
        assert(entries@.take(i + 1).drop_last() =~= entries@.take(i as int));
        if let Some(sid) = extract_sid_from_entry(&entries[i]) {
            let identity: Identity = parse_identity_from_entry(&entries[i], &sid);
            let ghost before = found_views(out@);
            out.push((sid, identity));
            assert(found_views(out@) =~= before.push(identity@));
        }
    }
    assert(entries@.take(entries@.len() as int) =~= entries@);
    out
}

/// The identity with a SID: what its entry says, or an orphan where there is
/// no entry.
pub open spec fn looked_up(entry: Option<RawEntry>, sid: Seq<char>) -> identity::IdentityView {
    match entry {
        Some(e) => entry_identity(e, sid),
        None => identity::bare_identity(sid, IdentityKind::Orphaned),
    }
}

/// Reads the identity with a SID from its entry.
pub fn identity_or_orphan(entry: Option<RawEntry>, sid: &Sid) -> (r: Identity)
    ensures
        r@ == looked_up(entry, sid@),
{
    match entry {
        Some(e) => parse_identity_from_entry(&e, sid),
        None => bare(sid, IdentityKind::Orphaned),
    }
}

/// An identity of which only the SID and a kind are known.
pub fn bare(sid: &Sid, kind: IdentityKind) -> (r: Identity)
    ensures
        r@ == identity::bare_identity(sid@, kind),
{
    let r: Identity = Identity {
        sid: sid.clone(),
        name: None,
        domain: None,
        kind,
        disabled: false,
        user_principal_name: None,
        sid_history_count: 0,
        sid_history: Vec::new(),
    };
    assert(r@.sid_history =~= Seq::<Seq<char>>::empty());
    r
}

/// The primary group of an account: its own SID with the last component
/// replaced by `primaryGroupID`.
pub open spec fn primary_group_of(entry: RawEntry) -> Option<Seq<char>> {
    match (ldap_client::first_text(entry, "primaryGroupID"@), entry_sid(entry)) {
        (Some(v), Some(s)) => match text::unsigned_value(v, u32::MAX as nat) {
            Some(rid) => {
                let parts = text::split_at_char(s, '-');
                if parts.len() < 4 {
                    None
                } else {
                    Some(text::joined(parts.drop_last(), "-"@) + "-"@ + text::decimal(rid))
                }
            },
            None => None,
        },
        _ => None,
    }
}

/// Derives the SID of the primary group of an account.
pub fn primary_group_sid(entry: &RawEntry) -> (r: Option<Sid>)
    ensures
        sid_of(r) == primary_group_of(*entry),
{
    let rid: u64 = match entry.first_attr("primaryGroupID") {
        Some(v) => match text::parse_unsigned(v, 0xffff_ffff) {
            Some(rid) => rid,
            None => {
                return None;
            },
        },
        None => {
            return None;
        },
    };
    match extract_sid_from_entry(entry) {
        Some(sid) => {
            let mut parts: Vec<String> = text::split(sid.0.as_str(), '-');
            if parts.len() < 4 {
                return None;
            }
            let ghost all = text::texts(parts@);
            let last: Option<String> = parts.pop();
            assert(text::texts(parts@) =~= all.drop_last());
            let mut out: String = text::join(&parts, "-");
            out.append("-");
            text::push_decimal(&mut out, rid);
            Some(Sid(out))
        },
        None => None,
    }
}

/// Resolver state: the connection settings and the identities found so far.
pub struct LdapResolver {
    config: LdapConfig,
    cache: Vec<Identity>,
}

impl LdapResolver {
    /// The identities found so far, by SID.
    pub closed spec fn known(self) -> Map<Seq<char>, identity::IdentityView> {
        cache_map(self.cache@)
    }

    /// The connection settings.
    pub closed spec fn settings(self) -> LdapConfig {
        self.config
    }

    /// No SID is held twice.
    pub closed spec fn wf(self) -> bool {
        distinct_sids(self.cache@)
    }

    /// A resolver that knows no identity.
    pub fn new(config: LdapConfig) -> (r: Self)
        ensures
            r.wf(),
            r.settings() == config,
            r.known() == Map::<Seq<char>, identity::IdentityView>::empty(),
    {
        LdapResolver { config, cache: Vec::new() }
    }

    /// The connection settings.
    pub fn config(&self) -> (r: &LdapConfig)
        ensures
            *r == self.settings(),
    {
        &self.config
    }

    /// Decides whether the configuration targets a Global Catalog.
    pub fn is_global_catalog(&self) -> (r: bool)
        ensures
            r == self.settings().global_catalog,
    {
        self.config.global_catalog
    }

    /// Number of identities held.
    pub fn cache_size(&self) -> (r: usize)
        requires
            self.wf(),
        ensures
            r == self.known().dom().len(),
            self.known().dom().finite(),
    {
        proof {
            lemma_cache_map_len(self.cache@);
        }
        self.cache.len()
    }

    /// The identity with a SID, where it is known.
    pub fn cached(&self, sid: &Sid) -> (r: Option<Identity>)
        requires
            self.wf(),
        ensures
            (match r {
                Some(i) => self.known().contains_key(sid@) && i@ == self.known()[sid@],
                None => !self.known().contains_key(sid@),
            }),
    {
        for i in 0..self.cache.len()
            invariant
                distinct_sids(self.cache@),
                forall|j: int| 0 <= j < i ==> (#[trigger] self.cache@[j]).sid@ != sid@,
        {
            if self.cache[i].sid.0 == sid.0 {
                proof {
                    lemma_cache_map(self.cache@, sid@);
                }
                return Some(self.cache[i].clone());
            }
        }
        proof {
            lemma_cache_map(self.cache@, sid@);
        }
        None
    }

    /// Keeps an identity that was found. An orphan is not kept: a later lookup
    /// gets a fresh chance.
    pub fn remember(&mut self, identity: &Identity)
        requires
            old(self).wf(),
        ensures
            final(self).wf(),
            final(self).settings() == old(self).settings(),
            final(self).known() == (if identity.kind == IdentityKind::Orphaned {
                old(self).known()
            } else {
                old(self).known().insert(identity@.sid, identity@)
            }),
    {
        if identity.kind == IdentityKind::Orphaned {
            return;
        }
        let fresh: Identity = identity.clone();
        let n: usize = self.cache.len();
        for i in 0..n
            invariant
                n == self.cache@.len(),
                *self == *old(self),
                distinct_sids(self.cache@),
                fresh@ == identity@,
                identity.kind != IdentityKind::Orphaned,
                forall|j: int| 0 <= j < i ==> (#[trigger] self.cache@[j]).sid@ != fresh.sid@,
        {
            if self.cache[i].sid.0 == fresh.sid.0 {
                proof {
                    lemma_cache_map_update(self.cache@, i as int, fresh);
                }
                self.cache.set(i, fresh);
                return;
            }
        }
        let ghost before = self.cache@;
        self.cache.push(fresh);
        assert(self.cache@.drop_last() =~= before);
    }

    /// Takes the reply to the lookup of a SID that is not held: what the entry says,
    /// or an orphan where there is none. What was found is kept.
    pub fn settle(&mut self, sid: &Sid, reply: Result<Option<RawEntry>, CoreError>) -> (r: Result<
        Identity,
        CoreError,
    >)
        requires
            old(self).wf(),
        ensures
            final(self).wf(),
            final(self).settings() == old(self).settings(),
            (match reply {
                Err(e) => r == Err::<Identity, CoreError>(e),
                Ok(entry) => r is Ok && r->Ok_0@ == looked_up(entry, sid@),
            }),
            final(self).known() == (if r is Ok && r->Ok_0@.kind != IdentityKind::Orphaned {
                old(self).known().insert(sid@, r->Ok_0@)
            } else {
                old(self).known()
            }),
    {
        match reply {
            Err(e) => Err(e),
            Ok(entry) => {
                let found: Identity = identity_or_orphan(entry, sid);
                self.remember(&found);
                Ok(found)
            },
        }
    }
}

/// Replacing an identity by one with the same SID changes the entry of that SID.
proof fn lemma_cache_map_update(s: Seq<Identity>, i: int, x: Identity)
    requires
        distinct_sids(s),
        0 <= i < s.len(),
        s[i].sid@ == x.sid@,
    ensures
        distinct_sids(s.update(i, x)),
        cache_map(s.update(i, x)) == cache_map(s).insert(x.sid@, x@),
    decreases s.len(),
{
    let t = s.update(i, x);
    assert forall|p: int, q: int| 0 <= p < q < t.len() implies (#[trigger] t[p]).sid@ != (
    #[trigger] t[q]).sid@ by {
        assert(s[p].sid@ != s[q].sid@);
    }
    let short = s.drop_last();
    assert(forall|p: int| 0 <= p < short.len() ==> short[p] == s[p]);
    assert(distinct_sids(short));
    if i < s.len() - 1 {
        lemma_cache_map_update(short, i, x);
        assert(t.drop_last() =~= short.update(i, x));
        assert(s[i].sid@ != s[s.len() - 1].sid@);
        assert(cache_map(t) =~= cache_map(s).insert(x.sid@, x@));
    } else {
        assert(t.drop_last() =~= short);
        assert(cache_map(t) =~= cache_map(s).insert(x.sid@, x@));
    }
}

/// Whether no two identities have the same SID.
pub open spec fn distinct_sids(s: Seq<Identity>) -> bool {
    forall|i: int, j: int|
        0 <= i < j < s.len() ==> (#[trigger] s[i]).sid@ != (#[trigger] s[j]).sid@
}

/// The identities of a list by SID.
pub open spec fn cache_map(s: Seq<Identity>) -> Map<Seq<char>, identity::IdentityView>
    decreases s.len(),
{
    if s.len() == 0 {
        Map::empty()
    } else {
        cache_map(s.drop_last()).insert(s.last().sid@, s.last()@)
    }
}

/// What a list without repetitions maps a SID to.
proof fn lemma_cache_map(s: Seq<Identity>, sid: Seq<char>)
    requires
        distinct_sids(s),
    ensures
        cache_map(s).contains_key(sid) == (exists|i: int|
            0 <= i < s.len() && (#[trigger] s[i]).sid@ == sid),
        forall|i: int|
            0 <= i < s.len() && (#[trigger] s[i]).sid@ == sid ==> cache_map(s)[sid] == s[i]@,
    decreases s.len(),
{
    if s.len() > 0 {
        let short = s.drop_last();
        assert(distinct_sids(short)) by {
            assert(forall|i: int| 0 <= i < short.len() ==> short[i] == s[i]);
        }
        lemma_cache_map(short, sid);
        assert(forall|i: int| 0 <= i < short.len() ==> short[i] == s[i]);
        if exists|i: int| 0 <= i < short.len() && (#[trigger] short[i]).sid@ == sid {
            let i = choose|i: int| 0 <= i < short.len() && (#[trigger] short[i]).sid@ == sid;
            assert(s[i].sid@ == sid);
        }
        if exists|i: int| 0 <= i < s.len() && (#[trigger] s[i]).sid@ == sid {
            let i = choose|i: int| 0 <= i < s.len() && (#[trigger] s[i]).sid@ == sid;
            if i < short.len() {
                assert(short[i].sid@ == sid);
            }
        }
        assert forall|i: int|
            0 <= i < s.len() && (#[trigger] s[i]).sid@ == sid implies cache_map(s)[sid]
            == s[i]@ by {
            if i < short.len() {
                assert(short[i].sid@ == sid);
                assert(s[i].sid@ != s[s.len() - 1].sid@);
            }
        }
    }
}

/// A list without repetitions maps as many SIDs as it has items.
proof fn lemma_cache_map_len(s: Seq<Identity>)
    requires
        distinct_sids(s),
    ensures
        cache_map(s).dom().finite(),
        cache_map(s).dom().len() == s.len(),
    decreases s.len(),
{
    if s.len() > 0 {
        let short = s.drop_last();
        assert(forall|i: int| 0 <= i < short.len() ==> short[i] == s[i]);
        assert(distinct_sids(short));
        lemma_cache_map_len(short);
        lemma_cache_map(short, s.last().sid@);
        assert(!cache_map(short).contains_key(s.last().sid@)) by {
            if cache_map(short).contains_key(s.last().sid@) {
                let i = choose|i: int|
                    0 <= i < short.len() && (#[trigger] short[i]).sid@ == s.last().sid@;
                assert(s[i].sid@ != s[s.len() - 1].sid@);
            }
        }
    }
}

/// A computer is a computer, though it is a user too. Without that class a group comes
/// before a user, and both before a Foreign Security Principal; without any of them the kind
/// is unknown.
pub proof fn law_classes_decide_the_kind(classes: Seq<Seq<char>>)
    ensures
        ({
            let k = kind_of_classes(classes);
            let computer = classes.contains("computer"@);
            let group = classes.contains("group"@);
            let user = classes.contains("user"@);
            let foreign = classes.contains("foreignSecurityPrincipal"@);
            &&& (k == IdentityKind::Computer) == computer
            &&& (k == IdentityKind::Group) == (group && !computer)
            &&& (k == IdentityKind::User) == (user && !group && !computer)
            &&& (k == IdentityKind::ForeignSecurityPrincipal) == (foreign && !user && !group
                && !computer)
            &&& (k == IdentityKind::Unknown) == (!foreign && !user && !group && !computer)
        }),
{
}

/// The domain is made of the pieces that start with `DC=`, white space around them aside, in
/// their order and with dots between them. A name without such a piece lies in no domain.
pub proof fn law_domain_is_made_of_its_components(a: Seq<Seq<char>>, piece: Seq<char>, dn: Seq<char>)
    ensures
        ({
            let t = text::trimmed(piece);
            let is_component = t.len() >= 3 && t[0] == 'D' && t[1] == 'C' && t[2] == '=';
            &&& domain_components(Seq::empty()).len() == 0
            &&& is_component ==> domain_components(a.push(piece)) == domain_components(a).push(
                t.skip(3),
            )
            &&& !is_component ==> domain_components(a.push(piece)) == domain_components(a)
        }),
        ({
            let components = domain_components(text::split_at_char(dn, ','));
            &&& (domain_of_dn(dn) is None) == (components.len() == 0)
            &&& domain_of_dn(dn) matches Some(d) ==> d == text::joined(components, seq!['.'])
        }),
{
    reveal_strlit("DC=");
    reveal_strlit(".");
    assert("."@ =~= seq!['.']);
    assert(a.push(piece).drop_last() =~= a);
    let t = text::trimmed(piece);
    if t.len() >= 3 {
        let three = t.subrange(0, 3);
        assert(three[0] == t[0] && three[1] == t[1] && three[2] == t[2]);
        if t[0] == 'D' && t[1] == 'C' && t[2] == '=' {
            assert(three =~= "DC="@);
        }
    }
}

/// The SID of an entry is what its attribute holds: where the first raw value is the binary
/// form of a SID, the entry has that SID, and without a value it has none.
pub proof fn law_entry_has_the_sid_it_holds(entry: RawEntry, p: sid_util::SidParts)
    requires
        p.revision <= u8::MAX,
        p.authority < 0x1_0000_0000_0000,
        p.subs.len() <= u8::MAX,
    ensures
        ({
            let values = ldap_client::attr_values(entry.bin_attrs@, "objectSid"@);
            &&& values.len() == 0 ==> entry_sid(entry) is None
            &&& values.len() > 0 && values[0]@ == sid_util::sid_bytes(p) ==> entry_sid(entry)
                == Some(sid_util::sid_text(p))
            &&& values.len() > 0 && sid_util::decoded_sid(values[0]@) is Err ==> entry_sid(entry)
                is None
        }),
{
    sid_util::law_sid_bytes_decode_back(p);
}

/// An entry is named by its account name, and only without one by its common name.
pub proof fn law_account_name_comes_first(entry: RawEntry)
    ensures
        ({
            let account = ldap_client::attr_values(entry.attrs@, "sAMAccountName"@);
            let common = ldap_client::attr_values(entry.attrs@, "cn"@);
            &&& account.len() > 0 ==> entry_name(entry) == Some(account[0]@)
            &&& account.len() == 0 && common.len() > 0 ==> entry_name(entry) == Some(common[0]@)
            &&& account.len() == 0 && common.len() == 0 ==> entry_name(entry) is None
        }),
{
}

/// History is counted by its values, raw ones before texts. Of the raw values those that are
/// SIDs are read, in their order and each one of them.
pub proof fn law_history_is_read(entry: RawEntry, a: Seq<Vec<u8>>, v: Vec<u8>)
    ensures
        ({
            let raw = ldap_client::attr_values(entry.bin_attrs@, "sIDHistory"@);
            let plain = ldap_client::attr_values(entry.attrs@, "sIDHistory"@);
            &&& raw.len() > 0 ==> history_count(entry) == raw.len()
            &&& raw.len() == 0 ==> history_count(entry) == plain.len()
            &&& history_sids(entry) == parsed_sids(raw)
            &&& history_sids(entry).len() <= history_count(entry)
        }),
        parsed_sids(Seq::empty()).len() == 0,
        sid_util::decoded_sid(v@) matches Ok(p) ==> parsed_sids(a.push(v)) == parsed_sids(a).push(
            sid_util::sid_text(p),
        ),
        sid_util::decoded_sid(v@) is Err ==> parsed_sids(a.push(v)) == parsed_sids(a),
{
    assert(a.push(v).drop_last() =~= a);
    lemma_parsed_sids_bound(ldap_client::attr_values(entry.bin_attrs@, "sIDHistory"@));
}

proof fn lemma_parsed_sids_bound(values: Seq<Vec<u8>>)
    ensures
        parsed_sids(values).len() <= values.len(),
    decreases values.len(),
{
    if values.len() > 0 {
        lemma_parsed_sids_bound(values.drop_last());
    }
}

/// An account is disabled exactly where its control word is a number with the bit of value
/// two set. Without a readable control word it is not.
pub proof fn law_control_word_tells_disabled(entry: RawEntry, n: u32)
    ensures
        ({
            let values = ldap_client::attr_values(entry.attrs@, "userAccountControl"@);
            &&& values.len() == 0 ==> !entry_disabled(entry)
            &&& values.len() > 0 && values[0]@ == text::decimal(n as nat) ==> entry_disabled(entry)
                == ((n / 2) % 2 == 1)
            &&& values.len() > 0 && text::unsigned_value(values[0]@, u32::MAX as nat) is None
                ==> !entry_disabled(entry)
        }),
{
    text::lemma_decimal_reads_back(n as nat, u32::MAX as nat);
    assert((n & 0x2u32 != 0) == ((n / 2) % 2 == 1)) by (bit_vector);
}

/// An identity is what its entry says, part by part. An empty user principal name is none.
pub proof fn law_identity_is_what_the_entry_says(entry: RawEntry, sid: Seq<char>)
    ensures
        ({
            let i = entry_identity(entry, sid);
            let upn = ldap_client::attr_values(entry.attrs@, "userPrincipalName"@);
            &&& i.sid == sid
            &&& i.name == entry_name(entry)
            &&& i.domain == domain_of_dn(entry.dn@)
            &&& i.kind == kind_of_classes(
                text::texts(ldap_client::attr_values(entry.attrs@, "objectClass"@)),
            )
            &&& i.disabled == entry_disabled(entry)
            &&& i.sid_history == history_sids(entry)
            &&& history_count(entry) <= usize::MAX ==> i.sid_history_count == history_count(entry)
            &&& upn.len() > 0 && upn[0]@.len() > 0 ==> i.user_principal_name == Some(upn[0]@)
            &&& upn.len() == 0 || upn[0]@.len() == 0 ==> i.user_principal_name is None
        }),
{
}

/// The identity with a SID is that of its entry, and an orphan where there is none.
pub proof fn law_missing_entry_is_an_orphan(entry: Option<RawEntry>, sid: Seq<char>)
    ensures
        looked_up(entry, sid).sid == sid,
        entry is None ==> looked_up(entry, sid).kind == IdentityKind::Orphaned && looked_up(
            entry,
            sid,
        ).name is None,
        entry matches Some(e) ==> looked_up(entry, sid) == entry_identity(e, sid)
            && looked_up(entry, sid).kind != IdentityKind::Orphaned,
{
}

/// The relative identifier is the number behind the last hyphen.
pub proof fn law_rid_stands_behind_the_last_hyphen(front: Seq<char>, n: nat)
    ensures
        rid_of(front.push('-') + text::decimal(n)) == (if n <= u32::MAX {
            Some(n)
        } else {
            None
        }),
{
    text::lemma_decimal(n);
    let d = text::decimal(n);
    assert(!d.contains('-')) by {
        if d.contains('-') {
            let i = choose|i: int| 0 <= i < d.len() && d[i] == '-';
            assert('0' <= d[i] <= '9');
        }
    }
    text::lemma_split_behind(front, '-', d);
    text::lemma_decimal_reads_back(n, u32::MAX as nat);
}

/// The primary group of an account lies in the domain of the account, and its relative
/// identifier is the number that the account holds: the SID of the account with everything
/// behind its last hyphen replaced.
pub proof fn law_primary_group_is_a_neighbour(
    entry: RawEntry,
    front: Seq<char>,
    last: Seq<char>,
    rid: u32,
)
    requires
        entry_sid(entry) == Some(front.push('-') + last),
        !last.contains('-'),
        text::split_at_char(front, '-').len() >= 3,
        ldap_client::first_text(entry, "primaryGroupID"@) == Some(text::decimal(rid as nat)),
    ensures
        primary_group_of(entry) == Some(front.push('-') + text::decimal(rid as nat)),
        rid_of(primary_group_of(entry)->0) == Some(rid as nat),
{
    reveal_strlit("-");
    assert("-"@ =~= seq!['-']);
    text::lemma_decimal_reads_back(rid as nat, u32::MAX as nat);
    text::lemma_split_behind(front, '-', last);
    let parts = text::split_at_char(front.push('-') + last, '-');
    assert(parts.drop_last() =~= text::split_at_char(front, '-'));
    text::law_split_pieces_join_again(front, '-');
    assert(front + "-"@ + text::decimal(rid as nat) =~= front.push('-') + text::decimal(
        rid as nat,
    ));
    law_rid_stands_behind_the_last_hyphen(front, rid as nat);
}

/// Without a number, or without a SID, there is no primary group.
pub proof fn law_no_number_means_no_primary_group(entry: RawEntry)
    requires
        entry_sid(entry) is None || ldap_client::first_text(entry, "primaryGroupID"@) is None,
    ensures
        primary_group_of(entry) is None,
{
}

/// Whether a member comes from the entry `e`, and was found `via`.
pub open spec fn is_member_of_entry(m: MemberView, e: RawEntry, via: MemberVia) -> bool {
    &&& entry_sid(e) == Some(m.identity.sid)
    &&& m.identity == entry_identity(e, m.identity.sid)
    &&& m.via == via
    &&& m.children.len() == 0
}

/// Every entry adds its member: one with a SID that was not seen is among those added, and
/// what was added comes from an entry.
proof fn lemma_added_members_cover(entries: Seq<RawEntry>, via: MemberVia, seen: Seq<Seq<char>>)
    ensures
        forall|k: int|
            0 <= k < entries.len() && #[trigger] entry_sid(entries[k]) is Some && !seen.contains(
                entry_sid(entries[k])->0,
            ) ==> lists_member(added_members(entries, via, seen), entry_sid(entries[k])->0),
        forall|i: int|
            0 <= i < added_members(entries, via, seen).len() ==> comes_from_entry(
                #[trigger] added_members(entries, via, seen)[i],
                entries,
                via,
            ),
        forall|s: Seq<char>| #[trigger]
            seen_after(entries, seen).contains(s) == (seen.contains(s) || lists_member(
                added_members(entries, via, seen),
                s,
            )),
    decreases entries.len(),
{
    if entries.len() > 0 {
        let short = entries.drop_last();
        let n = short.len() as int;
        lemma_added_members_cover(short, via, seen);
        let before = added_members(short, via, seen);
        let after = added_members(entries, via, seen);
        let seen_before = seen_after(short, seen);
        let seen_now = seen_after(entries, seen);
        assert forall|k: int|
            0 <= k < entries.len() && #[trigger] entry_sid(entries[k]) is Some && !seen.contains(
                entry_sid(entries[k])->0,
            ) implies lists_member(after, entry_sid(entries[k])->0) by {
            let s = entry_sid(entries[k])->0;
            if k < n {
                assert(entry_sid(short[k]) == Some(s));
                assert(lists_member(before, s));
            } else if !adds_member(entries, seen, n) {
                let j = choose|j: int|
                    0 <= j < n && entry_sid(#[trigger] entries[j]) == entry_sid(entries[n]);
                assert(entry_sid(short[j]) == Some(s));
                assert(lists_member(before, s));
            } else {
                assert(after[after.len() - 1].identity.sid == s);
            }
            if lists_member(before, s) {
                let i = choose|i: int| 0 <= i < before.len() && (#[trigger] before[i]).identity.sid
                    == s;
                assert(after[i] == before[i]);
            }
        }
        assert forall|i: int| 0 <= i < after.len() implies comes_from_entry(
            #[trigger] after[i],
            entries,
            via,
        ) by {
            if i < before.len() {
                assert(after[i] == before[i]);
                let k = choose|k: int|
                    0 <= k < short.len() && is_member_of_entry(before[i], #[trigger] short[k], via);
                assert(entries[k] == short[k]);
                assert(is_member_of_entry(after[i], entries[k], via));
            } else {
                assert(is_member_of_entry(after[i], entries[n], via));
            }
        }
        assert forall|s: Seq<char>| #[trigger]
            seen_now.contains(s) == (seen.contains(s) || lists_member(after, s)) by {
            assert(seen_before.contains(s) == (seen.contains(s) || lists_member(before, s)));
            if seen_now.contains(s) {
                let i = choose|i: int| 0 <= i < seen_now.len() && seen_now[i] == s;
                if i < seen_before.len() {
                    assert(seen_before[i] == s);
                } else {
                    assert(after[after.len() - 1].identity.sid == s);
                }
            }
            if seen_before.contains(s) {
                let i = choose|i: int| 0 <= i < seen_before.len() && seen_before[i] == s;
                assert(seen_now[i] == s);
            }
            if lists_member(before, s) {
                let i = choose|i: int| 0 <= i < before.len() && (#[trigger] before[i]).identity.sid
                    == s;
                assert(after[i] == before[i]);
            }
            if lists_member(after, s) {
                let i = choose|i: int| 0 <= i < after.len() && (#[trigger] after[i]).identity.sid
                    == s;
                if i < before.len() {
                    assert(before[i].identity.sid == s);
                } else {
                    assert(seen_now[seen_now.len() - 1] == s);
                }
            }
        }
    }
}

/// Whether a member with the SID `s` is listed.
pub open spec fn lists_member(members: Seq<MemberView>, s: Seq<char>) -> bool {
    exists|i: int| 0 <= i < members.len() && (#[trigger] members[i]).identity.sid == s
}

/// Whether a member comes from one of `entries`.
pub open spec fn comes_from_entry(m: MemberView, entries: Seq<RawEntry>, via: MemberVia) -> bool {
    exists|k: int| 0 <= k < entries.len() && is_member_of_entry(m, #[trigger] entries[k], via)
}

/// Everyone that one of the searches found is a member, exactly once, and nobody else is:
/// a member comes from an entry of the search by back-link, or, where that does not hold it,
/// from one of the search by primary group, and says which. The list is called incomplete
/// exactly where a search failed, and the reason is told.
#[verifier::rlimit(50)]
#[verifier::spinoff_prover]
pub proof fn law_everyone_found_is_a_member(
    backlink: Result<Seq<RawEntry>, Seq<char>>,
    primary: Result<Seq<RawEntry>, Seq<char>>,
    e: RawEntry,
    i: int,
    j: int,
)
    ensures
        ({
            let (members, incomplete) = combined_members(backlink, primary);
            &&& ((backlink matches Ok(es) && es.contains(e)) || (primary matches Ok(es)
                && es.contains(e))) && entry_sid(e) is Some ==> lists_member(
                members,
                entry_sid(e)->0,
            )
            &&& 0 <= i < j < members.len() ==> members[i].identity.sid != members[j].identity.sid
            &&& 0 <= i < members.len() ==> (backlink matches Ok(es) && comes_from_entry(
                members[i],
                es,
                MemberVia::Direct,
            )) || (primary matches Ok(es) && comes_from_entry(
                members[i],
                es,
                MemberVia::PrimaryGroup,
            ) && (backlink matches Ok(ds) ==> forall|k: int|
                0 <= k < ds.len() ==> entry_sid(#[trigger] ds[k]) != Some(members[i].identity.sid)))
            &&& (incomplete is None) == (backlink is Ok && primary is Ok)
            &&& backlink matches Err(m) ==> text::occurs_in(m, incomplete->0)
            &&& primary matches Err(m) ==> text::occurs_in(m, incomplete->0)
        }),
{
    let none = Seq::<Seq<char>>::empty();
    let ds = match backlink {
        Ok(es) => es,
        Err(_) => Seq::empty(),
    };
    let ps = match primary {
        Ok(es) => es,
        Err(_) => Seq::empty(),
    };
    let direct = added_members(ds, MemberVia::Direct, none);
    let seen = seen_after(ds, none);
    let more = added_members(ps, MemberVia::PrimaryGroup, seen);
    let (members, incomplete) = combined_members(backlink, primary);
    assert(direct + Seq::<MemberView>::empty() =~= direct);
    assert(members =~= direct + more);
    lemma_added_members_cover(ds, MemberVia::Direct, none);
    lemma_added_members_cover(ps, MemberVia::PrimaryGroup, seen);
    if entry_sid(e) is Some {
        let s = entry_sid(e)->0;
        if ds.contains(e) {
            let k = choose|k: int| 0 <= k < ds.len() && ds[k] == e;
            assert(entry_sid(ds[k]) is Some);
            assert(lists_member(direct, s));
        }
        if ps.contains(e) {
            let k = choose|k: int| 0 <= k < ps.len() && ps[k] == e;
            assert(entry_sid(ps[k]) is Some);
            assert(seen.contains(s) || lists_member(more, s));
        }
        if lists_member(direct, s) {
            let q = choose|q: int| 0 <= q < direct.len() && (#[trigger] direct[q]).identity.sid == s;
            assert(members[q] == direct[q]);
        }
        if lists_member(more, s) {
            let q = choose|q: int| 0 <= q < more.len() && (#[trigger] more[q]).identity.sid == s;
            assert(members[direct.len() + q] == more[q]);
        }
    }
    if 0 <= i < j < members.len() {
        if j < direct.len() {
            law_added_members_are_new(ds, MemberVia::Direct, none, j);
            assert(direct[i].identity.sid != direct[j].identity.sid);
        } else {
            law_added_members_are_new(ps, MemberVia::PrimaryGroup, seen, j - direct.len());
            assert(members[j] == more[j - direct.len()]);
            if i < direct.len() {
                assert(lists_member(direct, direct[i].identity.sid));
                assert(seen.contains(direct[i].identity.sid));
            } else {
                assert(members[i] == more[i - direct.len()]);
                assert(more[i - direct.len()].identity.sid != more[j - direct.len()].identity.sid);
            }
        }
    }
    if 0 <= i < members.len() {
        if i < direct.len() {
            assert(comes_from_entry(direct[i], ds, MemberVia::Direct));
        } else {
            let q = i - direct.len();
            assert(members[i] == more[q]);
            assert(comes_from_entry(more[q], ps, MemberVia::PrimaryGroup));
            law_added_members_are_new(ps, MemberVia::PrimaryGroup, seen, q);
            assert forall|k: int| 0 <= k < ds.len() implies entry_sid(#[trigger] ds[k]) != Some(
                members[i].identity.sid,
            ) by {
                if entry_sid(ds[k]) == Some(members[i].identity.sid) {
                    assert(entry_sid(ds[k]) is Some);
                    assert(lists_member(direct, members[i].identity.sid));
                    assert(seen.contains(members[i].identity.sid));
                }
            }
        }
    }
    let a = "member back-link search failed: "@;
    let b = "primaryGroupID search failed: "@;
    if let Err(m) = backlink {
        lemma_reason_occurs(a, m);
        if let Err(x) = primary {
            text::lemma_part_occurs(a, m, "; "@ + (b + x));
            text::lemma_assoc(a + m, "; "@, b + x);
        }
    }
    if let Err(m) = primary {
        lemma_reason_occurs(b, m);
        if let Err(x) = backlink {
            let lead = a + x + "; "@;
            text::lemma_part_occurs(lead + b, m, Seq::empty());
            text::lemma_assoc(lead, b, m);
            assert(lead + b + m + Seq::empty() =~= lead + b + m);
        }
    }
}

proof fn lemma_reason_occurs(label: Seq<char>, reason: Seq<char>)
    ensures
        text::occurs_in(reason, label + reason),
{
    text::lemma_part_occurs(label, reason, Seq::empty());
    assert(label + reason + Seq::empty() =~= label + reason);
}

/// The report of a group marks members that were found through their primary group, with
/// their number, and a list that may be short, with the reason.
pub proof fn law_report_marks_what_it_has_to(via_primary: nat, incomplete: Option<String>)
    requires
        via_primary <= usize::MAX,
    ensures
        ({
            let d = enumeration_markers(via_primary, incomplete);
            &&& d.len() == (if via_primary > 0 {
                1int
            } else {
                0
            }) + (if incomplete is Some {
                1int
            } else {
                0
            })
            &&& via_primary > 0 ==> (d[0]
                matches PermissionDiagnostic::MembersViaPrimaryGroupIncluded { count } && count
                == via_primary)
            &&& incomplete matches Some(m) ==> d.last()
                == (PermissionDiagnostic::GroupMemberEnumerationIncomplete { reason: m })
        }),
{
}

/// Every entry with a SID gives its identity, in their order.
pub proof fn law_every_entry_gives_its_identity(a: Seq<RawEntry>, e: RawEntry)
    ensures
        entry_identities(Seq::empty()).len() == 0,
        entry_sid(e) matches Some(s) ==> entry_identities(a.push(e)) == entry_identities(a).push(
            entry_identity(e, s),
        ),
        entry_sid(e) is None ==> entry_identities(a.push(e)) == entry_identities(a),
{
    assert(a.push(e).drop_last() =~= a);
}

/// Members are listed by their names, whatever their case, and by their SIDs where the names
/// are the same. Those without a name come as if it were empty.
pub proof fn law_members_are_listed_by_name(m: MemberNode)
    ensures
        m.identity.name matches Some(n) ==> m.key().0 == text::unicode_lower(n@),
        m.identity.name is None ==> m.key().0 == text::unicode_lower(Seq::empty()),
        m.key().1 == m.identity.sid@,
{
}

/// A member says all that it holds.
pub proof fn law_member_says_everything(m: MemberNode)
    ensures
        m@.identity == m.identity@,
        m@.via == m.via,
        m@.children == m.children@,
{
}

} // verus!
