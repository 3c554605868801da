//! JSON fragments for the columns of a report.

use vstd::prelude::*;

use crate::model::access::{AceEntry, AceKind, ContributingAce};
use crate::model::diagnostic::PermissionDiagnostic;
use crate::text;

verus! {

/// Version of the schema of the JSON report; it grows with every change of the
/// structure.
pub const JSON_SCHEMA_VERSION: u32 = 3;

/// An error of `serde_json`, seen as a whole.
#[verifier::external_type_specification]
#[verifier::external_body]
pub struct ExJsonError(serde_json::Error);

/// How a character stands in a JSON string: quotes and backslashes are escaped, and
/// so are the control characters below the space.
pub open spec fn json_char(c: char) -> Seq<char> {
    if c == '"' {
        seq!['\\', '"']
    } else if c == '\\' {
        seq!['\\', '\\']
    } else if c == '\n' {
        seq!['\\', 'n']
    } else if c == '\r' {
        seq!['\\', 'r']
    } else if c == '\t' {
        seq!['\\', 't']
    } else if c as nat == 8 {
        seq!['\\', 'b']
    } else if c as nat == 12 {
        seq!['\\', 'f']
    } else if (c as nat) < 32 {
        seq!['\\', 'u'] + text::hex(c as nat, 4, false)
    } else {
        seq![c]
    }
}

/// What stands between the quotes of a JSON string.
pub open spec fn json_inner(s: Seq<char>) -> Seq<char>
    decreases s.len(),
{
    if s.len() == 0 {
        Seq::empty()
    } else {
        json_inner(s.drop_last()) + json_char(s.last())
    }
}

/// A text as a JSON string.
pub open spec fn json_string(s: Seq<char>) -> Seq<char> {
    "\""@ + json_inner(s) + "\""@
}

/// Calls `serde_json::to_string` on a text. It writes the text in quotes, with the
/// characters of [`json_char`] escaped, into a vector; writing to a vector does not
/// fail.
#[verifier::external_body]
fn to_json(s: &str) -> (r: Result<String, serde_json::Error>)
    ensures
        r is Ok,
        r->Ok_0@ == json_string(s@),
{
    serde_json::to_string(s)
}

/// Writes a text as a JSON string.
pub fn quoted(s: &str) -> (r: String)
    ensures
        r@ == json_string(s@),
{
    match to_json(s) {
        Ok(t) => t,
        Err(_) => String::new(),
    }
}

/// A JSON list of `items`.
pub open spec fn json_list(items: Seq<Seq<char>>) -> Seq<char> {
    "["@ + text::joined(items, ","@) + "]"@
}

/// Writes a JSON list.
fn list(items: &Vec<String>) -> (r: String)
    ensures
        r@ == json_list(text::texts(items@)),
{
    "[".to_owned().concat(text::join(items, ",").as_str()).concat("]")
}

/// `true` or `false`.
pub open spec fn bool_text(b: bool) -> Seq<char> {
    if b {
        "true"@
    } else {
        "false"@
    }
}

/// Writes `true` or `false`.
pub fn bool_str(b: bool) -> (r: &'static str)
    ensures
        r@ == bool_text(b),
{
    if b {
        "true"
    } else {
        "false"
    }
}

/// An entry of a DACL as a JSON object.
pub open spec fn ace_json(a: AceEntry) -> Seq<char> {
    "{\"sid\":"@ + json_string(a.sid@) + ",\"kind\":\""@ + (match a.kind {
        AceKind::Allow => "Allow"@,
        AceKind::Deny => "Deny"@,
    }) + "\",\"mask\":\""@ + text::mask_text(a.mask.0) + "\",\"inherited\":"@ + bool_text(
        a.inherited,
    ) + "}"@
}

/// Writes the entries that belong to a token as a compact JSON list.
pub fn matched_aces_to_json(aces: &[AceEntry]) -> (r: String)
    ensures
        r@ == json_list(aces@.map_values(|a: AceEntry| ace_json(a))),
{
    let mut items: Vec<String> = Vec::new();
    for i in 0..aces.len()
        invariant
            items@.len() == i,
            forall|j: int| 0 <= j < i ==> (#[trigger] items@[j])@ == ace_json(aces@[j]),
    {
        let a: &AceEntry = &aces[i];
        let kind: &str = match a.kind {
            AceKind::Allow => "Allow",
            AceKind::Deny => "Deny",
        };
        items.push(
            "{\"sid\":".to_owned().concat(quoted(a.sid.0.as_str()).as_str()).concat(
                ",\"kind\":\"",
            ).concat(kind).concat("\",\"mask\":\"").concat(
                text::mask_hex(a.mask.0).as_str(),
            ).concat("\",\"inherited\":").concat(bool_str(a.inherited)).concat("}"),
        );
    }
    assert(text::texts(items@) =~= aces@.map_values(|a: AceEntry| ace_json(a)));
    list(&items)
}

/// A contribution as a JSON object.
pub open spec fn contribution_json(c: ContributingAce) -> Seq<char> {
    "{\"sid\":"@ + json_string(c.sid@) + ",\"mask\":\""@ + text::mask_text(c.mask.0) + "\"}"@
}

/// Writes what each trustee contributed as a compact JSON list.
pub fn contributing_sids_to_json(sids: &[ContributingAce]) -> (r: String)
    ensures
        r@ == json_list(sids@.map_values(|c: ContributingAce| contribution_json(c))),
{
    let mut items: Vec<String> = Vec::new();
    for i in 0..sids.len()
        invariant
            items@.len() == i,
            forall|j: int| 0 <= j < i ==> (#[trigger] items@[j])@ == contribution_json(sids@[j]),
    {
        let c: &ContributingAce = &sids[i];
        items.push(
            "{\"sid\":".to_owned().concat(quoted(c.sid.0.as_str()).as_str()).concat(
                ",\"mask\":\"",
            ).concat(text::mask_hex(c.mask.0).as_str()).concat("\"}"),
        );
    }
    assert(text::texts(items@) =~= sids@.map_values(|c: ContributingAce| contribution_json(c)));
    list(&items)
}

/// The name of the kind of a marker.
pub open spec fn marker_kind(d: PermissionDiagnostic) -> Seq<char> {
    match d {
        PermissionDiagnostic::NonCanonicalDaclOrder { .. } => "NonCanonicalDaclOrder"@,
        PermissionDiagnostic::UnsupportedShareAces { .. } => "UnsupportedShareAces"@,
        PermissionDiagnostic::UnsupportedNtfsAces { .. } => "UnsupportedNtfsAces"@,
        PermissionDiagnostic::DomainGroupRecursionIncomplete => "DomainGroupRecursionIncomplete"@,
        PermissionDiagnostic::IdentityDisabled => "IdentityDisabled"@,
        PermissionDiagnostic::IdentityNotInConfiguredLdapBase => "IdentityNotInConfiguredLdapBase"@,
        PermissionDiagnostic::IdentityDisabledStatusUnknown => "IdentityDisabledStatusUnknown"@,
        PermissionDiagnostic::IdentityLookupFailed { .. } => "IdentityLookupFailed"@,
        PermissionDiagnostic::GroupResolutionFailed { .. } => "GroupResolutionFailed"@,
        PermissionDiagnostic::OwnerRightsAceApplied => "OwnerRightsAceApplied"@,
        PermissionDiagnostic::IdentityResolvedViaForeignSecurityPrincipal => "IdentityResolvedViaForeignSecurityPrincipal"@,
        PermissionDiagnostic::GroupResolutionViaGlobalCatalog => "GroupResolutionViaGlobalCatalog"@,
        PermissionDiagnostic::PersistedEvidenceDecodeFailed { .. } => "PersistedEvidenceDecodeFailed"@,
        PermissionDiagnostic::SidHistoryPresent { .. } => "SidHistoryPresent"@,
        PermissionDiagnostic::SidHistoryEvaluated { .. } => "SidHistoryEvaluated"@,
        PermissionDiagnostic::GroupSidHistoryEvaluated { .. } => "GroupSidHistoryEvaluated"@,
        PermissionDiagnostic::GroupSidHistoryPresent { .. } => "GroupSidHistoryPresent"@,
        PermissionDiagnostic::TrustBoundaryEffectsNotModeled => "TrustBoundaryEffectsNotModeled"@,
        PermissionDiagnostic::MembersViaPrimaryGroupIncluded { .. } => "MembersViaPrimaryGroupIncluded"@,
        PermissionDiagnostic::GroupMemberEnumerationIncomplete { .. } => "GroupMemberEnumerationIncomplete"@,
        PermissionDiagnostic::UniversalGroupCrossDomainMembersNotVisible => "UniversalGroupCrossDomainMembersNotVisible"@,
    }
}

/// What a marker carries, each part under its key.
pub open spec fn marker_fields(d: PermissionDiagnostic) -> Seq<char> {
    match d {
        PermissionDiagnostic::NonCanonicalDaclOrder { at_index } => ",\"at_index\":"@ + text::decimal(at_index as nat),
        PermissionDiagnostic::UnsupportedShareAces { count } => ",\"count\":"@ + text::decimal(count as nat),
        PermissionDiagnostic::UnsupportedNtfsAces { count } => ",\"count\":"@ + text::decimal(count as nat),
        PermissionDiagnostic::IdentityLookupFailed { reason } => ",\"reason\":"@ + json_string(reason@),
        PermissionDiagnostic::GroupResolutionFailed { reason } => ",\"reason\":"@ + json_string(reason@),
        PermissionDiagnostic::PersistedEvidenceDecodeFailed { detail } => ",\"detail\":"@ + json_string(detail@),
        PermissionDiagnostic::SidHistoryPresent { count } => ",\"count\":"@ + text::decimal(count as nat),
        PermissionDiagnostic::SidHistoryEvaluated { count } => ",\"count\":"@ + text::decimal(count as nat),
        PermissionDiagnostic::GroupSidHistoryEvaluated { groups, count } => ",\"groups\":"@ + text::decimal(groups as nat) + ",\"count\":"@ + text::decimal(count as nat),
        PermissionDiagnostic::GroupSidHistoryPresent { count } => ",\"count\":"@ + text::decimal(count as nat),
        PermissionDiagnostic::MembersViaPrimaryGroupIncluded { count } => ",\"count\":"@ + text::decimal(count as nat),
        PermissionDiagnostic::GroupMemberEnumerationIncomplete { reason } => ",\"reason\":"@ + json_string(reason@),
        _ => Seq::empty(),
    }
}

/// A marker as a JSON object: its kind, then what it carries.
pub open spec fn marker_json(d: PermissionDiagnostic) -> Seq<char> {
    "{\"kind\":\""@ + marker_kind(d) + "\""@ + marker_fields(d) + "}"@
}

/// Names the kind of a marker.
fn kind_of_marker(d: &PermissionDiagnostic) -> (r: &'static str)
    ensures
        r@ == marker_kind(*d),
{
    match d {
        PermissionDiagnostic::NonCanonicalDaclOrder { .. } => "NonCanonicalDaclOrder",
        PermissionDiagnostic::UnsupportedShareAces { .. } => "UnsupportedShareAces",
        PermissionDiagnostic::UnsupportedNtfsAces { .. } => "UnsupportedNtfsAces",
        PermissionDiagnostic::DomainGroupRecursionIncomplete => "DomainGroupRecursionIncomplete",
        PermissionDiagnostic::IdentityDisabled => "IdentityDisabled",
        PermissionDiagnostic::IdentityNotInConfiguredLdapBase => "IdentityNotInConfiguredLdapBase",
        PermissionDiagnostic::IdentityDisabledStatusUnknown => "IdentityDisabledStatusUnknown",
        PermissionDiagnostic::IdentityLookupFailed { .. } => "IdentityLookupFailed",
        PermissionDiagnostic::GroupResolutionFailed { .. } => "GroupResolutionFailed",
        PermissionDiagnostic::OwnerRightsAceApplied => "OwnerRightsAceApplied",
        PermissionDiagnostic::IdentityResolvedViaForeignSecurityPrincipal => "IdentityResolvedViaForeignSecurityPrincipal",
        PermissionDiagnostic::GroupResolutionViaGlobalCatalog => "GroupResolutionViaGlobalCatalog",
        PermissionDiagnostic::PersistedEvidenceDecodeFailed { .. } => "PersistedEvidenceDecodeFailed",
        PermissionDiagnostic::SidHistoryPresent { .. } => "SidHistoryPresent",
        PermissionDiagnostic::SidHistoryEvaluated { .. } => "SidHistoryEvaluated",
        PermissionDiagnostic::GroupSidHistoryEvaluated { .. } => "GroupSidHistoryEvaluated",
        PermissionDiagnostic::GroupSidHistoryPresent { .. } => "GroupSidHistoryPresent",
        PermissionDiagnostic::TrustBoundaryEffectsNotModeled => "TrustBoundaryEffectsNotModeled",
        PermissionDiagnostic::MembersViaPrimaryGroupIncluded { .. } => "MembersViaPrimaryGroupIncluded",
        PermissionDiagnostic::GroupMemberEnumerationIncomplete { .. } => "GroupMemberEnumerationIncomplete",
        PermissionDiagnostic::UniversalGroupCrossDomainMembersNotVisible => "UniversalGroupCrossDomainMembersNotVisible",
    }
}

/// Writes what a marker carries.
fn fields_of_marker(d: &PermissionDiagnostic) -> (r: String)
    ensures
        r@ == marker_fields(*d),
{
    match d {
        PermissionDiagnostic::NonCanonicalDaclOrder { at_index } => ",\"at_index\":".to_owned().concat(text::decimal_text(*at_index as u64).as_str()),
        PermissionDiagnostic::UnsupportedShareAces { count } => ",\"count\":".to_owned().concat(text::decimal_text(*count as u64).as_str()),
        PermissionDiagnostic::UnsupportedNtfsAces { count } => ",\"count\":".to_owned().concat(text::decimal_text(*count as u64).as_str()),
        PermissionDiagnostic::IdentityLookupFailed { reason } => ",\"reason\":".to_owned().concat(quoted(reason.as_str()).as_str()),
        PermissionDiagnostic::GroupResolutionFailed { reason } => ",\"reason\":".to_owned().concat(quoted(reason.as_str()).as_str()),
        PermissionDiagnostic::PersistedEvidenceDecodeFailed { detail } => ",\"detail\":".to_owned().concat(quoted(detail.as_str()).as_str()),
        PermissionDiagnostic::SidHistoryPresent { count } => ",\"count\":".to_owned().concat(text::decimal_text(*count as u64).as_str()),
        PermissionDiagnostic::SidHistoryEvaluated { count } => ",\"count\":".to_owned().concat(text::decimal_text(*count as u64).as_str()),
        PermissionDiagnostic::GroupSidHistoryEvaluated { groups, count } => ",\"groups\":".to_owned().concat(text::decimal_text(*groups as u64).as_str()).concat(",\"count\":").concat(text::decimal_text(*count as u64).as_str()),
        PermissionDiagnostic::GroupSidHistoryPresent { count } => ",\"count\":".to_owned().concat(text::decimal_text(*count as u64).as_str()),
        PermissionDiagnostic::MembersViaPrimaryGroupIncluded { count } => ",\"count\":".to_owned().concat(text::decimal_text(*count as u64).as_str()),
        PermissionDiagnostic::GroupMemberEnumerationIncomplete { reason } => ",\"reason\":".to_owned().concat(quoted(reason.as_str()).as_str()),
        _ => {
            let none: String = String::new();
            assert(none@ =~= Seq::empty());
            none
        },
    }
}

/// Writes a marker as a JSON object.
fn marker_to_json(d: &PermissionDiagnostic) -> (r: String)
    ensures
        r@ == marker_json(*d),
{
    "{\"kind\":\"".to_owned().concat(kind_of_marker(d)).concat("\"").concat(
        fields_of_marker(d).as_str(),
    ).concat("}")
}

/// Writes markers as a compact JSON list. An empty list is `[]`.
pub fn diagnostics_to_json(diagnostics: &[PermissionDiagnostic]) -> (r: String)
    ensures
        r@ == json_list(diagnostics@.map_values(|d: PermissionDiagnostic| marker_json(d))),
{
    let mut items: Vec<String> = Vec::new();
    for i in 0..diagnostics.len()
        invariant
            items@.len() == i,
            forall|j: int| 0 <= j < i ==> (#[trigger] items@[j])@ == marker_json(diagnostics@[j]),
    {
        items.push(marker_to_json(&diagnostics[i]));
    }
    assert(text::texts(items@) =~= diagnostics@.map_values(
        |d: PermissionDiagnostic| marker_json(d),
    ));
    list(&items)
}

/// A JSON string holds no control character, and every quote between its quotes stands
/// behind a backslash.
pub proof fn law_json_string_is_closed(s: Seq<char>)
    ensures
        forall|i: int|
            0 <= i < json_inner(s).len() ==> (#[trigger] json_inner(s)[i]) as nat >= 32,
        forall|i: int|
            0 <= i < json_inner(s).len() && #[trigger] json_inner(s)[i] == '"' ==> i > 0
                && json_inner(s)[i - 1] == '\\',
    decreases s.len(),
{
    if s.len() > 0 {
        let init = json_inner(s.drop_last());
        let tail = json_char(s.last());
        let all = json_inner(s);
        law_json_string_is_closed(s.drop_last());
        lemma_json_char(s.last());
        assert forall|i: int| 0 <= i < all.len() implies (#[trigger] all[i]) as nat >= 32 by {
            if i < init.len() {
                assert(all[i] == init[i]);
            } else {
                assert(all[i] == tail[i - init.len()]);
            }
        }
        assert forall|i: int| 0 <= i < all.len() && #[trigger] all[i] == '"' implies i > 0 && all[i
            - 1] == '\\' by {
            if i < init.len() {
                assert(all[i] == init[i]);
                assert(all[i - 1] == init[i - 1]);
            } else {
                assert(all[i] == tail[i - init.len()]);
                assert(all[i - 1] == tail[i - init.len() - 1]);
            }
        }
    }
}

/// No character of an escape is a control character, and a quote in it stands
/// behind a backslash.
proof fn lemma_json_char(c: char)
    ensures
        forall|i: int| 0 <= i < json_char(c).len() ==> (#[trigger] json_char(c)[i]) as nat >= 32,
        forall|i: int|
            0 <= i < json_char(c).len() && #[trigger] json_char(c)[i] == '"' ==> i > 0 && json_char(
                c,
            )[i - 1] == '\\',
{
    let n = c as nat;
    if n < 32 {
        reveal_with_fuel(text::hex, 5);
        let h = text::hex(n, 4, false);
        assert(h.len() == 4);
        assert(h[0] == text::hex_char(n / 16 / 16 / 16 % 16, false));
        assert(h[1] == text::hex_char(n / 16 / 16 % 16, false));
        assert(h[2] == text::hex_char(n / 16 % 16, false));
        assert(h[3] == text::hex_char(n % 16, false));
    }
}

/// The value of a hexadecimal digit.
pub open spec fn hex_digit_value(c: char) -> nat {
    if '0' <= c && c <= '9' {
        (c as nat - '0' as nat) as nat
    } else {
        (c as nat - 'a' as nat + 10) as nat
    }
}

/// What a character means behind a backslash.
pub open spec fn unescaped(c: char) -> char {
    if c == 'n' {
        '\n'
    } else if c == 'r' {
        '\r'
    } else if c == 't' {
        '\t'
    } else if c == 'b' {
        8u8 as char
    } else if c == 'f' {
        12u8 as char
    } else {
        c
    }
}

/// A text and what stands behind it, with a character put in front.
pub open spec fn put_in_front(c: char, r: Option<(Seq<char>, Seq<char>)>) -> Option<
    (Seq<char>, Seq<char>),
> {
    match r {
        Some((s, rest)) => Some((seq![c] + s, rest)),
        None => None,
    }
}

/// Reads a JSON string behind its first quote: its text, and what stands behind its
/// last quote.
pub open spec fn json_read(t: Seq<char>) -> Option<(Seq<char>, Seq<char>)>
    decreases t.len(),
{
    if t.len() == 0 {
        None
    } else if t[0] == '"' {
        Some((Seq::empty(), t.skip(1)))
    } else if t[0] != '\\' {
        put_in_front(t[0], json_read(t.skip(1)))
    } else if t.len() < 2 {
        None
    } else if t[1] != 'u' {
        put_in_front(unescaped(t[1]), json_read(t.skip(2)))
    } else if t.len() < 6 {
        None
    } else {
        let code = hex_digit_value(t[2]) * 4096 + hex_digit_value(t[3]) * 256 + hex_digit_value(
            t[4],
        ) * 16 + hex_digit_value(t[5]);
        put_in_front(code as char, json_read(t.skip(6)))
    }
}

/// `json_inner` from the front.
proof fn lemma_json_inner_front(c: char, s: Seq<char>)
    ensures
        json_inner(seq![c] + s) == json_char(c) + json_inner(s),
    decreases s.len(),
{
    let all = seq![c] + s;
    if s.len() == 0 {
        assert(all.drop_last() =~= Seq::<char>::empty());
        assert(json_inner(all.drop_last()) =~= Seq::<char>::empty());
        assert(all.last() == c);
        assert(json_inner(all) =~= json_char(c));
        assert(json_char(c) + json_inner(s) =~= json_char(c));
    } else {
        lemma_json_inner_front(c, s.drop_last());
        assert(all.drop_last() =~= seq![c] + s.drop_last());
        assert(json_inner(all) =~= json_char(c) + json_inner(s));
    }
}

/// Reading past one written character.
proof fn lemma_json_read_char(c: char, t: Seq<char>)
    ensures
        json_read(json_char(c) + t) == put_in_front(c, json_read(t)),
{
    let w = json_char(c);
    let all = w + t;
    let n = c as nat;
    assert(all.skip(w.len() as int) =~= t);
    assert(forall|i: int| 0 <= i < w.len() ==> all[i] == w[i]);
    if n < 32 && c != '\n' && c != '\r' && c != '\t' && n != 8 && n != 12 {
        reveal_with_fuel(text::hex, 5);
        let h = text::hex(n, 4, false);
        assert(h.len() == 4);
        assert(h[0] == text::hex_char(n / 16 / 16 / 16 % 16, false));
        assert(h[1] == text::hex_char(n / 16 / 16 % 16, false));
        assert(h[2] == text::hex_char(n / 16 % 16, false));
        assert(h[3] == text::hex_char(n % 16, false));
        assert(w.len() == 6);
        assert(w[2] == h[0] && w[3] == h[1] && w[4] == h[2] && w[5] == h[3]);
        assert(hex_digit_value(h[2]) * 16 + hex_digit_value(h[3]) == n);
    }
}

/// A text that was written as a JSON string reads back as it was, and the string ends
/// where it was ended, whatever stands behind it.
pub proof fn law_json_string_reads_back(s: Seq<char>, rest: Seq<char>)
    ensures
        json_read(json_inner(s) + (seq!['"'] + rest)) == Some((s, rest)),
    decreases s.len(),
{
    let end = seq!['"'] + rest;
    if s.len() == 0 {
        assert(json_inner(s) + end =~= end);
        assert(end.skip(1) =~= rest);
        assert(s =~= Seq::<char>::empty());
    } else {
        let tail = s.drop_first();
        law_json_string_reads_back(tail, rest);
        assert(s =~= seq![s[0]] + tail);
        lemma_json_inner_front(s[0], tail);
        lemma_json_read_char(s[0], json_inner(tail) + end);
        assert(json_inner(s) + end =~= json_char(s[0]) + (json_inner(tail) + end));
    }
}

/// The object of an entry holds its trustee, its kind, its mask and whether it was
/// inherited, each under its key.
pub proof fn law_entry_object_holds_the_entry(a: AceEntry)
    ensures
        text::occurs_in("{\"sid\":"@ + json_string(a.sid@), ace_json(a)),
        a.kind == AceKind::Allow ==> text::occurs_in(",\"kind\":\""@ + "Allow"@, ace_json(a)),
        a.kind == AceKind::Deny ==> text::occurs_in(",\"kind\":\""@ + "Deny"@, ace_json(a)),
        text::occurs_in("\",\"mask\":\""@ + text::mask_text(a.mask.0), ace_json(a)),
        a.inherited ==> text::occurs_in("\",\"inherited\":"@ + "true"@, ace_json(a)),
        !a.inherited ==> text::occurs_in("\",\"inherited\":"@ + "false"@, ace_json(a)),
{
    let k1 = "{\"sid\":"@;
    let v1 = json_string(a.sid@);
    let k2 = ",\"kind\":\""@;
    let v2 = match a.kind {
        AceKind::Allow => "Allow"@,
        AceKind::Deny => "Deny"@,
    };
    let k3 = "\",\"mask\":\""@;
    let v3 = text::mask_text(a.mask.0);
    let k4 = "\",\"inherited\":"@;
    let v4 = bool_text(a.inherited);
    lemma_pairs_occur(k1, v1, k2, v2, k3, v3, k4, v4, "}"@);
}

/// What is put together of pairs holds them.
proof fn lemma_pairs_occur(
    k1: Seq<char>,
    v1: Seq<char>,
    k2: Seq<char>,
    v2: Seq<char>,
    k3: Seq<char>,
    v3: Seq<char>,
    k4: Seq<char>,
    v4: Seq<char>,
    end: Seq<char>,
)
    ensures
        text::occurs_in(k1 + v1, k1 + v1 + k2 + v2 + k3 + v3 + k4 + v4 + end),
        text::occurs_in(k2 + v2, k1 + v1 + k2 + v2 + k3 + v3 + k4 + v4 + end),
        text::occurs_in(k3 + v3, k1 + v1 + k2 + v2 + k3 + v3 + k4 + v4 + end),
        text::occurs_in(k4 + v4, k1 + v1 + k2 + v2 + k3 + v3 + k4 + v4 + end),
{
    let all = k1 + v1 + k2 + v2 + k3 + v3 + k4 + v4 + end;
    let none = Seq::<char>::empty();
    text::lemma_pair_occurs(none, k1, v1, k2 + v2 + k3 + v3 + k4 + v4 + end);
    assert(all =~= none + k1 + v1 + (k2 + v2 + k3 + v3 + k4 + v4 + end));
    text::lemma_pair_occurs(k1 + v1, k2, v2, k3 + v3 + k4 + v4 + end);
    assert(all =~= k1 + v1 + k2 + v2 + (k3 + v3 + k4 + v4 + end));
    text::lemma_pair_occurs(k1 + v1 + k2 + v2, k3, v3, k4 + v4 + end);
    assert(all =~= k1 + v1 + k2 + v2 + k3 + v3 + (k4 + v4 + end));
    text::lemma_pair_occurs(k1 + v1 + k2 + v2 + k3 + v3, k4, v4, end);
}

/// The object of a contribution holds its trustee and its mask, each under its key.
pub proof fn law_contribution_object_holds_it(c: ContributingAce)
    ensures
        text::occurs_in("{\"sid\":"@ + json_string(c.sid@), contribution_json(c)),
        text::occurs_in(",\"mask\":\""@ + text::mask_text(c.mask.0), contribution_json(c)),
{
    let k1 = "{\"sid\":"@;
    let v1 = json_string(c.sid@);
    let k2 = ",\"mask\":\""@;
    let v2 = text::mask_text(c.mask.0);
    text::lemma_pair_occurs(Seq::empty(), k1, v1, k2 + v2 + "\"}"@);
    assert(contribution_json(c) =~= Seq::empty() + k1 + v1 + (k2 + v2 + "\"}"@));
    text::lemma_pair_occurs(k1 + v1, k2, v2, "\"}"@);
}

/// The object of a marker holds the name of its kind.
pub proof fn law_marker_object_names_the_kind(d: PermissionDiagnostic)
    ensures
        ("{\"kind\":\""@ + marker_kind(d) + "\""@).is_prefix_of(marker_json(d)),
        d is NonCanonicalDaclOrder ==> marker_kind(d) == "NonCanonicalDaclOrder"@,
        d is UnsupportedShareAces ==> marker_kind(d) == "UnsupportedShareAces"@,
        d is UnsupportedNtfsAces ==> marker_kind(d) == "UnsupportedNtfsAces"@,
        d is DomainGroupRecursionIncomplete ==> marker_kind(d) == "DomainGroupRecursionIncomplete"@,
        d is IdentityDisabled ==> marker_kind(d) == "IdentityDisabled"@,
        d is IdentityNotInConfiguredLdapBase ==> marker_kind(d) == "IdentityNotInConfiguredLdapBase"@,
        d is IdentityDisabledStatusUnknown ==> marker_kind(d) == "IdentityDisabledStatusUnknown"@,
        d is IdentityLookupFailed ==> marker_kind(d) == "IdentityLookupFailed"@,
        d is GroupResolutionFailed ==> marker_kind(d) == "GroupResolutionFailed"@,
        d is OwnerRightsAceApplied ==> marker_kind(d) == "OwnerRightsAceApplied"@,
        d is IdentityResolvedViaForeignSecurityPrincipal ==> marker_kind(d) == "IdentityResolvedViaForeignSecurityPrincipal"@,
        d is GroupResolutionViaGlobalCatalog ==> marker_kind(d) == "GroupResolutionViaGlobalCatalog"@,
        d is PersistedEvidenceDecodeFailed ==> marker_kind(d) == "PersistedEvidenceDecodeFailed"@,
        d is SidHistoryPresent ==> marker_kind(d) == "SidHistoryPresent"@,
        d is SidHistoryEvaluated ==> marker_kind(d) == "SidHistoryEvaluated"@,
        d is GroupSidHistoryEvaluated ==> marker_kind(d) == "GroupSidHistoryEvaluated"@,
        d is GroupSidHistoryPresent ==> marker_kind(d) == "GroupSidHistoryPresent"@,
        d is TrustBoundaryEffectsNotModeled ==> marker_kind(d) == "TrustBoundaryEffectsNotModeled"@,
        d is MembersViaPrimaryGroupIncluded ==> marker_kind(d) == "MembersViaPrimaryGroupIncluded"@,
        d is GroupMemberEnumerationIncomplete ==> marker_kind(d) == "GroupMemberEnumerationIncomplete"@,
        d is UniversalGroupCrossDomainMembersNotVisible ==> marker_kind(d) == "UniversalGroupCrossDomainMembersNotVisible"@,
{
    let start = "{\"kind\":\""@ + marker_kind(d) + "\""@;
    let rest = marker_fields(d);
    assert((start + rest + "}"@).subrange(0, start.len() as int) =~= start);
}

/// The object of a marker holds what the marker carries: a number in decimal notation, a
/// text as a string, each under its key.
pub proof fn law_marker_object_holds_what_it_carries(d: PermissionDiagnostic)
    ensures
        match d {
            PermissionDiagnostic::NonCanonicalDaclOrder { at_index } => text::occurs_in(",\"at_index\":"@ + text::decimal(at_index as nat), marker_json(d)),
            PermissionDiagnostic::UnsupportedShareAces { count } => text::occurs_in(",\"count\":"@ + text::decimal(count as nat), marker_json(d)),
            PermissionDiagnostic::UnsupportedNtfsAces { count } => text::occurs_in(",\"count\":"@ + text::decimal(count as nat), marker_json(d)),
            PermissionDiagnostic::IdentityLookupFailed { reason } => text::occurs_in(",\"reason\":"@ + json_string(reason@), marker_json(d)),
            PermissionDiagnostic::GroupResolutionFailed { reason } => text::occurs_in(",\"reason\":"@ + json_string(reason@), marker_json(d)),
            PermissionDiagnostic::PersistedEvidenceDecodeFailed { detail } => text::occurs_in(",\"detail\":"@ + json_string(detail@), marker_json(d)),
            PermissionDiagnostic::SidHistoryPresent { count } => text::occurs_in(",\"count\":"@ + text::decimal(count as nat), marker_json(d)),
            PermissionDiagnostic::SidHistoryEvaluated { count } => text::occurs_in(",\"count\":"@ + text::decimal(count as nat), marker_json(d)),
            PermissionDiagnostic::GroupSidHistoryEvaluated { groups, count } => text::occurs_in(",\"groups\":"@ + text::decimal(groups as nat), marker_json(d)) && text::occurs_in(",\"count\":"@ + text::decimal(count as nat), marker_json(d)),
            PermissionDiagnostic::GroupSidHistoryPresent { count } => text::occurs_in(",\"count\":"@ + text::decimal(count as nat), marker_json(d)),
            PermissionDiagnostic::MembersViaPrimaryGroupIncluded { count } => text::occurs_in(",\"count\":"@ + text::decimal(count as nat), marker_json(d)),
            PermissionDiagnostic::GroupMemberEnumerationIncomplete { reason } => text::occurs_in(",\"reason\":"@ + json_string(reason@), marker_json(d)),
            _ => true,
        },
{
    let start = "{\"kind\":\""@ + marker_kind(d) + "\""@;
    let fields = marker_fields(d);
    text::lemma_part_occurs(start, fields, "}"@);
    if let PermissionDiagnostic::GroupSidHistoryEvaluated { groups, count } = d {
        let a = ",\"groups\":"@ + text::decimal(groups as nat);
        let b = ",\"count\":"@ + text::decimal(count as nat);
        assert(fields =~= a + b);
        text::lemma_part_occurs(start, a, b + "}"@);
        assert(marker_json(d) =~= start + a + (b + "}"@));
        text::lemma_part_occurs(start + a, b, "}"@);
        assert(marker_json(d) =~= start + a + b + "}"@);
    }
}

/// A list holds its items in their order: what stands first is in front, and a comma
/// separates it from the rest.
pub proof fn law_list_holds_its_items(a: Seq<Seq<char>>, b: Seq<Seq<char>>)
    requires
        a.len() > 0,
        b.len() > 0,
    ensures
        json_list(a + b) == "["@ + text::joined(a, ","@) + ","@ + text::joined(b, ","@) + "]"@,
        json_list(seq![a[0]]) == "["@ + a[0] + "]"@,
        json_list(Seq::empty()) == "["@ + "]"@,
{
    text::law_joining_separates(a, b, ","@);
    let x = text::joined(a, ","@);
    let y = text::joined(b, ","@);
    assert("["@ + (x + ","@ + y) + "]"@ =~= "["@ + x + ","@ + y + "]"@);
    assert("["@ + Seq::empty() + "]"@ =~= "["@ + "]"@);
}

/// The version of the format of a report.
pub proof fn law_schema_version()
    ensures
        JSON_SCHEMA_VERSION == 3,
{
}

} // verus!
