//! The console report of an analysis.

use vstd::prelude::*;

use crate::cli::scan;
use crate::cli::scan::{heavy, identity_label, light};
use crate::model::access::{
    AceEntry, AceKind, EffectivePermission, FileSystemObject, UnsupportedAce,
};
use crate::model::diagnostic::PermissionDiagnostic;
use crate::model::identity::Identity;
use crate::model::membership::GroupMembership;
use crate::model::rights;
use crate::model::rights::{rights_of, NormalizedRights, RightsTable};
use crate::model::scan::{RiskFinding, RiskSeverity};
use crate::text;

verus! {

/// A section of the report: its title, and a line below it.
pub open spec fn section(title: Seq<char>) -> Seq<Seq<char>> {
    seq![""@, "  "@ + title, "  "@ + scan::light_line()]
}

/// Starts a section.
fn push_section(out: &mut Vec<String>, title: &str)
    ensures
        text::texts(final(out)@) == text::texts(old(out)@) + section(title@),
{
    let ghost before = text::texts(out@);
    text::push_line(out, "".to_owned());
    text::push_line(out, "  ".to_owned().concat(title));
    text::push_line(out, "  ".to_owned().concat(light().as_str()));
    assert(text::texts(out@) =~= before + section(title@));
}

/// The label of a DACL that has no entries to show. NULL means no restriction, empty
/// means no access.
pub open spec fn dacl_state(null_dacl: bool, dacl_is_empty: bool) -> Option<Seq<char>> {
    if null_dacl {
        Some("(NULL DACL — unrestricted / Full Control for everyone)"@)
    } else if dacl_is_empty {
        Some("(empty DACL — no access)"@)
    } else {
        None
    }
}

/// Labels a DACL that has no entries to show.
pub fn dacl_state_label(null_dacl: bool, dacl_is_empty: bool) -> (r: Option<&'static str>)
    ensures
        (match r {
            Some(s) => Some(s@),
            None => None,
        }) == dacl_state(null_dacl, dacl_is_empty),
{
    if null_dacl {
        Some("(NULL DACL — unrestricted / Full Control for everyone)")
    } else if dacl_is_empty {
        Some("(empty DACL — no access)")
    } else {
        None
    }
}

/// A DACL without restriction is never shown as one without access, and the other way
/// round.
pub proof fn law_null_and_empty_dacl_differ()
    ensures
        dacl_state(true, true) == dacl_state(true, false),
        dacl_state(true, true) != dacl_state(false, true),
        dacl_state(false, false) is None,
{
    reveal_strlit("(NULL DACL — unrestricted / Full Control for everyone)");
    reveal_strlit("(empty DACL — no access)");
    let a = "(NULL DACL — unrestricted / Full Control for everyone)"@;
    let b = "(empty DACL — no access)"@;
    assert(a[1] == 'N');
    assert(b[1] == 'e');
}

/// The title of the report.
pub open spec fn title_lines() -> Seq<Seq<char>> {
    seq![
        ""@,
        scan::heavy_line(),
        "  AD Permission Analyzer  ·  Effective Rights Report"@,
        scan::heavy_line(),
    ]
}

/// The section on the identity.
pub open spec fn identity_lines(
    path: Seq<char>,
    i: Identity,
    user_input: Seq<char>,
    ad_connected: bool,
) -> Seq<Seq<char>> {
    section("Identity"@) + seq![
        "  Path      : "@ + path,
        "  User      : "@ + scan::shown_identity(i, user_input),
        "            : ("@ + i.sid@ + ")"@,
        "  Status    : "@ + (if i.disabled {
            "DISABLED"@
        } else {
            "Active"@
        }) + "  ·  Kind: "@ + i.kind.name(),
    ] + (if ad_connected {
        Seq::empty()
    } else {
        seq![
            ""@,
            "  [!] No AD connection — group memberships not resolved."@,
            "      Results may be incomplete."@,
        ]
    })
}

/// Adds the section on the identity.
fn push_identity(
    out: &mut Vec<String>,
    path: &str,
    i: &Identity,
    user_input: &str,
    ad_connected: bool,
)
    ensures
        text::texts(final(out)@) == text::texts(old(out)@) + identity_lines(
            path@,
            *i,
            user_input@,
            ad_connected,
        ),
{
    let ghost before = text::texts(out@);
    push_section(out, "Identity");
    text::push_line(out, "  Path      : ".to_owned().concat(path));
    text::push_line(
        out,
        "  User      : ".to_owned().concat(identity_label(i, user_input).as_str()),
    );
    text::push_line(out, "            : (".to_owned().concat(i.sid.0.as_str()).concat(")"));
    let status: &str = if i.disabled {
        "DISABLED"
    } else {
        "Active"
    };
    text::push_line(
        out,
        "  Status    : ".to_owned().concat(status).concat("  ·  Kind: ").concat(
            i.kind.kind_name(),
        ),
    );
    if !ad_connected {
        text::push_line(out, "".to_owned());
        text::push_line(
            out,
            "  [!] No AD connection — group memberships not resolved.".to_owned(),
        );
        text::push_line(out, "      Results may be incomplete.".to_owned());
    }
    assert(text::texts(out@) =~= before + identity_lines(path@, *i, user_input@, ad_connected));
}

/// The line of a group.
pub open spec fn group_line(m: GroupMembership) -> Seq<char> {
    "  ["@ + (if m.direct {
        "direct    "@
    } else {
        "transitive"@
    }) + "]  "@ + m.group_sid@
}

/// The section on the groups; none without groups.
pub open spec fn group_lines(memberships: Seq<GroupMembership>) -> Seq<Seq<char>> {
    if memberships.len() == 0 {
        Seq::empty()
    } else {
        section("Resolved Groups ("@ + text::decimal(memberships.len()) + ")"@)
            + memberships.map_values(|m: GroupMembership| group_line(m))
    }
}

/// Adds the section on the groups.
fn push_groups(out: &mut Vec<String>, memberships: &[GroupMembership])
    ensures
        text::texts(final(out)@) == text::texts(old(out)@) + group_lines(memberships@),
{
    let ghost start = text::texts(out@);
    if memberships.len() == 0 {
        assert(start + group_lines(memberships@) =~= start);
        return;
    }
    let title: String = "Resolved Groups (".to_owned().concat(
        text::decimal_text(memberships.len() as u64).as_str(),
    ).concat(")");
    push_section(out, title.as_str());
    let ghost before = text::texts(out@);
    let ghost rows = memberships@.map_values(|m: GroupMembership| group_line(m));
    assert(before + rows.take(0) =~= before);
    for i in 0..memberships.len()
        invariant
            rows == memberships@.map_values(|m: GroupMembership| group_line(m)),
            text::texts(out@) == before + rows.take(i as int),
    {
        let origin: &str = if memberships[i].direct {
            "direct    "
        } else {
            "transitive"
        };
        text::push_line(
            out,
            "  [".to_owned().concat(origin).concat("]  ").concat(
                memberships[i].group_sid.0.as_str(),
            ),
        );
        assert(text::texts(out@) =~= before + rows.take(i + 1));
    }
    assert(text::texts(out@) =~= start + group_lines(memberships@));
}

/// The name of the kind of an entry, as wide as the others.
pub open spec fn kind_text(kind: AceKind) -> Seq<char> {
    match kind {
        AceKind::Allow => "Allow"@,
        AceKind::Deny => "DENY "@,
    }
}

/// Names the kind of an entry.
fn kind_name(kind: AceKind) -> (r: &'static str)
    ensures
        r@ == kind_text(kind),
{
    match kind {
        AceKind::Allow => "Allow",
        AceKind::Deny => "DENY ",
    }
}

/// The line of an entry.
pub open spec fn ace_line(a: AceEntry, rights: Map<u32, NormalizedRights>) -> Seq<char> {
    "  "@ + kind_text(a.kind) + "  "@ + (if a.inherited {
        "inherited"@
    } else {
        "explicit "@
    }) + "  "@ + text::padded(rights[a.mask.0].display_name@, 13) + "  "@ + a.sid@
}

/// The section on the DACL.
pub open spec fn dacl_lines(fso: FileSystemObject, rights: Map<u32, NormalizedRights>) -> Seq<
    Seq<char>,
> {
    section("DACL  —  "@ + fso.path@) + seq![
        "  Owner       : "@ + (match fso.owner_sid {
            Some(s) => s@,
            None => "(unknown)"@,
        }),
        "  Inheritance : "@ + (if fso.inheritance_disabled {
            "Protected (inheritance disabled)"@
        } else {
            "Active (inheriting from parent)"@
        }),
    ] + (match dacl_state(fso.null_dacl, fso.dacl@.len() == 0) {
        Some(label) => seq!["  "@ + label],
        None => seq![
            ""@,
            "  Kind   Scope     Rights      SID"@,
            "  "@ + scan::light_line(),
        ] + fso.dacl@.map_values(|a: AceEntry| ace_line(a, rights)),
    })
}

/// Whether the table holds the masks of all entries.
pub open spec fn knows_aces(rights: Map<u32, NormalizedRights>, aces: Seq<AceEntry>) -> bool {
    forall|i: int| 0 <= i < aces.len() ==> rights.contains_key((#[trigger] aces[i]).mask.0)
}

/// Decides whether the table holds the masks of all entries.
pub fn covers_aces(rights: &RightsTable, aces: &[AceEntry]) -> (r: bool)
    ensures
        r == knows_aces(rights@, aces@),
{
    broadcast use vstd::std_specs::hash::group_hash_axioms;

    for i in 0..aces.len()
        invariant
            forall|j: int| 0 <= j < i ==> rights@.contains_key((#[trigger] aces@[j]).mask.0),
    {
        if !rights.contains_key(&aces[i].mask.0) {
            assert(!rights@.contains_key(aces@[i as int].mask.0));
            return false;
        }
    }
    true
}

/// Adds the section on the DACL.
fn push_dacl(out: &mut Vec<String>, fso: &FileSystemObject, rights: &RightsTable)
    requires
        knows_aces(rights@, fso.dacl@),
    ensures
        text::texts(final(out)@) == text::texts(old(out)@) + dacl_lines(*fso, rights@),
{
    let ghost start = text::texts(out@);
    push_section(out, "DACL  —  ".to_owned().concat(fso.path.0.as_str()).as_str());
    let owner: &str = match &fso.owner_sid {
        Some(s) => s.0.as_str(),
        None => "(unknown)",
    };
    let inherit: &str = if fso.inheritance_disabled {
        "Protected (inheritance disabled)"
    } else {
        "Active (inheriting from parent)"
    };
    text::push_line(out, "  Owner       : ".to_owned().concat(owner));
    text::push_line(out, "  Inheritance : ".to_owned().concat(inherit));
    match dacl_state_label(fso.null_dacl, fso.dacl.len() == 0) {
        Some(label) => {
            text::push_line(out, "  ".to_owned().concat(label));
            assert(text::texts(out@) =~= start + dacl_lines(*fso, rights@));
        },
        None => {
            text::push_line(out, "".to_owned());
            text::push_line(out, "  Kind   Scope     Rights      SID".to_owned());
            text::push_line(out, "  ".to_owned().concat(light().as_str()));
            let ghost before = text::texts(out@);
            let ghost rows = fso.dacl@.map_values(|a: AceEntry| ace_line(a, rights@));
            assert(before + rows.take(0) =~= before);
            for i in 0..fso.dacl.len()
                invariant
                    knows_aces(rights@, fso.dacl@),
                    rows == fso.dacl@.map_values(|a: AceEntry| ace_line(a, rights@)),
                    text::texts(out@) == before + rows.take(i as int),
            {
                let a: &AceEntry = &fso.dacl[i];
                let scope: &str = if a.inherited {
                    "inherited"
                } else {
                    "explicit "
                };
                text::push_line(
                    out,
                    "  ".to_owned().concat(kind_name(a.kind)).concat("  ").concat(scope).concat(
                        "  ",
                    ).concat(
                        text::pad(rights_of(rights, a.mask.0).display_name.as_str(), 13).as_str(),
                    ).concat("  ").concat(a.sid.0.as_str()),
                );
                assert(text::texts(out@) =~= before + rows.take(i + 1));
            }
            assert(text::texts(out@) =~= start + dacl_lines(*fso, rights@));
        },
    }
}

/// The line of an entry that could not be interpreted.
pub open spec fn unsupported_line(u: UnsupportedAce) -> Seq<char> {
    "  "@ + text::padded(text::decimal(u.ace_type as nat), 9) + "  0x"@ + text::hex(
        u.flags as nat,
        2,
        true,
    ) + "     "@ + text::mask_text(u.mask)
}

/// The section on entries that could not be interpreted; none without them.
pub open spec fn unsupported_lines(aces: Seq<UnsupportedAce>) -> Seq<Seq<char>> {
    if aces.len() == 0 {
        Seq::empty()
    } else {
        section("Unsupported ACEs (diagnostic — not evaluated)"@) + seq![
            "  [!] "@ + text::decimal(aces.len())
                + " ACE(s) on this path could not be interpreted."@,
            "      Effective rights below may be incomplete."@,
            ""@,
            "  AceType    Flags    Mask"@,
            "  "@ + scan::light_line(),
        ] + aces.map_values(|u: UnsupportedAce| unsupported_line(u))
    }
}

/// Adds the section on entries that could not be interpreted.
fn push_unsupported(out: &mut Vec<String>, aces: &Vec<UnsupportedAce>)
    ensures
        text::texts(final(out)@) == text::texts(old(out)@) + unsupported_lines(aces@),
{
    let ghost start = text::texts(out@);
    if aces.len() == 0 {
        assert(start + unsupported_lines(aces@) =~= start);
        return;
    }
    push_section(out, "Unsupported ACEs (diagnostic — not evaluated)");
    text::push_line(
        out,
        "  [!] ".to_owned().concat(text::decimal_text(aces.len() as u64).as_str()).concat(
            " ACE(s) on this path could not be interpreted.",
        ),
    );
    text::push_line(out, "      Effective rights below may be incomplete.".to_owned());
    text::push_line(out, "".to_owned());
    text::push_line(out, "  AceType    Flags    Mask".to_owned());
    text::push_line(out, "  ".to_owned().concat(light().as_str()));
    let ghost before = text::texts(out@);
    let ghost rows = aces@.map_values(|u: UnsupportedAce| unsupported_line(u));
    assert(before + rows.take(0) =~= before);
    for i in 0..aces.len()
        invariant
            rows == aces@.map_values(|u: UnsupportedAce| unsupported_line(u)),
            text::texts(out@) == before + rows.take(i as int),
    {
        let u: &UnsupportedAce = &aces[i];
        let mut line: String = "  ".to_owned().concat(
            text::pad(text::decimal_text(u.ace_type as u64).as_str(), 9).as_str(),
        ).concat("  0x");
        text::push_hex(&mut line, u.flags as u32, 2, true);
        line.append("     ");
        line.append(text::mask_hex(u.mask).as_str());
        text::push_line(out, line);
        assert(text::texts(out@) =~= before + rows.take(i + 1));
    }
    assert(text::texts(out@) =~= start + unsupported_lines(aces@));
}

/// How a marker begins: with an exclamation mark where the rights may be wrong.
pub open spec fn lead(d: PermissionDiagnostic) -> Seq<char> {
    if d.marks_gap() {
        "  [!] "@
    } else {
        "  [i] "@
    }
}

/// How a marker begins.
fn lead_of(d: &PermissionDiagnostic) -> (r: &'static str)
    ensures
        r@ == lead(*d),
{
    if d.is_incompleteness_trigger() {
        "  [!] "
    } else {
        "  [i] "
    }
}

/// The lines of a marker.
pub open spec fn marker_lines(d: PermissionDiagnostic) -> Seq<Seq<char>> {
    match d {
        PermissionDiagnostic::NonCanonicalDaclOrder { at_index } => seq![
            lead(d) + "Non-canonical DACL ordering at ACE index "@ + text::decimal(at_index as nat) + "."@,
            "      Windows AccessCheck walks in stored order — the result is"@,
            "      exact but may differ from canonicalized expectations."@,
        ],
        PermissionDiagnostic::UnsupportedShareAces { count } => seq![
            lead(d) + text::decimal(count as nat) + " share ACE(s) of unsupported type were skipped."@,
            "      Share mask is potentially incomplete; risk findings are"@,
            "      flagged 'incomplete' for this path."@,
        ],
        PermissionDiagnostic::UnsupportedNtfsAces { count } => seq![
            lead(d) + text::decimal(count as nat) + " NTFS ACE(s) could not be evaluated (object / callback /"@,
            "      conditional / vendor-specific). The displayed effective"@,
            "      permission is a LOWER-CONFIDENCE APPROXIMATION — a hidden Deny"@,
            "      among them could change the result. Risk findings are flagged"@,
            "      'incomplete' for this path."@,
        ],
        PermissionDiagnostic::DomainGroupRecursionIncomplete => seq![
            lead(d) + "Group resolution ran through the SAM/LSA fallback (no LDAP)."@,
            "      NetUserGetGroups returns only direct global groups — nested"@,
            "      domain groups are not recursively resolved. ACEs targeting"@,
            "      deeply nested groups may be missed."@,
        ],
        PermissionDiagnostic::IdentityDisabled => seq![
            lead(d) + "Identity is flagged as disabled in AD (ACCOUNTDISABLE)."@,
            "      Computed rights are ACL-theoretically correct, but the"@,
            "      account normally cannot authenticate / access SMB."@,
        ],
        PermissionDiagnostic::IdentityNotInConfiguredLdapBase => seq![
            lead(d) + "Identity was resolved via Windows LSA but the configured"@,
            "      LDAP base DN does not index that SID (typical for multi-"@,
            "      domain forests or trusted domains). Domain group recursion"@,
            "      ran only through the user's home domain — nested cross-"@,
            "      domain memberships may be missing. Treat as incomplete."@,
        ],
        PermissionDiagnostic::IdentityDisabledStatusUnknown => seq![
            lead(d) + "The 'disabled' flag for this identity could not be"@,
            "      determined (SAM/LSA fallback without NetUserGetInfo, or"@,
            "      LDAP did not return the user object). Computed rights are"@,
            "      ACL-theoretically correct, but whether the account is"@,
            "      enabled is unknown."@,
        ],
        PermissionDiagnostic::IdentityLookupFailed { reason } => seq![
            lead(d) + "LDAP identity lookup failed: "@ + reason@ + "."@,
            "      The analysis ran with a placeholder identity and an empty"@,
            "      token; ACEs targeting domain groups may be missing. Treat"@,
            "      as incomplete."@,
        ],
        PermissionDiagnostic::GroupResolutionFailed { reason } => seq![
            lead(d) + "Recursive group resolution failed or was skipped: "@ + reason@ + "."@,
            "      ACEs on domain groups may be missing from the computed"@,
            "      effective right. Treat as incomplete."@,
        ],
        PermissionDiagnostic::OwnerRightsAceApplied => seq![
            lead(d) + "OWNER RIGHTS (S-1-3-4) ACE present and the identity is the"@,
            "      object's owner. That DACL entry governs the owner's rights;"@,
            "      the implicit READ_CONTROL + WRITE_DAC owner grant was"@,
            "      suppressed. The evaluation is exact — informational only."@,
        ],
        PermissionDiagnostic::IdentityResolvedViaForeignSecurityPrincipal => seq![
            lead(d) + "Identity is a trust-forest principal found as a Foreign"@,
            "      Security Principal object in the home domain. Home-domain"@,
            "      groups were resolved through the FSP — but the principal's"@,
            "      memberships in its own forest are unknown. Treat as"@,
            "      incomplete."@,
        ],
        PermissionDiagnostic::GroupResolutionViaGlobalCatalog => seq![
            lead(d) + "Group memberships were resolved through a Global Catalog"@,
            "      bind. Only universal group memberships replicate fully to"@,
            "      the GC — global and domain-local memberships of foreign"@,
            "      domains can be missing. Treat as incomplete."@,
        ],
        PermissionDiagnostic::PersistedEvidenceDecodeFailed { detail } => seq![
            lead(d) + "A persisted (historical) row could not be fully decoded:"@,
            "      "@ + detail@ + "."@,
            "      The reconstructed result may be less complete than it was"@,
            "      originally stored. Treat as incomplete."@,
        ],
        PermissionDiagnostic::SidHistoryPresent { count } => seq![
            lead(d) + "This identity carries "@ + text::decimal(count as nat) + " historical SID(s) (sIDHistory)."@,
            "      ACEs that reference a historical SID are not evaluated, but"@,
            "      the real logon token still includes it — effective rights"@,
            "      may be understated. Treat as incomplete."@,
        ],
        PermissionDiagnostic::SidHistoryEvaluated { .. } => seq![
            lead(d) + d.sentence(),
        ],
        PermissionDiagnostic::GroupSidHistoryEvaluated { .. } => seq![
            lead(d) + d.sentence(),
        ],
        PermissionDiagnostic::GroupSidHistoryPresent { .. } => seq![
            lead(d) + d.sentence(),
        ],
        PermissionDiagnostic::TrustBoundaryEffectsNotModeled => seq![
            lead(d) + "Identity resolved across a domain / trust boundary (foreign"@,
            "      security principal, or outside the configured LDAP base)."@,
            "      If that boundary is a forest trust, SID filtering /"@,
            "      quarantine and Selective Authentication may reduce actual"@,
            "      access — these runtime trust effects are not modeled."@,
        ],
        PermissionDiagnostic::MembersViaPrimaryGroupIncluded { .. } => seq![
            lead(d) + d.sentence(),
        ],
        PermissionDiagnostic::GroupMemberEnumerationIncomplete { .. } => seq![
            lead(d) + d.sentence(),
        ],
        PermissionDiagnostic::UniversalGroupCrossDomainMembersNotVisible => seq![
            lead(d) + d.sentence(),
        ],
    }
}

/// Writes the lines of a marker.
fn lines_of_marker(d: &PermissionDiagnostic) -> (r: Vec<String>)
    ensures
        text::texts(r@) == marker_lines(*d),
{
    let mut out: Vec<String> = Vec::new();
    assert(text::texts(out@) =~= Seq::empty());
    match d {
        PermissionDiagnostic::NonCanonicalDaclOrder { at_index } => {
            text::push_line(&mut out, lead_of(d).to_owned().concat("Non-canonical DACL ordering at ACE index ").concat(text::decimal_text(*at_index as u64).as_str()).concat("."));
            text::push_line(&mut out, "      Windows AccessCheck walks in stored order — the result is".to_owned());
            text::push_line(&mut out, "      exact but may differ from canonicalized expectations.".to_owned());
        },
        PermissionDiagnostic::UnsupportedShareAces { count } => {
            text::push_line(&mut out, lead_of(d).to_owned().concat(text::decimal_text(*count as u64).as_str()).concat(" share ACE(s) of unsupported type were skipped."));
            text::push_line(&mut out, "      Share mask is potentially incomplete; risk findings are".to_owned());
            text::push_line(&mut out, "      flagged 'incomplete' for this path.".to_owned());
        },
        PermissionDiagnostic::UnsupportedNtfsAces { count } => {
            text::push_line(&mut out, lead_of(d).to_owned().concat(text::decimal_text(*count as u64).as_str()).concat(" NTFS ACE(s) could not be evaluated (object / callback /"));
            text::push_line(&mut out, "      conditional / vendor-specific). The displayed effective".to_owned());
            text::push_line(&mut out, "      permission is a LOWER-CONFIDENCE APPROXIMATION — a hidden Deny".to_owned());
            text::push_line(&mut out, "      among them could change the result. Risk findings are flagged".to_owned());
            text::push_line(&mut out, "      'incomplete' for this path.".to_owned());
        },
        PermissionDiagnostic::DomainGroupRecursionIncomplete => {
            text::push_line(&mut out, lead_of(d).to_owned().concat("Group resolution ran through the SAM/LSA fallback (no LDAP)."));
            text::push_line(&mut out, "      NetUserGetGroups returns only direct global groups — nested".to_owned());
            text::push_line(&mut out, "      domain groups are not recursively resolved. ACEs targeting".to_owned());
            text::push_line(&mut out, "      deeply nested groups may be missed.".to_owned());
        },
        PermissionDiagnostic::IdentityDisabled => {
            text::push_line(&mut out, lead_of(d).to_owned().concat("Identity is flagged as disabled in AD (ACCOUNTDISABLE)."));
            text::push_line(&mut out, "      Computed rights are ACL-theoretically correct, but the".to_owned());
            text::push_line(&mut out, "      account normally cannot authenticate / access SMB.".to_owned());
        },
        PermissionDiagnostic::IdentityNotInConfiguredLdapBase => {
            text::push_line(&mut out, lead_of(d).to_owned().concat("Identity was resolved via Windows LSA but the configured"));
            text::push_line(&mut out, "      LDAP base DN does not index that SID (typical for multi-".to_owned());
            text::push_line(&mut out, "      domain forests or trusted domains). Domain group recursion".to_owned());
            text::push_line(&mut out, "      ran only through the user's home domain — nested cross-".to_owned());
            text::push_line(&mut out, "      domain memberships may be missing. Treat as incomplete.".to_owned());
        },
        PermissionDiagnostic::IdentityDisabledStatusUnknown => {
            text::push_line(&mut out, lead_of(d).to_owned().concat("The 'disabled' flag for this identity could not be"));
            text::push_line(&mut out, "      determined (SAM/LSA fallback without NetUserGetInfo, or".to_owned());
            text::push_line(&mut out, "      LDAP did not return the user object). Computed rights are".to_owned());
            text::push_line(&mut out, "      ACL-theoretically correct, but whether the account is".to_owned());
            text::push_line(&mut out, "      enabled is unknown.".to_owned());
        },
        PermissionDiagnostic::IdentityLookupFailed { reason } => {
            text::push_line(&mut out, lead_of(d).to_owned().concat("LDAP identity lookup failed: ").concat(reason.as_str()).concat("."));
            text::push_line(&mut out, "      The analysis ran with a placeholder identity and an empty".to_owned());
            text::push_line(&mut out, "      token; ACEs targeting domain groups may be missing. Treat".to_owned());
            text::push_line(&mut out, "      as incomplete.".to_owned());
        },
        PermissionDiagnostic::GroupResolutionFailed { reason } => {
            text::push_line(&mut out, lead_of(d).to_owned().concat("Recursive group resolution failed or was skipped: ").concat(reason.as_str()).concat("."));
            text::push_line(&mut out, "      ACEs on domain groups may be missing from the computed".to_owned());
            text::push_line(&mut out, "      effective right. Treat as incomplete.".to_owned());
        },
        PermissionDiagnostic::OwnerRightsAceApplied => {
            text::push_line(&mut out, lead_of(d).to_owned().concat("OWNER RIGHTS (S-1-3-4) ACE present and the identity is the"));
            text::push_line(&mut out, "      object's owner. That DACL entry governs the owner's rights;".to_owned());
            text::push_line(&mut out, "      the implicit READ_CONTROL + WRITE_DAC owner grant was".to_owned());
            text::push_line(&mut out, "      suppressed. The evaluation is exact — informational only.".to_owned());
        },
        PermissionDiagnostic::IdentityResolvedViaForeignSecurityPrincipal => {
            text::push_line(&mut out, lead_of(d).to_owned().concat("Identity is a trust-forest principal found as a Foreign"));
            text::push_line(&mut out, "      Security Principal object in the home domain. Home-domain".to_owned());
            text::push_line(&mut out, "      groups were resolved through the FSP — but the principal's".to_owned());
            text::push_line(&mut out, "      memberships in its own forest are unknown. Treat as".to_owned());
            text::push_line(&mut out, "      incomplete.".to_owned());
        },
        PermissionDiagnostic::GroupResolutionViaGlobalCatalog => {
            text::push_line(&mut out, lead_of(d).to_owned().concat("Group memberships were resolved through a Global Catalog"));
            text::push_line(&mut out, "      bind. Only universal group memberships replicate fully to".to_owned());
            text::push_line(&mut out, "      the GC — global and domain-local memberships of foreign".to_owned());
            text::push_line(&mut out, "      domains can be missing. Treat as incomplete.".to_owned());
        },
        PermissionDiagnostic::PersistedEvidenceDecodeFailed { detail } => {
            text::push_line(&mut out, lead_of(d).to_owned().concat("A persisted (historical) row could not be fully decoded:"));
            text::push_line(&mut out, "      ".to_owned().concat(detail.as_str()).concat("."));
            text::push_line(&mut out, "      The reconstructed result may be less complete than it was".to_owned());
            text::push_line(&mut out, "      originally stored. Treat as incomplete.".to_owned());
        },
        PermissionDiagnostic::SidHistoryPresent { count } => {
            text::push_line(&mut out, lead_of(d).to_owned().concat("This identity carries ").concat(text::decimal_text(*count as u64).as_str()).concat(" historical SID(s) (sIDHistory)."));
            text::push_line(&mut out, "      ACEs that reference a historical SID are not evaluated, but".to_owned());
            text::push_line(&mut out, "      the real logon token still includes it — effective rights".to_owned());
            text::push_line(&mut out, "      may be understated. Treat as incomplete.".to_owned());
        },
        PermissionDiagnostic::SidHistoryEvaluated { .. } => {
            text::push_line(&mut out, lead_of(d).to_owned().concat(d.summary().as_str()));
        },
        PermissionDiagnostic::GroupSidHistoryEvaluated { .. } => {
            text::push_line(&mut out, lead_of(d).to_owned().concat(d.summary().as_str()));
        },
        PermissionDiagnostic::GroupSidHistoryPresent { .. } => {
            text::push_line(&mut out, lead_of(d).to_owned().concat(d.summary().as_str()));
        },
        PermissionDiagnostic::TrustBoundaryEffectsNotModeled => {
            text::push_line(&mut out, lead_of(d).to_owned().concat("Identity resolved across a domain / trust boundary (foreign"));
            text::push_line(&mut out, "      security principal, or outside the configured LDAP base).".to_owned());
            text::push_line(&mut out, "      If that boundary is a forest trust, SID filtering /".to_owned());
            text::push_line(&mut out, "      quarantine and Selective Authentication may reduce actual".to_owned());
            text::push_line(&mut out, "      access — these runtime trust effects are not modeled.".to_owned());
        },
        PermissionDiagnostic::MembersViaPrimaryGroupIncluded { .. } => {
            text::push_line(&mut out, lead_of(d).to_owned().concat(d.summary().as_str()));
        },
        PermissionDiagnostic::GroupMemberEnumerationIncomplete { .. } => {
            text::push_line(&mut out, lead_of(d).to_owned().concat(d.summary().as_str()));
        },
        PermissionDiagnostic::UniversalGroupCrossDomainMembersNotVisible => {
            text::push_line(&mut out, lead_of(d).to_owned().concat(d.summary().as_str()));
        },
    }
    assert(text::texts(out@) =~= marker_lines(*d));
    out
}

/// The lines of markers.
pub open spec fn all_marker_lines(diagnostics: Seq<PermissionDiagnostic>) -> Seq<Seq<char>>
    decreases diagnostics.len(),
{
    if diagnostics.len() == 0 {
        Seq::empty()
    } else {
        all_marker_lines(diagnostics.drop_last()) + marker_lines(diagnostics.last())
    }
}

/// The section on markers; none without them.
pub open spec fn diagnostics_lines(diagnostics: Seq<PermissionDiagnostic>) -> Seq<Seq<char>> {
    if diagnostics.len() == 0 {
        Seq::empty()
    } else {
        section("Diagnostics (structured)"@) + all_marker_lines(diagnostics)
    }
}

/// Adds the section on markers.
fn push_diagnostics_lines(out: &mut Vec<String>, diagnostics: &Vec<PermissionDiagnostic>)
    ensures
        text::texts(final(out)@) == text::texts(old(out)@) + diagnostics_lines(diagnostics@),
{
    let ghost start = text::texts(out@);
    if diagnostics.len() == 0 {
        assert(start + diagnostics_lines(diagnostics@) =~= start);
        return;
    }
    push_section(out, "Diagnostics (structured)");
    let ghost before = text::texts(out@);
    assert(before + all_marker_lines(diagnostics@.take(0)) =~= before);
    for i in 0..diagnostics.len()
        invariant
            text::texts(out@) == before + all_marker_lines(diagnostics@.take(i as int)),
    {
        assert(diagnostics@.take(i + 1).drop_last() =~= diagnostics@.take(i as int));
        text::add_lines(out, lines_of_marker(&diagnostics[i]));
        assert(text::texts(out@) =~= before + all_marker_lines(diagnostics@.take(i + 1)));
    }
    assert(diagnostics@.take(diagnostics@.len() as int) =~= diagnostics@);
    assert(text::texts(out@) =~= start + diagnostics_lines(diagnostics@));
}

/// The line of an entry that belongs to the token.
pub open spec fn match_line(a: AceEntry, rights: Map<u32, NormalizedRights>) -> Seq<char> {
    "  "@ + kind_text(a.kind) + " "@ + (if a.inherited {
        "[inherited]"@
    } else {
        "[explicit] "@
    }) + "  "@ + a.sid@ + "  →  "@ + rights[a.mask.0].display_name@ + " ("@ + text::mask_text(
        a.mask.0,
    ) + ")"@
}

/// The section on entries that belong to the token.
pub open spec fn match_lines(aces: Seq<AceEntry>, rights: Map<u32, NormalizedRights>) -> Seq<
    Seq<char>,
> {
    section("Matching ACEs (for this identity)"@) + (if aces.len() == 0 {
        seq!["  (none)"@]
    } else {
        aces.map_values(|a: AceEntry| match_line(a, rights))
    })
}

/// Adds the section on entries that belong to the token.
fn push_matches(out: &mut Vec<String>, aces: &Vec<AceEntry>, rights: &RightsTable)
    requires
        knows_aces(rights@, aces@),
    ensures
        text::texts(final(out)@) == text::texts(old(out)@) + match_lines(aces@, rights@),
{
    let ghost start = text::texts(out@);
    push_section(out, "Matching ACEs (for this identity)");
    if aces.len() == 0 {
        text::push_line(out, "  (none)".to_owned());
        assert(text::texts(out@) =~= start + match_lines(aces@, rights@));
        return;
    }
    let ghost before = text::texts(out@);
    let ghost rows = aces@.map_values(|a: AceEntry| match_line(a, rights@));
    assert(before + rows.take(0) =~= before);
    for i in 0..aces.len()
        invariant
            knows_aces(rights@, aces@),
            rows == aces@.map_values(|a: AceEntry| match_line(a, rights@)),
            text::texts(out@) == before + rows.take(i as int),
    {
        let a: &AceEntry = &aces[i];
        let scope: &str = if a.inherited {
            "[inherited]"
        } else {
            "[explicit] "
        };
        text::push_line(
            out,
            "  ".to_owned().concat(kind_name(a.kind)).concat(" ").concat(scope).concat(
                "  ",
            ).concat(a.sid.0.as_str()).concat("  →  ").concat(
                rights_of(rights, a.mask.0).display_name.as_str(),
            ).concat(" (").concat(text::mask_hex(a.mask.0).as_str()).concat(")"),
        );
        assert(text::texts(out@) =~= before + rows.take(i + 1));
    }
    assert(text::texts(out@) =~= start + match_lines(aces@, rights@));
}

/// The section on the effective rights.
pub open spec fn rights_lines(p: EffectivePermission, rights: Map<u32, NormalizedRights>) -> Seq<
    Seq<char>,
> {
    section("Effective Rights"@) + seq![
        "  NTFS    : "@ + rights[p.ntfs_mask.0].description@,
        match p.share_mask {
            Some(m) => "  Share   : "@ + rights[m.0].description@,
            None => "  Share   : (not specified)"@,
        },
        "  Result  : "@ + rights[p.effective_mask.0].description@,
    ]
}

/// Adds the section on the effective rights.
fn push_rights(out: &mut Vec<String>, p: &EffectivePermission, rights: &RightsTable)
    requires
        rights::covers(rights@, *p),
    ensures
        text::texts(final(out)@) == text::texts(old(out)@) + rights_lines(*p, rights@),
{
    let ghost start = text::texts(out@);
    push_section(out, "Effective Rights");
    text::push_line(
        out,
        "  NTFS    : ".to_owned().concat(rights_of(rights, p.ntfs_mask.0).description.as_str()),
    );
    match p.share_mask {
        Some(m) => text::push_line(
            out,
            "  Share   : ".to_owned().concat(rights_of(rights, m.0).description.as_str()),
        ),
        None => text::push_line(out, "  Share   : (not specified)".to_owned()),
    }
    text::push_line(
        out,
        "  Result  : ".to_owned().concat(
            rights_of(rights, p.effective_mask.0).description.as_str(),
        ),
    );
    assert(text::texts(out@) =~= start + rights_lines(*p, rights@));
}

/// The section on the explanation: its steps, numbered from one on.
pub open spec fn explanation_lines(steps: Seq<Seq<char>>) -> Seq<Seq<char>> {
    section("Explanation Path"@) + Seq::new(
        steps.len(),
        |i: int| "  "@ + text::decimal((i + 1) as nat) + ". "@ + steps[i],
    )
}

/// Adds the section on the explanation.
fn push_explanation(out: &mut Vec<String>, steps: &Vec<String>)
    ensures
        text::texts(final(out)@) == text::texts(old(out)@) + explanation_lines(
            text::texts(steps@),
        ),
{
    let ghost start = text::texts(out@);
    push_section(out, "Explanation Path");
    let ghost before = text::texts(out@);
    let ghost all = text::texts(steps@);
    let ghost rows = Seq::new(
        all.len(),
        |i: int| "  "@ + text::decimal((i + 1) as nat) + ". "@ + all[i],
    );
    assert(before + rows.take(0) =~= before);
    for i in 0..steps.len()
        invariant
            all == text::texts(steps@),
            rows == Seq::new(
                all.len(),
                |i: int| "  "@ + text::decimal((i + 1) as nat) + ". "@ + all[i],
            ),
            text::texts(out@) == before + rows.take(i as int),
    {
        text::push_line(
            out,
            "  ".to_owned().concat(text::decimal_text((i + 1) as u64).as_str()).concat(
                ". ",
            ).concat(steps[i].as_str()),
        );
        assert(rows[i as int] == "  "@ + text::decimal((i + 1) as nat) + ". "@
            + steps@[i as int]@);
        assert(text::texts(out@) =~= before + rows.take(i + 1));
    }
    assert(text::texts(out@) =~= start + explanation_lines(all));
}

/// The report of an analysis.
pub open spec fn report_text(
    fso: FileSystemObject,
    user_input: Seq<char>,
    p: EffectivePermission,
    memberships: Seq<GroupMembership>,
    ad_connected: bool,
    rights: Map<u32, NormalizedRights>,
) -> Seq<Seq<char>> {
    title_lines() + identity_lines(fso.path@, p.identity, user_input, ad_connected) + group_lines(
        memberships,
    ) + dacl_lines(fso, rights) + unsupported_lines(fso.unsupported_aces@) + diagnostics_lines(
        p.diagnostics@,
    ) + match_lines(p.matched_aces@, rights) + rights_lines(p, rights) + explanation_lines(
        text::texts(p.path_explanation.steps@),
    ) + seq![""@, scan::heavy_line(), ""@]
}

/// Writes the report of an analysis, line by line. `rights` names the masks that it
/// shows.
pub fn report_lines(
    fso: &FileSystemObject,
    user_input: &str,
    p: &EffectivePermission,
    memberships: &[GroupMembership],
    ad_connected: bool,
    rights: &RightsTable,
) -> (r: Vec<String>)
    requires
        rights::covers(rights@, *p),
        knows_aces(rights@, fso.dacl@),
        knows_aces(rights@, p.matched_aces@),
    ensures
        text::texts(r@) == report_text(
            *fso,
            user_input@,
            *p,
            memberships@,
            ad_connected,
            rights@,
        ),
{
    let mut out: Vec<String> = Vec::new();
    assert(text::texts(out@) =~= Seq::empty());
    text::push_line(&mut out, "".to_owned());
    text::push_line(&mut out, heavy());
    text::push_line(
        &mut out,
        "  AD Permission Analyzer  ·  Effective Rights Report".to_owned(),
    );
    text::push_line(&mut out, heavy());
    assert(text::texts(out@) =~= title_lines());
    push_identity(&mut out, fso.path.0.as_str(), &p.identity, user_input, ad_connected);
    push_groups(&mut out, memberships);
    push_dacl(&mut out, fso, rights);
    push_unsupported(&mut out, &fso.unsupported_aces);
    push_diagnostics_lines(&mut out, &p.diagnostics);
    push_matches(&mut out, &p.matched_aces, rights);
    push_rights(&mut out, p, rights);
    push_explanation(&mut out, &p.path_explanation.steps);
    let ghost before = text::texts(out@);
    text::push_line(&mut out, "".to_owned());
    text::push_line(&mut out, heavy());
    text::push_line(&mut out, "".to_owned());
    assert(text::texts(out@) =~= before + seq![""@, scan::heavy_line(), ""@]);
    out
}

/// The name of a severity.
pub open spec fn severity_name(s: RiskSeverity) -> Seq<char> {
    match s {
        RiskSeverity::Critical => "CRITICAL"@,
        RiskSeverity::High => "HIGH"@,
        RiskSeverity::Medium => "MEDIUM"@,
        RiskSeverity::Low => "LOW"@,
        RiskSeverity::Info => "INFO"@,
    }
}

/// Names a severity.
pub fn severity_label(s: RiskSeverity) -> (r: &'static str)
    ensures
        r@ == severity_name(s),
{
    match s {
        RiskSeverity::Critical => "CRITICAL",
        RiskSeverity::High => "HIGH",
        RiskSeverity::Medium => "MEDIUM",
        RiskSeverity::Low => "LOW",
        RiskSeverity::Info => "INFO",
    }
}

/// The lines of a finding. One from an incomplete evaluation is flagged.
pub open spec fn finding_lines(f: RiskFinding) -> Seq<Seq<char>> {
    seq![
        "  ["@ + text::padded(severity_name(f.severity), 8) + "]  "@ + text::padded(
            f.rule_id@,
            20,
        ) + "  "@ + f.description@ + (if f.incomplete {
            "  [INCOMPLETE]"@
        } else {
            ""@
        }),
        "              "@ + (match f.affected_path {
            Some(p) => p@,
            None => "(no path)"@,
        }),
    ]
}

/// The lines of findings.
pub open spec fn all_finding_lines(findings: Seq<RiskFinding>) -> Seq<Seq<char>>
    decreases findings.len(),
{
    if findings.len() == 0 {
        Seq::empty()
    } else {
        all_finding_lines(findings.drop_last()) + finding_lines(findings.last())
    }
}

/// The section on findings.
pub open spec fn findings_text(findings: Seq<RiskFinding>) -> Seq<Seq<char>> {
    section("Risk Findings ("@ + text::decimal(findings.len()) + ")"@) + (if findings.len() == 0 {
        seq!["  (none)"@]
    } else {
        all_finding_lines(findings)
    })
}

/// Writes the section on findings, line by line.
pub fn risk_findings_lines(findings: &[RiskFinding]) -> (r: Vec<String>)
    ensures
        text::texts(r@) == findings_text(findings@),
{
    let mut out: Vec<String> = Vec::new();
    assert(text::texts(out@) =~= Seq::empty());
    let title: String = "Risk Findings (".to_owned().concat(
        text::decimal_text(findings.len() as u64).as_str(),
    ).concat(")");
    push_section(&mut out, title.as_str());
    assert(text::texts(out@) =~= section(title@));
    if findings.len() == 0 {
        text::push_line(&mut out, "  (none)".to_owned());
        assert(text::texts(out@) =~= findings_text(findings@));
        return out;
    }
    let ghost before = text::texts(out@);
    assert(before + all_finding_lines(findings@.take(0)) =~= before);
    for i in 0..findings.len()
        invariant
            text::texts(out@) == before + all_finding_lines(findings@.take(i as int)),
    {
        assert(findings@.take(i + 1).drop_last() =~= findings@.take(i as int));
        let f: &RiskFinding = &findings[i];
        let path: &str = match &f.affected_path {
            Some(p) => p.0.as_str(),
            None => "(no path)",
        };
        let flag: &str = if f.incomplete {
            "  [INCOMPLETE]"
        } else {
            ""
        };
        text::push_line(
            &mut out,
            "  [".to_owned().concat(text::pad(severity_label(f.severity), 8).as_str()).concat(
                "]  ",
            ).concat(text::pad(f.rule_id.as_str(), 20).as_str()).concat("  ").concat(
                f.description.as_str(),
            ).concat(flag),
        );
        text::push_line(&mut out, "              ".to_owned().concat(path));
        assert(text::texts(out@) =~= before + all_finding_lines(findings@.take(i + 1)));
    }
    assert(findings@.take(findings@.len() as int) =~= findings@);
    out
}

/// The rights are told layer by layer: behind "NTFS" stand those of the NTFS mask, behind
/// "Share" those of the share mask, or that there is none, and behind "Result" those of the
/// effective mask.
pub proof fn law_rights_are_told_by_layer(
    p: EffectivePermission,
    rights: Map<u32, NormalizedRights>,
)
    ensures
        ({
            let lines = rights_lines(p, rights);
            &&& lines.contains("  NTFS    : "@ + rights[p.ntfs_mask.0].description@)
            &&& p.share_mask matches Some(m) ==> lines.contains(
                "  Share   : "@ + rights[m.0].description@,
            )
            &&& p.share_mask is None ==> lines.contains("  Share   : (not specified)"@)
            &&& lines.contains("  Result  : "@ + rights[p.effective_mask.0].description@)
            &&& lines.len() == 6
        }),
{
    let lines = rights_lines(p, rights);
    assert(lines[3] == "  NTFS    : "@ + rights[p.ntfs_mask.0].description@);
    assert(lines[4] == (match p.share_mask {
        Some(m) => "  Share   : "@ + rights[m.0].description@,
        None => "  Share   : (not specified)"@,
    }));
    assert(lines[5] == "  Result  : "@ + rights[p.effective_mask.0].description@);
}

/// The line of an entry tells whether it allows or denies, whether it was inherited, the name
/// of its rights, and at its end the trustee.
pub proof fn law_entry_line_tells_the_entry(a: AceEntry, rights: Map<u32, NormalizedRights>)
    ensures
        ({
            let line = ace_line(a, rights);
            &&& a.kind == AceKind::Allow ==> ("  "@ + "Allow"@).is_prefix_of(line)
            &&& a.kind == AceKind::Deny ==> ("  "@ + "DENY "@).is_prefix_of(line)
            &&& text::occurs_in(
                if a.inherited {
                    "inherited"@
                } else {
                    "explicit "@
                },
                line,
            )
            &&& text::occurs_in(rights[a.mask.0].display_name@, line)
            &&& a.sid@.is_suffix_of(line)
        }),
{
    let k = "  "@ + kind_text(a.kind);
    let scope = if a.inherited {
        "inherited"@
    } else {
        "explicit "@
    };
    let name = rights[a.mask.0].display_name@;
    let wide = text::padded(name, 13);
    lemma_entry_parts(k, scope, wide, a.sid@);
    text::law_padding_keeps_the_text(name, 13);
    assert(wide =~= name + wide.skip(name.len() as int));
    text::lemma_first_part_leads(name, wide.skip(name.len() as int));
    text::lemma_occurs_transitive(name, wide, ace_line(a, rights));
}

/// The parts of the line of an entry.
proof fn lemma_entry_parts(k: Seq<char>, scope: Seq<char>, name: Seq<char>, sid: Seq<char>)
    ensures
        ({
            let line = k + "  "@ + scope + "  "@ + name + "  "@ + sid;
            &&& k.is_prefix_of(line)
            &&& text::occurs_in(scope, line)
            &&& text::occurs_in(name, line)
            &&& sid.is_suffix_of(line)
        }),
{
    let gap = "  "@;
    let line = k + gap + scope + gap + name + gap + sid;
    text::lemma_part_occurs(k + gap, scope, gap + name + gap + sid);
    assert(line =~= k + gap + scope + (gap + name + gap + sid));
    text::lemma_part_occurs(k + gap + scope + gap, name, gap + sid);
    assert(line =~= k + gap + scope + gap + name + (gap + sid));
    assert(line.subrange(0, k.len() as int) =~= k);
    assert(line.subrange(line.len() - sid.len(), line.len() as int) =~= sid);
}

/// The section on the DACL tells the owner, the inheritance, and every entry in its order. A
/// DACL without entries is told by its state.
pub proof fn law_dacl_is_told(fso: FileSystemObject, rights: Map<u32, NormalizedRights>, i: int)
    ensures
        ({
            let lines = dacl_lines(fso, rights);
            &&& fso.owner_sid matches Some(s) ==> lines.contains("  Owner       : "@ + s@)
            &&& fso.owner_sid is None ==> lines.contains("  Owner       : "@ + "(unknown)"@)
            &&& fso.inheritance_disabled ==> lines.contains(
                "  Inheritance : "@ + "Protected (inheritance disabled)"@,
            )
            &&& !fso.inheritance_disabled ==> lines.contains(
                "  Inheritance : "@ + "Active (inheriting from parent)"@,
            )
            &&& fso.null_dacl ==> lines.contains(
                "  "@ + "(NULL DACL — unrestricted / Full Control for everyone)"@,
            )
            &&& !fso.null_dacl && fso.dacl@.len() == 0 ==> lines.contains(
                "  "@ + "(empty DACL — no access)"@,
            )
            &&& !fso.null_dacl && 0 <= i < fso.dacl@.len() ==> lines.len() == 8 + fso.dacl@.len()
                && lines[8 + i] == ace_line(fso.dacl@[i], rights)
        }),
{
    let lines = dacl_lines(fso, rights);
    assert(lines[3] == "  Owner       : "@ + (match fso.owner_sid {
        Some(s) => s@,
        None => "(unknown)"@,
    }));
    assert(lines[4] == "  Inheritance : "@ + (if fso.inheritance_disabled {
        "Protected (inheritance disabled)"@
    } else {
        "Active (inheriting from parent)"@
    }));
    if let Some(label) = dacl_state(fso.null_dacl, fso.dacl@.len() == 0) {
        assert(lines[5] == "  "@ + label);
    }
}

/// Every group is told with its SID and whether the membership is direct, and their number.
pub proof fn law_groups_are_told(memberships: Seq<GroupMembership>, i: int)
    requires
        0 <= i < memberships.len(),
    ensures
        group_lines(memberships).len() == 3 + memberships.len(),
        text::occurs_in(text::decimal(memberships.len()), group_lines(memberships)[1]),
        group_lines(memberships)[3 + i] == "  ["@ + (if memberships[i].direct {
            "direct    "@
        } else {
            "transitive"@
        }) + "]  "@ + memberships[i].group_sid@,
{
    let n = text::decimal(memberships.len());
    let title = "Resolved Groups ("@ + n + ")"@;
    text::lemma_part_occurs("Resolved Groups ("@, n, ")"@);
    text::lemma_first_part_leads("  "@, title);
    text::lemma_occurs_transitive(n, title, "  "@ + title);
    assert(group_lines(memberships)[1] == "  "@ + title);
}

/// The identity is told: the path, the name, the SID, whether it is disabled, and that the
/// directory could not be asked.
pub proof fn law_identity_is_told(
    path: Seq<char>,
    i: Identity,
    user_input: Seq<char>,
    ad_connected: bool,
)
    ensures
        ({
            let lines = identity_lines(path, i, user_input, ad_connected);
            &&& lines[3] == "  Path      : "@ + path
            &&& lines[4] == "  User      : "@ + scan::shown_identity(i, user_input)
            &&& lines[5] == "            : ("@ + i.sid@ + ")"@
            &&& i.disabled ==> ("  Status    : "@ + "DISABLED"@).is_prefix_of(lines[6])
            &&& !i.disabled ==> ("  Status    : "@ + "Active"@).is_prefix_of(lines[6])
            &&& i.kind.name().is_suffix_of(lines[6])
            &&& lines.len() == (if ad_connected {
                7int
            } else {
                10
            })
        }),
{
    let status = "  Status    : "@ + (if i.disabled {
        "DISABLED"@
    } else {
        "Active"@
    });
    let kind = "  ·  Kind: "@;
    text::lemma_first_part_leads(status, kind + i.kind.name());
    text::lemma_assoc(status, kind, i.kind.name());
    text::lemma_first_part_leads(status + kind, i.kind.name());
    let lines = identity_lines(path, i, user_input, ad_connected);
    assert(lines[6] == status + kind + i.kind.name());
}

/// An entry that could not be interpreted is told with its type, its flags and its mask.
pub proof fn law_unsupported_entry_is_told(aces: Seq<UnsupportedAce>, i: int)
    requires
        0 <= i < aces.len(),
    ensures
        unsupported_lines(Seq::empty()).len() == 0,
        unsupported_lines(aces).len() == 8 + aces.len(),
        text::occurs_in(text::decimal(aces.len()), unsupported_lines(aces)[3]),
        ({
            let line = unsupported_lines(aces)[8 + i];
            &&& text::occurs_in(text::decimal(aces[i].ace_type as nat), line)
            &&& text::occurs_in("  0x"@ + text::hex(aces[i].flags as nat, 2, true), line)
            &&& text::mask_text(aces[i].mask).is_suffix_of(line)
        }),
{
    let u = aces[i];
    lemma_unsupported_parts(
        text::decimal(u.ace_type as nat),
        text::hex(u.flags as nat, 2, true),
        text::mask_text(u.mask),
    );
    text::lemma_part_occurs(
        "  [!] "@,
        text::decimal(aces.len()),
        " ACE(s) on this path could not be interpreted."@,
    );
}

/// The parts of the line of an entry that could not be interpreted.
proof fn lemma_unsupported_parts(n: Seq<char>, flags: Seq<char>, mask: Seq<char>)
    ensures
        ({
            let line = "  "@ + text::padded(n, 9) + "  0x"@ + flags + "     "@ + mask;
            &&& text::occurs_in(n, line)
            &&& text::occurs_in("  0x"@ + flags, line)
            &&& mask.is_suffix_of(line)
        }),
{
    let wide = text::padded(n, 9);
    text::lemma_padded_occurs(n, 9);
    lemma_marked_parts("  "@, wide, "  0x"@, flags, "     "@, mask);
    text::lemma_occurs_transitive(
        n,
        wide,
        "  "@ + wide + "  0x"@ + flags + "     "@ + mask,
    );
}

/// The parts of a line of six parts.
proof fn lemma_marked_parts(
    a: Seq<char>,
    b: Seq<char>,
    c: Seq<char>,
    d: Seq<char>,
    e: Seq<char>,
    f: Seq<char>,
)
    ensures
        text::occurs_in(b, a + b + c + d + e + f),
        text::occurs_in(c + d, a + b + c + d + e + f),
        f.is_suffix_of(a + b + c + d + e + f),
{
    let line = a + b + c + d + e + f;
    text::lemma_part_occurs(a, b, c + d + e + f);
    assert(line =~= a + b + (c + d + e + f));
    text::lemma_part_occurs(a + b, c + d, e + f);
    assert(line =~= a + b + (c + d) + (e + f));
    text::lemma_first_part_leads(a + b + c + d + e, f);
}

/// A marker that means a gap is led by an exclamation mark, and every other one is not.
pub proof fn law_gaps_are_led_by_a_mark(d: PermissionDiagnostic)
    ensures
        d.marks_gap() ==> lead(d) == "  [!] "@,
        !d.marks_gap() ==> lead(d) == "  [i] "@,
{
}

/// Every marker is told, in their order.
pub proof fn law_every_marker_is_told(a: Seq<PermissionDiagnostic>, d: PermissionDiagnostic)
    ensures
        all_marker_lines(a.push(d)) == all_marker_lines(a) + marker_lines(d),
        all_marker_lines(Seq::empty()).len() == 0,
        diagnostics_lines(a.push(d)).len() == 3 + all_marker_lines(a).len() + marker_lines(d).len(),
        diagnostics_lines(Seq::empty()).len() == 0,
{
    assert(a.push(d).drop_last() =~= a);
}

/// An entry that belongs to the token is told with its trustee, its rights and its mask, and
/// without any of them that is told.
pub proof fn law_matching_entries_are_told(
    aces: Seq<AceEntry>,
    rights: Map<u32, NormalizedRights>,
    i: int,
)
    requires
        0 <= i < aces.len(),
    ensures
        match_lines(Seq::empty(), rights).last() == "  (none)"@,
        match_lines(aces, rights).len() == 3 + aces.len(),
        ({
            let a = aces[i];
            let line = match_lines(aces, rights)[3 + i];
            &&& a.kind == AceKind::Allow ==> ("  "@ + "Allow"@).is_prefix_of(line)
            &&& a.kind == AceKind::Deny ==> ("  "@ + "DENY "@).is_prefix_of(line)
            &&& text::occurs_in(
                if a.inherited {
                    "[inherited]"@
                } else {
                    "[explicit] "@
                },
                line,
            )
            &&& text::occurs_in(a.sid@, line)
            &&& text::occurs_in(rights[a.mask.0].display_name@, line)
            &&& text::occurs_in(text::mask_text(a.mask.0), line)
        }),
{
    let a = aces[i];
    let k = "  "@ + kind_text(a.kind);
    let scope = if a.inherited {
        "[inherited]"@
    } else {
        "[explicit] "@
    };
    lemma_match_parts(
        k,
        scope,
        a.sid@,
        rights[a.mask.0].display_name@,
        text::mask_text(a.mask.0),
    );
}

/// The parts of the line of an entry that belongs to the token.
proof fn lemma_match_parts(
    k: Seq<char>,
    scope: Seq<char>,
    sid: Seq<char>,
    name: Seq<char>,
    mask: Seq<char>,
)
    ensures
        ({
            let line = k + " "@ + scope + "  "@ + sid + "  →  "@ + name + " ("@ + mask + ")"@;
            &&& k.is_prefix_of(line)
            &&& text::occurs_in(scope, line)
            &&& text::occurs_in(sid, line)
            &&& text::occurs_in(name, line)
            &&& text::occurs_in(mask, line)
        }),
{
    let a = " "@;
    let b = "  "@;
    let c = "  →  "@;
    let d = " ("@;
    let e = ")"@;
    let line = k + a + scope + b + sid + c + name + d + mask + e;
    assert(line.subrange(0, k.len() as int) =~= k);
    text::lemma_part_occurs(k + a, scope, b + sid + c + name + d + mask + e);
    assert(line =~= k + a + scope + (b + sid + c + name + d + mask + e));
    text::lemma_part_occurs(k + a + scope + b, sid, c + name + d + mask + e);
    assert(line =~= k + a + scope + b + sid + (c + name + d + mask + e));
    text::lemma_part_occurs(k + a + scope + b + sid + c, name, d + mask + e);
    assert(line =~= k + a + scope + b + sid + c + name + (d + mask + e));
    text::lemma_part_occurs(k + a + scope + b + sid + c + name + d, mask, e);
}

/// Every step of the explanation is told in its order, behind its number from one on.
pub proof fn law_every_step_is_told(steps: Seq<Seq<char>>, i: int)
    requires
        0 <= i < steps.len(),
    ensures
        explanation_lines(steps).len() == 3 + steps.len(),
        explanation_lines(steps)[3 + i] == "  "@ + text::decimal((i + 1) as nat) + ". "@ + steps[i],
{
}

/// The report holds all its sections: a line of any of them is a line of the report.
pub proof fn law_report_holds_every_section(
    fso: FileSystemObject,
    user_input: Seq<char>,
    p: EffectivePermission,
    memberships: Seq<GroupMembership>,
    ad_connected: bool,
    rights: Map<u32, NormalizedRights>,
    line: Seq<char>,
)
    requires
        identity_lines(fso.path@, p.identity, user_input, ad_connected).contains(line)
            || group_lines(memberships).contains(line) || dacl_lines(fso, rights).contains(line)
            || unsupported_lines(fso.unsupported_aces@).contains(line) || diagnostics_lines(
            p.diagnostics@,
        ).contains(line) || match_lines(p.matched_aces@, rights).contains(line) || rights_lines(
            p,
            rights,
        ).contains(line) || explanation_lines(text::texts(p.path_explanation.steps@)).contains(
            line,
        ),
    ensures
        report_text(fso, user_input, p, memberships, ad_connected, rights).contains(line),
{
    let a = identity_lines(fso.path@, p.identity, user_input, ad_connected);
    let b = group_lines(memberships);
    let c = dacl_lines(fso, rights);
    let d = unsupported_lines(fso.unsupported_aces@);
    let e = diagnostics_lines(p.diagnostics@);
    let f = match_lines(p.matched_aces@, rights);
    let g = rights_lines(p, rights);
    let h = explanation_lines(text::texts(p.path_explanation.steps@));
    let t = title_lines();
    let z = seq![""@, scan::heavy_line(), ""@];
    text::lemma_line_in_both(t, a, line);
    text::lemma_line_in_both(t + a, b, line);
    text::lemma_line_in_both(t + a + b, c, line);
    text::lemma_line_in_both(t + a + b + c, d, line);
    text::lemma_line_in_both(t + a + b + c + d, e, line);
    text::lemma_line_in_both(t + a + b + c + d + e, f, line);
    text::lemma_line_in_both(t + a + b + c + d + e + f, g, line);
    text::lemma_line_in_both(t + a + b + c + d + e + f + g, h, line);
    text::lemma_line_in_both(t + a + b + c + d + e + f + g + h, z, line);
}

/// A finding is told with its severity, its rule, its description and its path, and flagged
/// exactly where it rests on an incomplete evaluation.
pub proof fn law_finding_is_told(f: RiskFinding)
    ensures
        finding_lines(f).len() == 2,
        text::occurs_in(severity_name(f.severity), finding_lines(f)[0]),
        text::occurs_in(f.rule_id@, finding_lines(f)[0]),
        text::occurs_in(f.description@, finding_lines(f)[0]),
        f.incomplete ==> "  [INCOMPLETE]"@.is_suffix_of(finding_lines(f)[0]),
        !f.incomplete ==> f.description@.is_suffix_of(finding_lines(f)[0]),
        f.affected_path matches Some(p) ==> p@.is_suffix_of(finding_lines(f)[1]),
{
    reveal_strlit("");
    let s = severity_name(f.severity);
    let sw = text::padded(s, 8);
    let r = f.rule_id@;
    let rw = text::padded(r, 20);
    let flag = if f.incomplete {
        "  [INCOMPLETE]"@
    } else {
        ""@
    };
    let line = finding_lines(f)[0];
    let a = "  ["@;
    let b = "]  "@;
    let c = "  "@;
    let d = f.description@;
    assert(line =~= a + sw + b + rw + c + d + flag);
    text::lemma_part_occurs(a, sw, b + rw + c + d + flag);
    assert(line =~= a + sw + (b + rw + c + d + flag));
    text::lemma_part_occurs(a + sw + b, rw, c + d + flag);
    assert(line =~= a + sw + b + rw + (c + d + flag));
    text::lemma_part_occurs(a + sw + b + rw + c, d, flag);
    text::lemma_first_part_leads(a + sw + b + rw + c + d, flag);
    if !f.incomplete {
        assert(line =~= a + sw + b + rw + c + d);
        text::lemma_first_part_leads(a + sw + b + rw + c, d);
    }
    text::law_padding_keeps_the_text(s, 8);
    assert(sw =~= s + sw.skip(s.len() as int));
    text::lemma_first_part_leads(s, sw.skip(s.len() as int));
    text::lemma_occurs_transitive(s, sw, line);
    text::law_padding_keeps_the_text(r, 20);
    assert(rw =~= r + rw.skip(r.len() as int));
    text::lemma_first_part_leads(r, rw.skip(r.len() as int));
    text::lemma_occurs_transitive(r, rw, line);
    if let Some(p) = f.affected_path {
        text::lemma_first_part_leads("              "@, p@);
    }
}

/// Every finding is told, in their order, and their number; without any that is told.
pub proof fn law_every_finding_is_told(a: Seq<RiskFinding>, f: RiskFinding)
    ensures
        all_finding_lines(a.push(f)) == all_finding_lines(a) + finding_lines(f),
        all_finding_lines(Seq::empty()).len() == 0,
        findings_text(a.push(f)).len() == 3 + all_finding_lines(a).len() + 2,
        findings_text(Seq::empty()).last() == "  (none)"@,
        text::occurs_in(text::decimal(a.len()), findings_text(a)[1]),
{
    assert(a.push(f).drop_last() =~= a);
    let n = text::decimal(a.len());
    let title = "Risk Findings ("@ + n + ")"@;
    text::lemma_part_occurs("Risk Findings ("@, n, ")"@);
    text::lemma_first_part_leads("  "@, title);
    text::lemma_occurs_transitive(n, title, "  "@ + title);
    assert(findings_text(a)[1] == "  "@ + title);
}

/// Severities are told by their names.
pub proof fn law_severities_have_their_names(s: RiskSeverity)
    ensures
        s == RiskSeverity::Critical ==> severity_name(s) == "CRITICAL"@,
        s == RiskSeverity::High ==> severity_name(s) == "HIGH"@,
        s == RiskSeverity::Medium ==> severity_name(s) == "MEDIUM"@,
        s == RiskSeverity::Low ==> severity_name(s) == "LOW"@,
        s == RiskSeverity::Info ==> severity_name(s) == "INFO"@,
{
}

/// The first line of a marker starts with its lead.
pub proof fn law_marker_starts_with_its_lead(d: PermissionDiagnostic)
    ensures
        marker_lines(d).len() > 0,
        lead(d).is_prefix_of(marker_lines(d)[0]),
{
    let line = marker_lines(d)[0];
    assert(line.subrange(0, lead(d).len() as int) =~= lead(d));
}

/// A number that a marker carries is told in its first line.
pub proof fn law_marker_tells_its_number(d: PermissionDiagnostic)
    ensures
        match d {
            PermissionDiagnostic::NonCanonicalDaclOrder { at_index } => text::occurs_in(
                text::decimal(at_index as nat),
                marker_lines(d)[0],
            ),
            PermissionDiagnostic::UnsupportedShareAces { count } => text::occurs_in(
                text::decimal(count as nat),
                marker_lines(d)[0],
            ),
            PermissionDiagnostic::UnsupportedNtfsAces { count } => text::occurs_in(
                text::decimal(count as nat),
                marker_lines(d)[0],
            ),
            PermissionDiagnostic::SidHistoryPresent { count } => text::occurs_in(
                text::decimal(count as nat),
                marker_lines(d)[0],
            ),
            PermissionDiagnostic::SidHistoryEvaluated { count } => text::occurs_in(
                text::decimal(count as nat),
                marker_lines(d)[0],
            ),
            PermissionDiagnostic::GroupSidHistoryEvaluated { groups, count } => text::occurs_in(
                text::decimal(count as nat),
                marker_lines(d)[0],
            ) && text::occurs_in(text::decimal(groups as nat), marker_lines(d)[0]),
            PermissionDiagnostic::GroupSidHistoryPresent { count } => text::occurs_in(
                text::decimal(count as nat),
                marker_lines(d)[0],
            ),
            PermissionDiagnostic::MembersViaPrimaryGroupIncluded { count } => text::occurs_in(
                text::decimal(count as nat),
                marker_lines(d)[0],
            ),
            _ => true,
        },
{
    let l = lead(d);
    let line = marker_lines(d)[0];
    crate::model::diagnostic::law_summary_shows_its_number(d);
    text::lemma_first_part_leads(l, d.sentence());
    match d {
        PermissionDiagnostic::NonCanonicalDaclOrder { at_index } => {
            text::lemma_part_occurs(
                l + "Non-canonical DACL ordering at ACE index "@,
                text::decimal(at_index as nat),
                "."@,
            );
        },
        PermissionDiagnostic::UnsupportedShareAces { count } => {
            text::lemma_part_occurs(
                l,
                text::decimal(count as nat),
                " share ACE(s) of unsupported type were skipped."@,
            );
        },
        PermissionDiagnostic::UnsupportedNtfsAces { count } => {
            text::lemma_part_occurs(
                l,
                text::decimal(count as nat),
                " NTFS ACE(s) could not be evaluated (object / callback /"@,
            );
        },
        PermissionDiagnostic::SidHistoryPresent { count } => {
            text::lemma_part_occurs(
                l + "This identity carries "@,
                text::decimal(count as nat),
                " historical SID(s) (sIDHistory)."@,
            );
        },
        PermissionDiagnostic::SidHistoryEvaluated { count } => {
            text::lemma_occurs_transitive(text::decimal(count as nat), d.sentence(), line);
        },
        PermissionDiagnostic::GroupSidHistoryEvaluated { groups, count } => {
            text::lemma_occurs_transitive(text::decimal(count as nat), d.sentence(), line);
            text::lemma_occurs_transitive(text::decimal(groups as nat), d.sentence(), line);
        },
        PermissionDiagnostic::GroupSidHistoryPresent { count } => {
            text::lemma_occurs_transitive(text::decimal(count as nat), d.sentence(), line);
        },
        PermissionDiagnostic::MembersViaPrimaryGroupIncluded { count } => {
            text::lemma_occurs_transitive(text::decimal(count as nat), d.sentence(), line);
        },
        _ => {},
    }
}

/// A reason that a marker carries is told.
pub proof fn law_marker_tells_its_reason(d: PermissionDiagnostic)
    ensures
        match d {
            PermissionDiagnostic::IdentityLookupFailed { reason } => text::occurs_in(
                reason@,
                marker_lines(d)[0],
            ),
            PermissionDiagnostic::GroupResolutionFailed { reason } => text::occurs_in(
                reason@,
                marker_lines(d)[0],
            ),
            PermissionDiagnostic::PersistedEvidenceDecodeFailed { detail } => text::occurs_in(
                detail@,
                marker_lines(d)[1],
            ),
            PermissionDiagnostic::GroupMemberEnumerationIncomplete { reason } => text::occurs_in(
                reason@,
                marker_lines(d)[0],
            ),
            _ => true,
        },
{
    let l = lead(d);
    crate::model::diagnostic::law_summary_shows_its_reason(d);
    text::lemma_first_part_leads(l, d.sentence());
    match d {
        PermissionDiagnostic::IdentityLookupFailed { reason } => {
            text::lemma_part_occurs(l + "LDAP identity lookup failed: "@, reason@, "."@);
        },
        PermissionDiagnostic::GroupResolutionFailed { reason } => {
            text::lemma_part_occurs(
                l + "Recursive group resolution failed or was skipped: "@,
                reason@,
                "."@,
            );
        },
        PermissionDiagnostic::PersistedEvidenceDecodeFailed { detail } => {
            text::lemma_part_occurs("      "@, detail@, "."@);
        },
        PermissionDiagnostic::GroupMemberEnumerationIncomplete { reason } => {
            text::lemma_occurs_transitive(reason@, d.sentence(), marker_lines(d)[0]);
        },
        _ => {},
    }
}

/// The first line of a marker that carries nothing tells its kind.
pub proof fn law_marker_tells_its_kind(d: PermissionDiagnostic)
    ensures
        d is DomainGroupRecursionIncomplete ==> marker_lines(d)[0] == lead(d)
            + "Group resolution ran through the SAM/LSA fallback (no LDAP)."@,
        d is IdentityDisabled ==> marker_lines(d)[0] == lead(d)
            + "Identity is flagged as disabled in AD (ACCOUNTDISABLE)."@,
        d is IdentityNotInConfiguredLdapBase ==> marker_lines(d)[0] == lead(d)
            + "Identity was resolved via Windows LSA but the configured"@,
        d is IdentityDisabledStatusUnknown ==> marker_lines(d)[0] == lead(d)
            + "The 'disabled' flag for this identity could not be"@,
        d is OwnerRightsAceApplied ==> marker_lines(d)[0] == lead(d)
            + "OWNER RIGHTS (S-1-3-4) ACE present and the identity is the"@,
        d is IdentityResolvedViaForeignSecurityPrincipal ==> marker_lines(d)[0] == lead(d)
            + "Identity is a trust-forest principal found as a Foreign"@,
        d is GroupResolutionViaGlobalCatalog ==> marker_lines(d)[0] == lead(d)
            + "Group memberships were resolved through a Global Catalog"@,
        d is TrustBoundaryEffectsNotModeled ==> marker_lines(d)[0] == lead(d)
            + "Identity resolved across a domain / trust boundary (foreign"@,
        d is UniversalGroupCrossDomainMembersNotVisible ==> marker_lines(d)[0] == lead(d)
            + d.sentence(),
{
}

} // verus!
