//! Markers that qualify a permission.

use vstd::prelude::*;

use crate::text;

verus! {

/// Structured marker attached to an effective permission or a report.
#[derive(Debug, Clone, PartialEq, Eq)]
pub enum PermissionDiagnostic {
    /// The DACL is not in canonical order; `at_index` is the first entry that breaks it.
    NonCanonicalDaclOrder { at_index: usize },
    /// Entries of the share DACL were skipped because of their type.
    UnsupportedShareAces { count: usize },
    /// Entries of the NTFS DACL could not be evaluated.
    UnsupportedNtfsAces { count: usize },
    /// Nested domain groups were not resolved because no directory was available.
    DomainGroupRecursionIncomplete,
    /// The account is disabled and normally cannot authenticate.
    IdentityDisabled,
    /// The identity is real, but the configured directory base does not index it.
    IdentityNotInConfiguredLdapBase,
    /// Whether the account is disabled could not be determined.
    IdentityDisabledStatusUnknown,
    /// The lookup of the identity failed for a technical reason.
    IdentityLookupFailed { reason: String },
    /// Recursive group resolution failed or was skipped.
    GroupResolutionFailed { reason: String },
    /// An OWNER RIGHTS entry replaced the implicit grant of the owner.
    OwnerRightsAceApplied,
    /// The identity was found as a Foreign Security Principal; its memberships in its own forest are unknown.
    IdentityResolvedViaForeignSecurityPrincipal,
    /// Memberships came from a Global Catalog, which holds universal groups only in full.
    GroupResolutionViaGlobalCatalog,
    /// A stored row could not be decoded in full.
    PersistedEvidenceDecodeFailed { detail: String },
    /// Historical SIDs of the identity that were not evaluated into the token.
    SidHistoryPresent { count: usize },
    /// Historical SIDs of the identity that were evaluated into the token.
    SidHistoryEvaluated { count: usize },
    /// Historical SIDs of token groups that were evaluated into the token.
    GroupSidHistoryEvaluated { groups: usize, count: usize },
    /// Historical SIDs of token groups that could not be evaluated.
    GroupSidHistoryPresent { count: usize },
    /// The identity lies beyond a trust boundary whose filters are not modelled.
    TrustBoundaryEffectsNotModeled,
    /// Members that were found through their primary group.
    MembersViaPrimaryGroupIncluded { count: usize },
    /// The members of a group could not be enumerated in full.
    GroupMemberEnumerationIncomplete { reason: String },
    /// Members of a universal group from other domains are not visible.
    UniversalGroupCrossDomainMembersNotVisible,
}

/// How much attention a marker deserves. Independent of whether the rights may
/// be wrong: an expected caveat marks a gap without raising alarm.
#[derive(Debug, Clone, Copy, PartialEq, Eq, Structural)]
pub enum DiagnosticSeverity {
    /// Correct, or expected context.
    Neutral,
    /// Worth a look.
    Notice,
    /// Likely a real gap.
    Concern,
}

impl PermissionDiagnostic {
    /// The reason of the marker in one sentence.
    pub open spec fn sentence(self) -> Seq<char> {
        match self {
            PermissionDiagnostic::NonCanonicalDaclOrder { at_index } => "Non-canonical DACL order (first at ACE #"@ + text::decimal(at_index as nat) + "); evaluated in stored order like Windows, may differ from canonical expectations."@,
            PermissionDiagnostic::UnsupportedShareAces { count } => text::decimal(count as nat) + " share ACE(s) of an unsupported type were skipped — the share mask is potentially incomplete."@,
            PermissionDiagnostic::UnsupportedNtfsAces { count } => text::decimal(count as nat) + " NTFS ACE(s) could not be evaluated (unsupported type, or a trustee SID that could not be read) — a hidden Deny among them could change the result."@,
            PermissionDiagnostic::DomainGroupRecursionIncomplete => "Group resolution used the SAM/LSA fallback (no LDAP); nested domain groups are not resolved recursively, ACEs on them may be missed."@,
            PermissionDiagnostic::IdentityDisabled => "Identity is flagged disabled in AD — rights are ACL-theoretically correct, but the account normally cannot authenticate."@,
            PermissionDiagnostic::IdentityNotInConfiguredLdapBase => "Identity resolved via LSA but the configured LDAP base DN does not index its SID; cross-domain nested memberships may be missing."@,
            PermissionDiagnostic::IdentityDisabledStatusUnknown => "The disabled flag for this identity could not be determined — rights are correct, but whether the account is enabled is unknown."@,
            PermissionDiagnostic::IdentityLookupFailed { reason } => "LDAP identity lookup failed ("@ + reason@ + "); analysis ran with a placeholder identity, ACEs on domain groups may be missing."@,
            PermissionDiagnostic::GroupResolutionFailed { reason } => "Recursive group resolution failed or was skipped ("@ + reason@ + "); ACEs on domain groups may be missing."@,
            PermissionDiagnostic::OwnerRightsAceApplied => "OWNER RIGHTS (S-1-3-4) ACE governs the owner's rights; the implicit READ_CONTROL + WRITE_DAC owner grant was suppressed. Exact — informational."@,
            PermissionDiagnostic::IdentityResolvedViaForeignSecurityPrincipal => "Identity is a trust-forest principal resolved via a Foreign Security Principal; its memberships in its own forest are unknown."@,
            PermissionDiagnostic::GroupResolutionViaGlobalCatalog => "Memberships came from a Global Catalog bind; only universal groups replicate fully to the GC, foreign-domain global/domain-local may be missing."@,
            PermissionDiagnostic::PersistedEvidenceDecodeFailed { detail } => "A persisted (historical) row could not be fully decoded ("@ + detail@ + "); the reconstructed result may be less complete than the original."@,
            PermissionDiagnostic::SidHistoryPresent { count } => "Identity carries "@ + text::decimal(count as nat) + " historical SID(s) (sIDHistory) that were NOT evaluated into the token — effective rights may be understated."@,
            PermissionDiagnostic::SidHistoryEvaluated { count } => text::decimal(count as nat) + " historical SID(s) (sIDHistory) of this identity were evaluated into the token — ACEs referencing an old SID match like in the real logon token (see the explanation path)."@,
            PermissionDiagnostic::GroupSidHistoryEvaluated { groups, count } => text::decimal(count as nat) + " historical SID(s) (sIDHistory) carried by "@ + text::decimal(groups as nat) + " token group(s) were evaluated into the token — ACEs referencing a migrated group's old SID match like in the real logon token (see the membership steps)."@,
            PermissionDiagnostic::GroupSidHistoryPresent { count } => text::decimal(count as nat) + " historical SID(s) (sIDHistory) on token groups could NOT be evaluated into the token — effective rights may be understated."@,
            PermissionDiagnostic::TrustBoundaryEffectsNotModeled => "Identity resolved across a domain/trust boundary; if it is a forest trust, SID filtering and Selective Authentication may reduce actual access (not modeled)."@,
            PermissionDiagnostic::MembersViaPrimaryGroupIncluded { count } => text::decimal(count as nat) + " member(s) were found via their primaryGroupID — accounts whose primary group is this group do not appear in the 'member' attribute and are included here so the count is complete."@,
            PermissionDiagnostic::GroupMemberEnumerationIncomplete { reason } => "Group members could not be enumerated completely ("@ + reason@ + "); the member list is a lower bound and may be missing entries."@,
            PermissionDiagnostic::UniversalGroupCrossDomainMembersNotVisible => "This is a universal group queried over a domain bind — members from other domains of the forest are not visible here, so in a multi-domain forest the list may be incomplete."@,
        }
    }

    /// One readable sentence for compact surfaces.
    pub fn summary(&self) -> (r: String)
        ensures
            r@ == self.sentence(),
    {
        match self {
            PermissionDiagnostic::NonCanonicalDaclOrder { at_index } => {
                let mut out: String = "Non-canonical DACL order (first at ACE #".to_owned();
                text::push_decimal(&mut out, *at_index as u64);
                out.append("); evaluated in stored order like Windows, may differ from canonical expectations.");
                out
            },
            PermissionDiagnostic::UnsupportedShareAces { count } => {
                let mut out: String = text::decimal_text(*count as u64);
                out.append(" share ACE(s) of an unsupported type were skipped — the share mask is potentially incomplete.");
                out
            },
            PermissionDiagnostic::UnsupportedNtfsAces { count } => {
                let mut out: String = text::decimal_text(*count as u64);
                out.append(" NTFS ACE(s) could not be evaluated (unsupported type, or a trustee SID that could not be read) — a hidden Deny among them could change the result.");
                out
            },
            PermissionDiagnostic::DomainGroupRecursionIncomplete => {
                "Group resolution used the SAM/LSA fallback (no LDAP); nested domain groups are not resolved recursively, ACEs on them may be missed.".to_owned()
            },
            PermissionDiagnostic::IdentityDisabled => {
                "Identity is flagged disabled in AD — rights are ACL-theoretically correct, but the account normally cannot authenticate.".to_owned()
            },
            PermissionDiagnostic::IdentityNotInConfiguredLdapBase => {
                "Identity resolved via LSA but the configured LDAP base DN does not index its SID; cross-domain nested memberships may be missing.".to_owned()
            },
            PermissionDiagnostic::IdentityDisabledStatusUnknown => {
                "The disabled flag for this identity could not be determined — rights are correct, but whether the account is enabled is unknown.".to_owned()
            },
            PermissionDiagnostic::IdentityLookupFailed { reason } => {
                let mut out: String = "LDAP identity lookup failed (".to_owned();
                out.append(reason.as_str());
                out.append("); analysis ran with a placeholder identity, ACEs on domain groups may be missing.");
                out
            },
            PermissionDiagnostic::GroupResolutionFailed { reason } => {
                let mut out: String = "Recursive group resolution failed or was skipped (".to_owned();
                out.append(reason.as_str());
                out.append("); ACEs on domain groups may be missing.");
                out
            },
            PermissionDiagnostic::OwnerRightsAceApplied => {
                "OWNER RIGHTS (S-1-3-4) ACE governs the owner's rights; the implicit READ_CONTROL + WRITE_DAC owner grant was suppressed. Exact — informational.".to_owned()
            },
            PermissionDiagnostic::IdentityResolvedViaForeignSecurityPrincipal => {
                "Identity is a trust-forest principal resolved via a Foreign Security Principal; its memberships in its own forest are unknown.".to_owned()
            },
            PermissionDiagnostic::GroupResolutionViaGlobalCatalog => {
                "Memberships came from a Global Catalog bind; only universal groups replicate fully to the GC, foreign-domain global/domain-local may be missing.".to_owned()
            },
            PermissionDiagnostic::PersistedEvidenceDecodeFailed { detail } => {
                let mut out: String = "A persisted (historical) row could not be fully decoded (".to_owned();
                out.append(detail.as_str());
                out.append("); the reconstructed result may be less complete than the original.");
                out
            },
            PermissionDiagnostic::SidHistoryPresent { count } => {
                let mut out: String = "Identity carries ".to_owned();
                text::push_decimal(&mut out, *count as u64);
                out.append(" historical SID(s) (sIDHistory) that were NOT evaluated into the token — effective rights may be understated.");
                out
            },
            PermissionDiagnostic::SidHistoryEvaluated { count } => {
                let mut out: String = text::decimal_text(*count as u64);
                out.append(" historical SID(s) (sIDHistory) of this identity were evaluated into the token — ACEs referencing an old SID match like in the real logon token (see the explanation path).");
                out
            },
            PermissionDiagnostic::GroupSidHistoryEvaluated { groups, count } => {
                let mut out: String = text::decimal_text(*count as u64);
                out.append(" historical SID(s) (sIDHistory) carried by ");
                text::push_decimal(&mut out, *groups as u64);
                out.append(" token group(s) were evaluated into the token — ACEs referencing a migrated group's old SID match like in the real logon token (see the membership steps).");
                out
            },
            PermissionDiagnostic::GroupSidHistoryPresent { count } => {
                let mut out: String = text::decimal_text(*count as u64);
                out.append(" historical SID(s) (sIDHistory) on token groups could NOT be evaluated into the token — effective rights may be understated.");
                out
            },
            PermissionDiagnostic::TrustBoundaryEffectsNotModeled => {
                "Identity resolved across a domain/trust boundary; if it is a forest trust, SID filtering and Selective Authentication may reduce actual access (not modeled).".to_owned()
            },
            PermissionDiagnostic::MembersViaPrimaryGroupIncluded { count } => {
                let mut out: String = text::decimal_text(*count as u64);
                out.append(" member(s) were found via their primaryGroupID — accounts whose primary group is this group do not appear in the 'member' attribute and are included here so the count is complete.");
                out
            },
            PermissionDiagnostic::GroupMemberEnumerationIncomplete { reason } => {
                let mut out: String = "Group members could not be enumerated completely (".to_owned();
                out.append(reason.as_str());
                out.append("); the member list is a lower bound and may be missing entries.");
                out
            },
            PermissionDiagnostic::UniversalGroupCrossDomainMembersNotVisible => {
                "This is a universal group queried over a domain bind — members from other domains of the forest are not visible here, so in a multi-domain forest the list may be incomplete.".to_owned()
            },
        }
    }

    /// Whether the marker means that the computed rights may be wrong.
    pub open spec fn marks_gap(self) -> bool {
        ||| self is UnsupportedShareAces
        ||| self is UnsupportedNtfsAces
        ||| self is DomainGroupRecursionIncomplete
        ||| self is IdentityNotInConfiguredLdapBase
        ||| self is IdentityLookupFailed
        ||| self is GroupResolutionFailed
        ||| self is IdentityResolvedViaForeignSecurityPrincipal
        ||| self is GroupResolutionViaGlobalCatalog
        ||| self is PersistedEvidenceDecodeFailed
        ||| self is SidHistoryPresent
        ||| self is GroupSidHistoryPresent
        ||| self is GroupMemberEnumerationIncomplete
        ||| self is UniversalGroupCrossDomainMembersNotVisible
    }

    /// Decides whether the computed rights may be wrong.
    pub fn is_incompleteness_trigger(&self) -> (r: bool)
        ensures
            r == self.marks_gap(),
    {
        match self {
            PermissionDiagnostic::NonCanonicalDaclOrder { .. } => false,
            PermissionDiagnostic::UnsupportedShareAces { .. } => true,
            PermissionDiagnostic::UnsupportedNtfsAces { .. } => true,
            PermissionDiagnostic::DomainGroupRecursionIncomplete => true,
            PermissionDiagnostic::IdentityDisabled => false,
            PermissionDiagnostic::IdentityNotInConfiguredLdapBase => true,
            PermissionDiagnostic::IdentityDisabledStatusUnknown => false,
            PermissionDiagnostic::IdentityLookupFailed { .. } => true,
            PermissionDiagnostic::GroupResolutionFailed { .. } => true,
            PermissionDiagnostic::OwnerRightsAceApplied => false,
            PermissionDiagnostic::IdentityResolvedViaForeignSecurityPrincipal => true,
            PermissionDiagnostic::GroupResolutionViaGlobalCatalog => true,
            PermissionDiagnostic::PersistedEvidenceDecodeFailed { .. } => true,
            PermissionDiagnostic::SidHistoryPresent { .. } => true,
            PermissionDiagnostic::SidHistoryEvaluated { .. } => false,
            PermissionDiagnostic::GroupSidHistoryEvaluated { .. } => false,
            PermissionDiagnostic::GroupSidHistoryPresent { .. } => true,
            PermissionDiagnostic::TrustBoundaryEffectsNotModeled => false,
            PermissionDiagnostic::MembersViaPrimaryGroupIncluded { .. } => false,
            PermissionDiagnostic::GroupMemberEnumerationIncomplete { .. } => true,
            PermissionDiagnostic::UniversalGroupCrossDomainMembersNotVisible => true,
        }
    }

    /// How much attention the marker deserves.
    pub open spec fn attention(self) -> DiagnosticSeverity {
        if self is UnsupportedShareAces || self is UnsupportedNtfsAces {
            DiagnosticSeverity::Notice
        } else if self is IdentityLookupFailed || self is GroupResolutionFailed || self is PersistedEvidenceDecodeFailed || self is SidHistoryPresent || self is GroupSidHistoryPresent || self is GroupMemberEnumerationIncomplete {
            DiagnosticSeverity::Concern
        } else {
            DiagnosticSeverity::Neutral
        }
    }

    /// Classifies the attention that the marker deserves.
    pub fn severity(&self) -> (r: DiagnosticSeverity)
        ensures
            r == self.attention(),
    {
        match self {
            PermissionDiagnostic::NonCanonicalDaclOrder { .. } => DiagnosticSeverity::Neutral,
            PermissionDiagnostic::UnsupportedShareAces { .. } => DiagnosticSeverity::Notice,
            PermissionDiagnostic::UnsupportedNtfsAces { .. } => DiagnosticSeverity::Notice,
            PermissionDiagnostic::DomainGroupRecursionIncomplete => DiagnosticSeverity::Neutral,
            PermissionDiagnostic::IdentityDisabled => DiagnosticSeverity::Neutral,
            PermissionDiagnostic::IdentityNotInConfiguredLdapBase => DiagnosticSeverity::Neutral,
            PermissionDiagnostic::IdentityDisabledStatusUnknown => DiagnosticSeverity::Neutral,
            PermissionDiagnostic::IdentityLookupFailed { .. } => DiagnosticSeverity::Concern,
            PermissionDiagnostic::GroupResolutionFailed { .. } => DiagnosticSeverity::Concern,
            PermissionDiagnostic::OwnerRightsAceApplied => DiagnosticSeverity::Neutral,
            PermissionDiagnostic::IdentityResolvedViaForeignSecurityPrincipal => DiagnosticSeverity::Neutral,
            PermissionDiagnostic::GroupResolutionViaGlobalCatalog => DiagnosticSeverity::Neutral,
            PermissionDiagnostic::PersistedEvidenceDecodeFailed { .. } => DiagnosticSeverity::Concern,
            PermissionDiagnostic::SidHistoryPresent { .. } => DiagnosticSeverity::Concern,
            PermissionDiagnostic::SidHistoryEvaluated { .. } => DiagnosticSeverity::Neutral,
            PermissionDiagnostic::GroupSidHistoryEvaluated { .. } => DiagnosticSeverity::Neutral,
            PermissionDiagnostic::GroupSidHistoryPresent { .. } => DiagnosticSeverity::Concern,
            PermissionDiagnostic::TrustBoundaryEffectsNotModeled => DiagnosticSeverity::Neutral,
            PermissionDiagnostic::MembersViaPrimaryGroupIncluded { .. } => DiagnosticSeverity::Neutral,
            PermissionDiagnostic::GroupMemberEnumerationIncomplete { .. } => DiagnosticSeverity::Concern,
            PermissionDiagnostic::UniversalGroupCrossDomainMembersNotVisible => DiagnosticSeverity::Neutral,
        }
    }
}

/// Whether a text has no line break.
pub open spec fn is_one_line(s: Seq<char>) -> bool {
    forall|i: int| 0 <= i < s.len() ==> #[trigger] s[i] != '\n'
}

/// The text that a marker carries, where it carries one.
pub open spec fn carried_text(d: PermissionDiagnostic) -> Seq<char> {
    match d {
        PermissionDiagnostic::IdentityLookupFailed { reason } => reason@,
        PermissionDiagnostic::GroupResolutionFailed { reason } => reason@,
        PermissionDiagnostic::PersistedEvidenceDecodeFailed { detail } => detail@,
        PermissionDiagnostic::GroupMemberEnumerationIncomplete { reason } => reason@,
        _ => Seq::empty(),
    }
}

/// A number has digits, and no line break among them.
proof fn lemma_number_is_one_line(n: nat)
    ensures
        text::decimal(n).len() > 0,
        is_one_line(text::decimal(n)),
{
    text::lemma_decimal(n);
}

/// Every marker is worded on one line that is not empty, whatever number it carries. A text
/// that it carries is shown as it is, so a line break in that text would be kept.
pub proof fn law_summary_is_one_line(d: PermissionDiagnostic)
    requires
        is_one_line(carried_text(d)),
    ensures
        d.sentence().len() > 0,
        is_one_line(d.sentence()),
{
    match d {
        PermissionDiagnostic::NonCanonicalDaclOrder { at_index } => {
            reveal_strlit("Non-canonical DACL order (first at ACE #");
            reveal_strlit("); evaluated in stored order like Windows, may differ from canonical expectations.");
            lemma_number_is_one_line(at_index as nat);
        },
        PermissionDiagnostic::UnsupportedShareAces { count } => {
            reveal_strlit(" share ACE(s) of an unsupported type were skipped — the share mask is potentially incomplete.");
            lemma_number_is_one_line(count as nat);
        },
        PermissionDiagnostic::UnsupportedNtfsAces { count } => {
            reveal_strlit(" NTFS ACE(s) could not be evaluated (unsupported type, or a trustee SID that could not be read) — a hidden Deny among them could change the result.");
            lemma_number_is_one_line(count as nat);
        },
        PermissionDiagnostic::DomainGroupRecursionIncomplete => {
            reveal_strlit("Group resolution used the SAM/LSA fallback (no LDAP); nested domain groups are not resolved recursively, ACEs on them may be missed.");
        },
        PermissionDiagnostic::IdentityDisabled => {
            reveal_strlit("Identity is flagged disabled in AD — rights are ACL-theoretically correct, but the account normally cannot authenticate.");
        },
        PermissionDiagnostic::IdentityNotInConfiguredLdapBase => {
            reveal_strlit("Identity resolved via LSA but the configured LDAP base DN does not index its SID; cross-domain nested memberships may be missing.");
        },
        PermissionDiagnostic::IdentityDisabledStatusUnknown => {
            reveal_strlit("The disabled flag for this identity could not be determined — rights are correct, but whether the account is enabled is unknown.");
        },
        PermissionDiagnostic::IdentityLookupFailed { reason } => {
            reveal_strlit("LDAP identity lookup failed (");
            reveal_strlit("); analysis ran with a placeholder identity, ACEs on domain groups may be missing.");
        },
        PermissionDiagnostic::GroupResolutionFailed { reason } => {
            reveal_strlit("Recursive group resolution failed or was skipped (");
            reveal_strlit("); ACEs on domain groups may be missing.");
        },
        PermissionDiagnostic::OwnerRightsAceApplied => {
            reveal_strlit("OWNER RIGHTS (S-1-3-4) ACE governs the owner's rights; the implicit READ_CONTROL + WRITE_DAC owner grant was suppressed. Exact — informational.");
        },
        PermissionDiagnostic::IdentityResolvedViaForeignSecurityPrincipal => {
            reveal_strlit("Identity is a trust-forest principal resolved via a Foreign Security Principal; its memberships in its own forest are unknown.");
        },
        PermissionDiagnostic::GroupResolutionViaGlobalCatalog => {
            reveal_strlit("Memberships came from a Global Catalog bind; only universal groups replicate fully to the GC, foreign-domain global/domain-local may be missing.");
        },
        PermissionDiagnostic::PersistedEvidenceDecodeFailed { detail } => {
            reveal_strlit("A persisted (historical) row could not be fully decoded (");
            reveal_strlit("); the reconstructed result may be less complete than the original.");
        },
        PermissionDiagnostic::SidHistoryPresent { count } => {
            reveal_strlit("Identity carries ");
            reveal_strlit(" historical SID(s) (sIDHistory) that were NOT evaluated into the token — effective rights may be understated.");
            lemma_number_is_one_line(count as nat);
        },
        PermissionDiagnostic::SidHistoryEvaluated { count } => {
            reveal_strlit(" historical SID(s) (sIDHistory) of this identity were evaluated into the token — ACEs referencing an old SID match like in the real logon token (see the explanation path).");
            lemma_number_is_one_line(count as nat);
        },
        PermissionDiagnostic::GroupSidHistoryEvaluated { groups, count } => {
            reveal_strlit(" historical SID(s) (sIDHistory) carried by ");
            reveal_strlit(" token group(s) were evaluated into the token — ACEs referencing a migrated group's old SID match like in the real logon token (see the membership steps).");
            lemma_number_is_one_line(count as nat);
            lemma_number_is_one_line(groups as nat);
        },
        PermissionDiagnostic::GroupSidHistoryPresent { count } => {
            reveal_strlit(" historical SID(s) (sIDHistory) on token groups could NOT be evaluated into the token — effective rights may be understated.");
            lemma_number_is_one_line(count as nat);
        },
        PermissionDiagnostic::TrustBoundaryEffectsNotModeled => {
            reveal_strlit("Identity resolved across a domain/trust boundary; if it is a forest trust, SID filtering and Selective Authentication may reduce actual access (not modeled).");
        },
        PermissionDiagnostic::MembersViaPrimaryGroupIncluded { count } => {
            reveal_strlit(" member(s) were found via their primaryGroupID — accounts whose primary group is this group do not appear in the 'member' attribute and are included here so the count is complete.");
            lemma_number_is_one_line(count as nat);
        },
        PermissionDiagnostic::GroupMemberEnumerationIncomplete { reason } => {
            reveal_strlit("Group members could not be enumerated completely (");
            reveal_strlit("); the member list is a lower bound and may be missing entries.");
        },
        PermissionDiagnostic::UniversalGroupCrossDomainMembersNotVisible => {
            reveal_strlit("This is a universal group queried over a domain bind — members from other domains of the forest are not visible here, so in a multi-domain forest the list may be incomplete.");
        },
    }
}

/// A text that a marker carries is shown in its wording.
pub proof fn law_summary_shows_its_text(d: PermissionDiagnostic)
    ensures
        exists|a: Seq<char>, b: Seq<char>| d.sentence() == #[trigger] (a + carried_text(d) + b),
{
    let none = Seq::<char>::empty();
    match d {
        PermissionDiagnostic::IdentityLookupFailed { .. } => {
            let a = "LDAP identity lookup failed ("@;
            let b = "); analysis ran with a placeholder identity, ACEs on domain groups may be missing."@;
            assert(d.sentence() == a + carried_text(d) + b);
        },
        PermissionDiagnostic::GroupResolutionFailed { .. } => {
            let a = "Recursive group resolution failed or was skipped ("@;
            let b = "); ACEs on domain groups may be missing."@;
            assert(d.sentence() == a + carried_text(d) + b);
        },
        PermissionDiagnostic::PersistedEvidenceDecodeFailed { .. } => {
            let a = "A persisted (historical) row could not be fully decoded ("@;
            let b = "); the reconstructed result may be less complete than the original."@;
            assert(d.sentence() == a + carried_text(d) + b);
        },
        PermissionDiagnostic::GroupMemberEnumerationIncomplete { .. } => {
            let a = "Group members could not be enumerated completely ("@;
            let b = "); the member list is a lower bound and may be missing entries."@;
            assert(d.sentence() == a + carried_text(d) + b);
        },
        _ => {
            assert(d.sentence() =~= none + carried_text(d) + d.sentence());
        },
    }
}

/// A marker means a gap unless what it tells is exact or mere context: the stored order of a
/// DACL, a disabled account or one of unknown state, an applied OWNER RIGHTS entry, history
/// that was evaluated, the note on trusts, and members found through their primary group.
pub proof fn law_exact_context_is_no_gap(d: PermissionDiagnostic)
    ensures
        match d {
            PermissionDiagnostic::NonCanonicalDaclOrder { .. }
            | PermissionDiagnostic::IdentityDisabled
            | PermissionDiagnostic::IdentityDisabledStatusUnknown
            | PermissionDiagnostic::OwnerRightsAceApplied
            | PermissionDiagnostic::SidHistoryEvaluated { .. }
            | PermissionDiagnostic::GroupSidHistoryEvaluated { .. }
            | PermissionDiagnostic::TrustBoundaryEffectsNotModeled
            | PermissionDiagnostic::MembersViaPrimaryGroupIncluded { .. } => !d.marks_gap(),
            _ => d.marks_gap(),
        },
{
}

/// What raises attention is a gap. A failure, history that was left out and a list that was
/// cut short are a concern; entries of an unknown type are worth a look; and what is expected
/// of the way of resolution stays quiet, though it is a gap.
pub proof fn law_attention_follows_the_gap(d: PermissionDiagnostic)
    ensures
        d.attention() != DiagnosticSeverity::Neutral ==> d.marks_gap(),
        (d.attention() == DiagnosticSeverity::Notice) == (d is UnsupportedShareAces
            || d is UnsupportedNtfsAces),
        d.marks_gap() && d.attention() == DiagnosticSeverity::Neutral ==> d
            is DomainGroupRecursionIncomplete || d is IdentityNotInConfiguredLdapBase || d
            is IdentityResolvedViaForeignSecurityPrincipal || d is GroupResolutionViaGlobalCatalog
            || d is UniversalGroupCrossDomainMembersNotVisible,
        d is DomainGroupRecursionIncomplete || d is IdentityNotInConfiguredLdapBase || d
            is IdentityResolvedViaForeignSecurityPrincipal || d is GroupResolutionViaGlobalCatalog
            || d is UniversalGroupCrossDomainMembersNotVisible ==> d.attention()
            == DiagnosticSeverity::Neutral,
{
}

/// A number that a marker carries is shown in its wording.
pub proof fn law_summary_shows_its_number(d: PermissionDiagnostic)
    ensures
        match d {
            PermissionDiagnostic::NonCanonicalDaclOrder { at_index } => text::occurs_in(
                text::decimal(at_index as nat),
                d.sentence(),
            ),
            PermissionDiagnostic::UnsupportedShareAces { count } => text::occurs_in(
                text::decimal(count as nat),
                d.sentence(),
            ),
            PermissionDiagnostic::UnsupportedNtfsAces { count } => text::occurs_in(
                text::decimal(count as nat),
                d.sentence(),
            ),
            PermissionDiagnostic::SidHistoryPresent { count } => text::occurs_in(
                text::decimal(count as nat),
                d.sentence(),
            ),
            PermissionDiagnostic::SidHistoryEvaluated { count } => text::occurs_in(
                text::decimal(count as nat),
                d.sentence(),
            ),
            PermissionDiagnostic::GroupSidHistoryEvaluated { groups, count } => text::occurs_in(
                text::decimal(count as nat),
                d.sentence(),
            ) && text::occurs_in(text::decimal(groups as nat), d.sentence()),
            PermissionDiagnostic::GroupSidHistoryPresent { count } => text::occurs_in(
                text::decimal(count as nat),
                d.sentence(),
            ),
            PermissionDiagnostic::MembersViaPrimaryGroupIncluded { count } => text::occurs_in(
                text::decimal(count as nat),
                d.sentence(),
            ),
            _ => true,
        },
{
    match d {
        PermissionDiagnostic::NonCanonicalDaclOrder { at_index } => {
            text::lemma_part_occurs(
                "Non-canonical DACL order (first at ACE #"@,
                text::decimal(at_index as nat),
                "); evaluated in stored order like Windows, may differ from canonical expectations."@,
            );
        },
        PermissionDiagnostic::SidHistoryPresent { count } => {
            text::lemma_part_occurs(
                "Identity carries "@,
                text::decimal(count as nat),
                " historical SID(s) (sIDHistory) that were NOT evaluated into the token — effective rights may be understated."@,
            );
        },
        PermissionDiagnostic::UnsupportedShareAces { count } => {
            lemma_number_in_front(
                count as nat,
                " share ACE(s) of an unsupported type were skipped — the share mask is potentially incomplete."@,
            );
        },
        PermissionDiagnostic::UnsupportedNtfsAces { count } => {
            lemma_number_in_front(
                count as nat,
                " NTFS ACE(s) could not be evaluated (unsupported type, or a trustee SID that could not be read) — a hidden Deny among them could change the result."@,
            );
        },
        PermissionDiagnostic::SidHistoryEvaluated { count } => {
            lemma_number_in_front(
                count as nat,
                " historical SID(s) (sIDHistory) of this identity were evaluated into the token — ACEs referencing an old SID match like in the real logon token (see the explanation path)."@,
            );
        },
        PermissionDiagnostic::GroupSidHistoryEvaluated { groups, count } => {
            let a = text::decimal(count as nat);
            let b = " historical SID(s) (sIDHistory) carried by "@;
            let c = text::decimal(groups as nat);
            let e =
                " token group(s) were evaluated into the token — ACEs referencing a migrated group's old SID match like in the real logon token (see the membership steps)."@;
            text::lemma_part_occurs(a + b, c, e);
            lemma_number_in_front(count as nat, b + c + e);
            text::lemma_assoc(a, b, c);
            text::lemma_assoc(a, b + c, e);
        },
        PermissionDiagnostic::GroupSidHistoryPresent { count } => {
            lemma_number_in_front(
                count as nat,
                " historical SID(s) (sIDHistory) on token groups could NOT be evaluated into the token — effective rights may be understated."@,
            );
        },
        PermissionDiagnostic::MembersViaPrimaryGroupIncluded { count } => {
            lemma_number_in_front(
                count as nat,
                " member(s) were found via their primaryGroupID — accounts whose primary group is this group do not appear in the 'member' attribute and are included here so the count is complete."@,
            );
        },
        _ => {},
    }
}

/// A number in front of a text occurs.
proof fn lemma_number_in_front(n: nat, rest: Seq<char>)
    ensures
        text::occurs_in(text::decimal(n), text::decimal(n) + rest),
{
    text::lemma_part_occurs(Seq::empty(), text::decimal(n), rest);
    assert(Seq::empty() + text::decimal(n) =~= text::decimal(n));
}

/// A reason that a marker carries is shown in its wording.
pub proof fn law_summary_shows_its_reason(d: PermissionDiagnostic)
    ensures
        match d {
            PermissionDiagnostic::IdentityLookupFailed { reason } => text::occurs_in(
                reason@,
                d.sentence(),
            ),
            PermissionDiagnostic::GroupResolutionFailed { reason } => text::occurs_in(
                reason@,
                d.sentence(),
            ),
            PermissionDiagnostic::PersistedEvidenceDecodeFailed { detail } => text::occurs_in(
                detail@,
                d.sentence(),
            ),
            PermissionDiagnostic::GroupMemberEnumerationIncomplete { reason } => text::occurs_in(
                reason@,
                d.sentence(),
            ),
            _ => true,
        },
{
    match d {
        PermissionDiagnostic::IdentityLookupFailed { reason } => {
            text::lemma_found_at(
                reason@,
                d.sentence(),
                "LDAP identity lookup failed ("@.len() as int,
            );
        },
        PermissionDiagnostic::GroupResolutionFailed { reason } => {
            text::lemma_found_at(
                reason@,
                d.sentence(),
                "Recursive group resolution failed or was skipped ("@.len() as int,
            );
        },
        PermissionDiagnostic::PersistedEvidenceDecodeFailed { detail } => {
            text::lemma_found_at(
                detail@,
                d.sentence(),
                "A persisted (historical) row could not be fully decoded ("@.len() as int,
            );
        },
        PermissionDiagnostic::GroupMemberEnumerationIncomplete { reason } => {
            text::lemma_found_at(
                reason@,
                d.sentence(),
                "Group members could not be enumerated completely ("@.len() as int,
            );
        },
        _ => {},
    }
}

/// A marker that carries nothing is worded by its kind alone: what it means for the result,
/// and why.
pub proof fn law_every_kind_has_its_wording(d: PermissionDiagnostic)
    ensures
        d is DomainGroupRecursionIncomplete ==> d.sentence()
            == "Group resolution used the SAM/LSA fallback (no LDAP); nested domain groups are not resolved recursively, ACEs on them may be missed."@,
        d is IdentityDisabled ==> d.sentence()
            == "Identity is flagged disabled in AD — rights are ACL-theoretically correct, but the account normally cannot authenticate."@,
        d is IdentityNotInConfiguredLdapBase ==> d.sentence()
            == "Identity resolved via LSA but the configured LDAP base DN does not index its SID; cross-domain nested memberships may be missing."@,
        d is IdentityDisabledStatusUnknown ==> d.sentence()
            == "The disabled flag for this identity could not be determined — rights are correct, but whether the account is enabled is unknown."@,
        d is OwnerRightsAceApplied ==> d.sentence()
            == "OWNER RIGHTS (S-1-3-4) ACE governs the owner's rights; the implicit READ_CONTROL + WRITE_DAC owner grant was suppressed. Exact — informational."@,
        d is IdentityResolvedViaForeignSecurityPrincipal ==> d.sentence()
            == "Identity is a trust-forest principal resolved via a Foreign Security Principal; its memberships in its own forest are unknown."@,
        d is GroupResolutionViaGlobalCatalog ==> d.sentence()
            == "Memberships came from a Global Catalog bind; only universal groups replicate fully to the GC, foreign-domain global/domain-local may be missing."@,
        d is TrustBoundaryEffectsNotModeled ==> d.sentence()
            == "Identity resolved across a domain/trust boundary; if it is a forest trust, SID filtering and Selective Authentication may reduce actual access (not modeled)."@,
        d is UniversalGroupCrossDomainMembersNotVisible ==> d.sentence()
            == "This is a universal group queried over a domain bind — members from other domains of the forest are not visible here, so in a multi-domain forest the list may be incomplete."@,
{
}

} // verus!
