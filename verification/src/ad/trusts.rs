//! The trusts of a domain, read and reported only.

use vstd::prelude::*;

use crate::ad::ldap_client;
use crate::ad::ldap_client::RawEntry;
use crate::ad::sid_util;
use crate::ad::sid_util::bytes_to_sid_str;
use crate::model::sid::Sid;
use crate::model::trust;
use crate::model::trust::{DomainTrust, TrustAttributes, TrustDirection};
use crate::order;
use crate::order::{stable_sort, Sortable};
use crate::text;

verus! {

/// The number that a text holds, spaces around it aside.
pub open spec fn number_in(s: Option<Seq<char>>) -> Option<nat> {
    match s {
        Some(t) => text::unsigned_value(text::trimmed(t), u32::MAX as nat),
        None => None,
    }
}

/// The number in an attribute of `entry`.
fn number_attr(entry: &RawEntry, name: &str) -> (r: Option<u32>)
    ensures
        (match r {
            Some(n) => Some(n as nat),
            None => None,
        }) == number_in(ldap_client::first_text(*entry, name@)),
{
    match entry.first_attr(name) {
        Some(s) => match text::parse_unsigned(text::trim(s), 0xffff_ffff) {
            Some(n) => Some(n as u32),
            None => None,
        },
        None => None,
    }
}

/// The NetBIOS name of the trusted domain, where it has one.
pub open spec fn flat_name_of(entry: RawEntry) -> Option<Seq<char>> {
    match ldap_client::first_text(entry, "flatName"@) {
        Some(s) => if text::trimmed(s).len() == 0 {
            None
        } else {
            Some(text::trimmed(s))
        },
        None => None,
    }
}

/// Whether `entry` describes a trust: it names the trusted domain.
pub open spec fn names_partner(entry: RawEntry) -> bool {
    ldap_client::first_text(entry, "trustPartner"@) matches Some(p) && text::trimmed(p).len() > 0
}

/// Whether `t` is the trust that `entry` describes. A direction that is missing
/// or unreadable is unknown, which is not the same as disabled.
pub open spec fn is_trust(t: DomainTrust, entry: RawEntry) -> bool {
    &&& t.partner@ == text::trimmed(ldap_client::first_text(entry, "trustPartner"@)->0)
    &&& text::text_of(t.flat_name) == flat_name_of(entry)
    &&& t.direction == (match number_in(ldap_client::first_text(entry, "trustDirection"@)) {
        Some(code) => trust::direction_of(code as u32),
        None => TrustDirection::Unknown(u32::MAX),
    })
    &&& t.attributes.raw == (match number_in(ldap_client::first_text(entry, "trustAttributes"@)) {
        Some(bits) => bits as u32,
        None => 0,
    })
    &&& (match t.sid {
        Some(s) => Some(s@),
        None => None,
    }) == (match ldap_client::first_bytes(entry, "securityIdentifier"@) {
        Some(b) => match sid_util::decoded_sid(b) {
            Ok(p) => Some(sid_util::sid_text(p)),
            Err(_) => None,
        },
        None => None,
    })
}

/// Reads a trust from its entry; `None` where the entry names no domain.
pub fn parse_trust(entry: &RawEntry) -> (r: Option<DomainTrust>)
    ensures
        r is Some == names_partner(*entry),
        r matches Some(t) ==> is_trust(t, *entry),
{
    let partner: &str = match entry.first_attr("trustPartner") {
        Some(s) => text::trim(s),
        None => {
            return None;
        },
    };
    if partner.is_empty() {
        return None;
    }
    let flat_name: Option<String> = match entry.first_attr("flatName") {
        Some(s) => {
            let t: &str = text::trim(s);
            if t.is_empty() {
                None
            } else {
                Some(t.to_owned())
            }
        },
        None => None,
    };
    let direction: TrustDirection = match number_attr(entry, "trustDirection") {
        Some(code) => TrustDirection::from_code(code),
        None => TrustDirection::Unknown(u32::MAX),
    };
    let attributes: TrustAttributes = match number_attr(entry, "trustAttributes") {
        Some(bits) => TrustAttributes::from_bits(bits),
        None => TrustAttributes { raw: 0 },
    };
    let sid: Option<Sid> = match entry.first_bin_attr("securityIdentifier") {
        Some(b) => match bytes_to_sid_str(b) {
            Ok(s) => Some(Sid(s)),
            Err(_) => None,
        },
        None => None,
    };
    Some(DomainTrust { partner: partner.to_owned(), flat_name, direction, attributes, sid })
}

/// The name that trusts are listed by.
impl Sortable for DomainTrust {
    open spec fn key(self) -> order::Key {
        (text::unicode_lower(self.partner@), Seq::empty())
    }

    fn sort_key(&self) -> (r: (String, String)) {
        (text::lower(self.partner.as_str()), String::new())
    }
}

/// The entries that describe a trust, in their order.
pub open spec fn trust_entries(entries: Seq<RawEntry>) -> Seq<RawEntry>
    decreases entries.len(),
{
    if entries.len() == 0 {
        Seq::empty()
    } else {
        let init = trust_entries(entries.drop_last());
        if names_partner(entries.last()) {
            init.push(entries.last())
        } else {
            init
        }
    }
}

/// Whether `trusts` are the trusts that `entries` describe, in their order.
pub open spec fn are_trusts(trusts: Seq<DomainTrust>, entries: Seq<RawEntry>) -> bool {
    &&& trusts.len() == trust_entries(entries).len()
    &&& forall|i: int|
        0 <= i < trusts.len() ==> is_trust(#[trigger] trusts[i], trust_entries(entries)[i])
}

/// Lists the trusts that `entries` describe, by the name of the trusted domain
/// regardless of case.
pub fn trusts_of_entries(entries: &Vec<RawEntry>) -> (r: Vec<DomainTrust>)
    ensures
        exists|found: Seq<DomainTrust>| #[trigger]
            are_trusts(found, entries@) && order::is_stable_sort(found, r@),
{
    let mut found: Vec<DomainTrust> = Vec::new();
    for i in 0..entries.len()
        invariant
            are_trusts(found@, entries@.take(i as int)),
    {
        assert(entries@.take(i + 1).drop_last() =~= entries@.take(i as int));
        let ghost before = found@;
        if let Some(t) = parse_trust(&entries[i]) {
            found.push(t);
            assert forall|j: int| 0 <= j < found@.len() implies is_trust(
                #[trigger] found@[j],
                trust_entries(entries@.take(i + 1))[j],
            ) by {
                if j < before.len() {
                    assert(found@[j] == before[j]);
                }
            }
        }
    }
    assert(entries@.take(entries@.len() as int) =~= entries@);
    let ghost listed = found@;
    let r: Vec<DomainTrust> = stable_sort(found);
    assert(are_trusts(listed, entries@));
    r
}

/// A direction that is missing or unreadable is never reported as disabled.
pub proof fn law_unreadable_direction_is_unknown(t: DomainTrust, entry: RawEntry)
    requires
        is_trust(t, entry),
        number_in(ldap_client::first_text(entry, "trustDirection"@)) is None,
    ensures
        t.direction != TrustDirection::Disabled,
        t.direction is Unknown,
{
}

/// A trust says what its entry says: the names without white space around them, the direction
/// by its code, the attributes bit by bit, and the SID that the entry holds. What the entry
/// does not have is not made up.
pub proof fn law_trust_is_what_the_entry_says(
    t: DomainTrust,
    entry: RawEntry,
    code: u32,
    bits: u32,
    p: sid_util::SidParts,
)
    requires
        is_trust(t, entry),
        p.revision <= u8::MAX,
        p.authority < 0x1_0000_0000_0000,
        p.subs.len() <= u8::MAX,
    ensures
        ({
            let partner = ldap_client::attr_values(entry.attrs@, "trustPartner"@);
            let flat = ldap_client::attr_values(entry.attrs@, "flatName"@);
            let direction = ldap_client::attr_values(entry.attrs@, "trustDirection"@);
            let attributes = ldap_client::attr_values(entry.attrs@, "trustAttributes"@);
            let sid = ldap_client::attr_values(entry.bin_attrs@, "securityIdentifier"@);
            &&& partner.len() > 0 ==> t.partner@ == text::trimmed(partner[0]@)
            &&& (t.flat_name is Some) == (flat.len() > 0 && text::trimmed(flat[0]@).len() > 0)
            &&& t.flat_name matches Some(n) ==> n@ == text::trimmed(flat[0]@)
            &&& direction.len() > 0 && direction[0]@ == text::decimal(code as nat) ==> {
                &&& (t.direction is Disabled) == (code == 0)
                &&& (t.direction is Inbound) == (code == 1)
                &&& (t.direction is Outbound) == (code == 2)
                &&& (t.direction is Bidirectional) == (code == 3)
                &&& code > 3 ==> t.direction == TrustDirection::Unknown(code)
            }
            &&& direction.len() == 0 ==> t.direction is Unknown
            &&& attributes.len() > 0 && attributes[0]@ == text::decimal(bits as nat)
                ==> t.attributes.raw == bits
            &&& attributes.len() == 0 ==> t.attributes.raw == 0
            &&& sid.len() > 0 && sid[0]@ == sid_util::sid_bytes(p) ==> t.sid is Some && t.sid->0@
                == sid_util::sid_text(p)
            &&& sid.len() == 0 ==> t.sid is None
        }),
{
    lemma_number_reads_back(code);
    lemma_number_reads_back(bits);
    sid_util::law_sid_bytes_decode_back(p);
    trust::law_code_tells_the_direction(code);
}

/// A number in decimal notation is read.
proof fn lemma_number_reads_back(n: u32)
    ensures
        number_in(Some(text::decimal(n as nat))) == Some(n as nat),
{
    let d = text::decimal(n as nat);
    text::lemma_decimal(n as nat);
    text::lemma_decimal_reads_back(n as nat, u32::MAX as nat);
    assert('0' <= d[0] <= '9' && '0' <= d[d.len() - 1] <= '9');
    text::lemma_trimmed_identity(d);
}

/// Every entry that names a trusted domain describes a trust, and no other one does.
pub proof fn law_every_partner_is_a_trust(entries: Seq<RawEntry>)
    ensures
        trust_entries(entries) == entries.filter(
            |e: RawEntry|
                ldap_client::attr_values(e.attrs@, "trustPartner"@).len() > 0 && text::trimmed(
                    ldap_client::attr_values(e.attrs@, "trustPartner"@)[0]@,
                ).len() > 0,
        ),
    decreases entries.len(),
{
    reveal(Seq::filter);
    if entries.len() > 0 {
        law_every_partner_is_a_trust(entries.drop_last());
    }
}

/// Trusts are listed by the names of the trusted domains, whatever the case.
pub proof fn law_trusts_are_listed_by_partner(t: DomainTrust)
    ensures
        t.key().0 == text::unicode_lower(t.partner@),
        t.key().1.len() == 0,
{
}

} // verus!
