//! Domain and forest trusts.

use vstd::prelude::*;

use crate::model::sid::Sid;
use crate::text;

verus! {

/// Direction of a trust (`trustDirection`).
#[derive(Debug, Clone, Copy, PartialEq, Eq, Structural)]
pub enum TrustDirection {
    /// The trust exists but is disabled (0).
    Disabled,
    /// The other domain trusts this one (1).
    Inbound,
    /// This domain trusts the other (2).
    Outbound,
    /// Two-way (3).
    Bidirectional,
    /// A value outside the documented range.
    Unknown(u32),
}

/// The direction that a raw code stands for.
pub open spec fn direction_of(code: u32) -> TrustDirection {
    if code == 0 {
        TrustDirection::Disabled
    } else if code == 1 {
        TrustDirection::Inbound
    } else if code == 2 {
        TrustDirection::Outbound
    } else if code == 3 {
        TrustDirection::Bidirectional
    } else {
        TrustDirection::Unknown(code)
    }
}

impl TrustDirection {
    /// Maps a raw `trustDirection` code.
    pub fn from_code(code: u32) -> (r: Self)
        ensures
            r == direction_of(code),
    {
        match code {
            0 => TrustDirection::Disabled,
            1 => TrustDirection::Inbound,
            2 => TrustDirection::Outbound,
            3 => TrustDirection::Bidirectional,
            other => TrustDirection::Unknown(other),
        }
    }

    /// The label of the direction.
    pub open spec fn label_text(self) -> Seq<char> {
        match self {
            TrustDirection::Disabled => "disabled"@,
            TrustDirection::Inbound => "inbound"@,
            TrustDirection::Outbound => "outbound"@,
            TrustDirection::Bidirectional => "bidirectional"@,
            TrustDirection::Unknown(c) => "unknown ("@ + text::decimal(c as nat) + ")"@,
        }
    }

    /// Short label for a report.
    pub fn label(&self) -> (r: String)
        ensures
            r@ == self.label_text(),
    {
        match self {
            TrustDirection::Disabled => "disabled".to_owned(),
            TrustDirection::Inbound => "inbound".to_owned(),
            TrustDirection::Outbound => "outbound".to_owned(),
            TrustDirection::Bidirectional => "bidirectional".to_owned(),
            TrustDirection::Unknown(c) => {
                let mut out: String = "unknown (".to_owned();
                text::push_decimal(&mut out, *c as u64);
                out.append(")");
                out
            },
        }
    }
}

/// The `trustAttributes` bit mask.
#[derive(Debug, Clone, Copy, PartialEq, Eq, Structural)]
pub struct TrustAttributes {
    pub raw: u32,
}

impl Default for TrustAttributes {
    fn default() -> (r: Self)
        ensures
            r.raw == 0,
    {
        TrustAttributes { raw: 0 }
    }
}

/// `labels` with `label` behind them where the bit `flag` is set in `raw`.
pub open spec fn with_label(labels: Seq<Seq<char>>, raw: u32, flag: u32, label: Seq<char>) -> Seq<
    Seq<char>,
> {
    if raw & flag != 0 {
        labels.push(label)
    } else {
        labels
    }
}

/// The labels of the bits set in `raw`, from the lowest bit up.
pub open spec fn attribute_labels(raw: u32) -> Seq<Seq<char>> {
    let l0 = Seq::empty();
    let l1 = with_label(l0, raw, 0x1, "non-transitive"@);
    let l2 = with_label(l1, raw, 0x2, "uplevel-only"@);
    let l3 = with_label(l2, raw, 0x4, "SID-filtering (quarantined)"@);
    let l4 = with_label(l3, raw, 0x8, "forest-transitive"@);
    let l5 = with_label(l4, raw, 0x10, "selective-authentication"@);
    let l6 = with_label(l5, raw, 0x20, "within-forest"@);
    let l7 = with_label(l6, raw, 0x40, "treat-as-external"@);
    let l8 = with_label(l7, raw, 0x80, "uses-RC4"@);
    let l9 = with_label(l8, raw, 0x200, "no-TGT-delegation"@);
    with_label(l9, raw, 0x400, "PIM-trust"@)
}

/// The views of a sequence of string slices.
pub open spec fn slice_texts(v: Seq<&'static str>) -> Seq<Seq<char>> {
    v.map_values(|s: &'static str| s@)
}

impl TrustAttributes {
    pub const NON_TRANSITIVE: u32 = 0x1;

    pub const UPLEVEL_ONLY: u32 = 0x2;

    /// SID filtering.
    pub const QUARANTINED_DOMAIN: u32 = 0x4;

    pub const FOREST_TRANSITIVE: u32 = 0x8;

    /// Selective Authentication.
    pub const CROSS_ORGANIZATION: u32 = 0x10;

    pub const WITHIN_FOREST: u32 = 0x20;

    pub const TREAT_AS_EXTERNAL: u32 = 0x40;

    pub const USES_RC4_ENCRYPTION: u32 = 0x80;

    pub const CROSS_ORGANIZATION_NO_TGT_DELEGATION: u32 = 0x200;

    pub const PIM_TRUST: u32 = 0x400;

    /// Wraps a raw value.
    pub fn from_bits(raw: u32) -> (r: Self)
        ensures
            r.raw == raw,
    {
        TrustAttributes { raw }
    }

    /// Decides whether a bit of `flag` is set.
    pub fn has(&self, flag: u32) -> (r: bool)
        ensures
            r == (self.raw & flag != 0),
    {
        self.raw & flag != 0
    }

    /// SID filtering is on: foreign SIDs presented across the trust are dropped.
    pub fn sid_filtering_enabled(&self) -> (r: bool)
        ensures
            r == (self.raw & 0x4 != 0),
    {
        self.has(Self::QUARANTINED_DOMAIN)
    }

    /// Selective Authentication is on.
    pub fn selective_authentication(&self) -> (r: bool)
        ensures
            r == (self.raw & 0x10 != 0),
    {
        self.has(Self::CROSS_ORGANIZATION)
    }

    /// The trust is transitive across a whole forest.
    pub fn forest_transitive(&self) -> (r: bool)
        ensures
            r == (self.raw & 0x8 != 0),
    {
        self.has(Self::FOREST_TRANSITIVE)
    }

    /// The trust is between domains of one forest.
    pub fn within_forest(&self) -> (r: bool)
        ensures
            r == (self.raw & 0x20 != 0),
    {
        self.has(Self::WITHIN_FOREST)
    }

    /// Appends `label` where `flag` is set.
    fn push_label(&self, out: &mut Vec<&'static str>, flag: u32, label: &'static str)
        ensures
            slice_texts(final(out)@) == with_label(slice_texts(old(out)@), self.raw, flag, label@),
    {
        if self.has(flag) {
            out.push(label);
            assert(slice_texts(out@) =~= slice_texts(old(out)@).push(label@));
        }
    }

    /// Names of the bits that are set, for a report.
    pub fn labels(&self) -> (r: Vec<&'static str>)
        ensures
            slice_texts(r@) == attribute_labels(self.raw),
    {
        let mut v: Vec<&'static str> = Vec::new();
        assert(slice_texts(v@) =~= Seq::<Seq<char>>::empty());
        self.push_label(&mut v, Self::NON_TRANSITIVE, "non-transitive");
        self.push_label(&mut v, Self::UPLEVEL_ONLY, "uplevel-only");
        self.push_label(&mut v, Self::QUARANTINED_DOMAIN, "SID-filtering (quarantined)");
        self.push_label(&mut v, Self::FOREST_TRANSITIVE, "forest-transitive");
        self.push_label(&mut v, Self::CROSS_ORGANIZATION, "selective-authentication");
        self.push_label(&mut v, Self::WITHIN_FOREST, "within-forest");
        self.push_label(&mut v, Self::TREAT_AS_EXTERNAL, "treat-as-external");
        self.push_label(&mut v, Self::USES_RC4_ENCRYPTION, "uses-RC4");
        self.push_label(&mut v, Self::CROSS_ORGANIZATION_NO_TGT_DELEGATION, "no-TGT-delegation");
        self.push_label(&mut v, Self::PIM_TRUST, "PIM-trust");
        v
    }
}

/// One trust relationship of a domain.
#[derive(Debug, PartialEq, Eq)]
pub struct DomainTrust {
    /// DNS name of the trusted domain (`trustPartner`).
    pub partner: String,
    /// NetBIOS name (`flatName`).
    pub flat_name: Option<String>,
    pub direction: TrustDirection,
    pub attributes: TrustAttributes,
    /// SID of the trusted domain (`securityIdentifier`).
    pub sid: Option<Sid>,
}

/// The direction of a trust is what its code says: the first bit for inbound, the second for
/// outbound. Other codes are kept, and shown.
pub proof fn law_code_tells_the_direction(code: u32)
    ensures
        (direction_of(code) is Disabled) == (code == 0),
        (direction_of(code) is Inbound) == (code == 1),
        (direction_of(code) is Outbound) == (code == 2),
        (direction_of(code) is Bidirectional) == (code == 3),
        code > 3 ==> direction_of(code) == TrustDirection::Unknown(code) && text::occurs_in(
            text::decimal(code as nat),
            direction_of(code).label_text(),
        ),
        code == 0 ==> direction_of(code).label_text() == "disabled"@,
        code == 1 ==> direction_of(code).label_text() == "inbound"@,
        code == 2 ==> direction_of(code).label_text() == "outbound"@,
        code == 3 ==> direction_of(code).label_text() == "bidirectional"@,
{
    text::lemma_part_occurs("unknown ("@, text::decimal(code as nat), ")"@);
}

/// What a label adds.
proof fn lemma_with_label(labels: Seq<Seq<char>>, raw: u32, flag: u32, label: Seq<char>)
    ensures
        forall|x: Seq<char>| #[trigger]
            with_label(labels, raw, flag, label).contains(x) == (labels.contains(x) || (raw & flag
                != 0 && label == x)),
{
    let all = with_label(labels, raw, flag, label);
    assert forall|x: Seq<char>| #[trigger] all.contains(x) == (labels.contains(x) || (raw & flag
        != 0 && label == x)) by {
        if labels.contains(x) {
            let i = choose|i: int| 0 <= i < labels.len() && labels[i] == x;
            assert(all[i] == x);
        }
        if raw & flag != 0 && label == x {
            assert(all[labels.len() as int] == x);
        }
        if all.contains(x) {
            let i = choose|i: int| 0 <= i < all.len() && all[i] == x;
            if i < labels.len() {
                assert(labels[i] == x);
            }
        }
    }
}

/// An attribute is named exactly where its bit is set.
pub proof fn law_set_bits_are_named(raw: u32)
    ensures
        attribute_labels(raw).contains("non-transitive"@) == (raw & 0x1u32 != 0),
        attribute_labels(raw).contains("uplevel-only"@) == (raw & 0x2u32 != 0),
        attribute_labels(raw).contains("SID-filtering (quarantined)"@) == (raw & 0x4u32 != 0),
        attribute_labels(raw).contains("forest-transitive"@) == (raw & 0x8u32 != 0),
        attribute_labels(raw).contains("selective-authentication"@) == (raw & 0x10u32 != 0),
        attribute_labels(raw).contains("within-forest"@) == (raw & 0x20u32 != 0),
        attribute_labels(raw).contains("treat-as-external"@) == (raw & 0x40u32 != 0),
        attribute_labels(raw).contains("uses-RC4"@) == (raw & 0x80u32 != 0),
        attribute_labels(raw).contains("no-TGT-delegation"@) == (raw & 0x200u32 != 0),
        attribute_labels(raw).contains("PIM-trust"@) == (raw & 0x400u32 != 0),
{
    reveal_strlit("non-transitive");
    reveal_strlit("uplevel-only");
    reveal_strlit("SID-filtering (quarantined)");
    reveal_strlit("forest-transitive");
    reveal_strlit("selective-authentication");
    reveal_strlit("within-forest");
    reveal_strlit("treat-as-external");
    reveal_strlit("uses-RC4");
    reveal_strlit("no-TGT-delegation");
    reveal_strlit("PIM-trust");
    assert("non-transitive"@.len() == 14
        && "uplevel-only"@.len() == 12
        && "SID-filtering (quarantined)"@.len() == 27
        && "forest-transitive"@.len() == 17
        && "selective-authentication"@.len() == 24
        && "within-forest"@.len() == 13
        && "treat-as-external"@.len() == 17
        && "uses-RC4"@.len() == 8
        && "no-TGT-delegation"@.len() == 17
        && "PIM-trust"@.len() == 9);
    assert("forest-transitive"@[0] == 'f' && "treat-as-external"@[0] == 't'
        && "no-TGT-delegation"@[0] == 'n');
    let l0 = Seq::<Seq<char>>::empty();
    let l1 = with_label(l0, raw, 0x1, "non-transitive"@);
    let l2 = with_label(l1, raw, 0x2, "uplevel-only"@);
    let l3 = with_label(l2, raw, 0x4, "SID-filtering (quarantined)"@);
    let l4 = with_label(l3, raw, 0x8, "forest-transitive"@);
    let l5 = with_label(l4, raw, 0x10, "selective-authentication"@);
    let l6 = with_label(l5, raw, 0x20, "within-forest"@);
    let l7 = with_label(l6, raw, 0x40, "treat-as-external"@);
    let l8 = with_label(l7, raw, 0x80, "uses-RC4"@);
    let l9 = with_label(l8, raw, 0x200, "no-TGT-delegation"@);
    lemma_with_label(l0, raw, 0x1, "non-transitive"@);
    lemma_with_label(l1, raw, 0x2, "uplevel-only"@);
    lemma_with_label(l2, raw, 0x4, "SID-filtering (quarantined)"@);
    lemma_with_label(l3, raw, 0x8, "forest-transitive"@);
    lemma_with_label(l4, raw, 0x10, "selective-authentication"@);
    lemma_with_label(l5, raw, 0x20, "within-forest"@);
    lemma_with_label(l6, raw, 0x40, "treat-as-external"@);
    lemma_with_label(l7, raw, 0x80, "uses-RC4"@);
    lemma_with_label(l8, raw, 0x200, "no-TGT-delegation"@);
    lemma_with_label(l9, raw, 0x400, "PIM-trust"@);
}

} // verus!
