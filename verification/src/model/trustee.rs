//! Trustees per path, without an identity in view.

use vstd::prelude::*;

use crate::model::access::{AccessMask, AceKind};
use crate::model::identity::clone_text;
use crate::model::sid::{NormalizedPath, Sid};
use crate::text;

verus! {

/// The layer a trustee entry belongs to.
#[derive(Debug, Clone, Copy, PartialEq, Eq, Structural)]
pub enum TrusteeCategory {
    /// NTFS DACL of the object.
    Ntfs,
    /// SMB share DACL of the surrounding share.
    Share,
}

/// An entry of a DACL as raw data.
#[derive(Debug)]
pub struct PathTrustee {
    pub sid: Sid,
    /// `DOMAIN\Name` where it was resolved.
    pub display_name: Option<String>,
    pub kind: AceKind,
    pub mask: AccessMask,
    pub inherited: bool,
    pub inheritance_flags: u32,
    pub propagation_flags: u32,
    pub category: TrusteeCategory,
}

impl Clone for PathTrustee {
    fn clone(&self) -> (r: Self)
        ensures
            r == *self,
    {
        PathTrustee {
            sid: self.sid.clone(),
            display_name: clone_text(&self.display_name),
            kind: self.kind,
            mask: self.mask,
            inherited: self.inherited,
            inheritance_flags: self.inheritance_flags,
            propagation_flags: self.propagation_flags,
            category: self.category,
        }
    }
}

/// Entry of the trustee list of a path: a real entry of a DACL, or a hint.
#[derive(Debug)]
pub enum PathTrusteeEntry {
    /// A real entry of the DACL.
    Ace(PathTrustee),
    /// A hint on the layer `category`, such as a DACL that could not be read.
    Diagnostic { category: TrusteeCategory, message: String },
}

impl Clone for PathTrusteeEntry {
    fn clone(&self) -> (r: Self)
        ensures
            r == *self,
    {
        match self {
            PathTrusteeEntry::Ace(t) => PathTrusteeEntry::Ace(t.clone()),
            PathTrusteeEntry::Diagnostic { category, message } => PathTrusteeEntry::Diagnostic {
                category: *category,
                message: message.clone(),
            },
        }
    }
}

impl PathTrusteeEntry {
    /// The layer of the entry.
    pub open spec fn layer(self) -> TrusteeCategory {
        match self {
            PathTrusteeEntry::Ace(t) => t.category,
            PathTrusteeEntry::Diagnostic { category, .. } => category,
        }
    }

    /// The layer of the entry, whatever its variant.
    pub fn category(&self) -> (r: TrusteeCategory)
        ensures
            r == self.layer(),
    {
        match self {
            PathTrusteeEntry::Ace(t) => t.category,
            PathTrusteeEntry::Diagnostic { category, .. } => *category,
        }
    }

    /// Makes a hint.
    pub fn diagnostic(category: TrusteeCategory, message: &str) -> (r: Self)
        ensures
            r@ == TrusteeEntryView::Diagnostic(category, message@),
    {
        PathTrusteeEntry::Diagnostic { category, message: message.to_owned() }
    }
}

/// What a [`PathTrustee`] says.
pub struct TrusteeView {
    pub sid: Seq<char>,
    pub display_name: Option<Seq<char>>,
    pub kind: AceKind,
    pub mask: AccessMask,
    pub inherited: bool,
    pub inheritance_flags: u32,
    pub propagation_flags: u32,
    pub category: TrusteeCategory,
}

impl View for PathTrustee {
    type V = TrusteeView;

    open spec fn view(&self) -> TrusteeView {
        TrusteeView {
            sid: self.sid@,
            display_name: text::text_of(self.display_name),
            kind: self.kind,
            mask: self.mask,
            inherited: self.inherited,
            inheritance_flags: self.inheritance_flags,
            propagation_flags: self.propagation_flags,
            category: self.category,
        }
    }
}

/// What a [`PathTrusteeEntry`] says.
pub enum TrusteeEntryView {
    Ace(TrusteeView),
    Diagnostic(TrusteeCategory, Seq<char>),
}

impl View for PathTrusteeEntry {
    type V = TrusteeEntryView;

    open spec fn view(&self) -> TrusteeEntryView {
        match self {
            PathTrusteeEntry::Ace(t) => TrusteeEntryView::Ace(t@),
            PathTrusteeEntry::Diagnostic { category, message } => TrusteeEntryView::Diagnostic(
                *category,
                message@,
            ),
        }
    }
}

/// The views of a sequence of entries.
pub open spec fn entry_views(s: Seq<PathTrusteeEntry>) -> Seq<TrusteeEntryView> {
    s.map_values(|e: PathTrusteeEntry| e@)
}

/// The trustees of a path.
#[derive(Debug, Clone)]
pub struct PathTrustees {
    pub path: NormalizedPath,
    pub trustees: Vec<PathTrusteeEntry>,
}

/// An entry says all that it holds: of a real entry the trustee with its name, whether it
/// allows or denies, the mask, the origin, the flags and the layer; of a hint the layer and
/// the message.
pub proof fn law_entry_says_everything(e: PathTrusteeEntry)
    ensures
        e matches PathTrusteeEntry::Ace(t) ==> (e@ matches TrusteeEntryView::Ace(v) && {
            &&& v.sid == t.sid.0@
            &&& v.display_name is Some == t.display_name is Some
            &&& t.display_name matches Some(name) ==> v.display_name == Some(name@)
            &&& v.kind == t.kind
            &&& v.mask == t.mask
            &&& v.inherited == t.inherited
            &&& v.inheritance_flags == t.inheritance_flags
            &&& v.propagation_flags == t.propagation_flags
            &&& v.category == t.category
            &&& e.layer() == t.category
        }),
        e matches PathTrusteeEntry::Diagnostic { category, message } ==> (e@
            matches TrusteeEntryView::Diagnostic(c, m) && c == category && m == message@
            && e.layer() == category),
{
}

} // verus!
