//! Who is on the DACL of a path, without an identity in view.

use vstd::hash_map::StringHashMap;
use vstd::prelude::*;

use crate::ad::sam;
use crate::ad::sam::{build_sid_name_map, AccountInfo};
use crate::error::CoreError;
use crate::model::access::{AceEntry, FileSystemObject, SharePermission};
use crate::model::trustee;
use crate::model::trustee::{PathTrustee, PathTrusteeEntry, TrusteeCategory};
use crate::text;

verus! {

/// The trustees of a share, read once and attached to every path below it.
#[derive(Debug, Clone)]
pub struct ShareTrusteeOverlay {
    pub trustees: Vec<PathTrusteeEntry>,
}

impl Default for ShareTrusteeOverlay {
    fn default() -> (r: Self)
        ensures
            r.trustees@.len() == 0,
    {
        ShareTrusteeOverlay { trustees: Vec::new() }
    }
}

/// The DACL of a share.
#[derive(Debug)]
pub enum ShareDacl {
    /// There is none: no restriction on the SMB side.
    NullDacl,
    Acl(Vec<SharePermission>),
}

/// The message for a share without a DACL.
pub open spec fn share_null_message() -> Seq<char> {
    "Share NULL DACL — no SMB restriction (effective: Everyone full access)"@
}

/// The message for an object without a DACL.
pub open spec fn ntfs_null_message() -> Seq<char> {
    "NTFS NULL DACL — no access restriction (effective: Everyone full access)"@
}

/// The trustee of a share permission.
pub open spec fn share_trustee(p: SharePermission) -> trustee::TrusteeEntryView {
    trustee::TrusteeEntryView::Ace(
        trustee::TrusteeView {
            sid: p.sid@,
            display_name: None,
            kind: p.kind,
            mask: p.mask,
            inherited: false,
            inheritance_flags: 0,
            propagation_flags: 0,
            category: TrusteeCategory::Share,
        },
    )
}

/// The trustees of a share. A NULL DACL and one that could not be read are hints,
/// not entries.
pub open spec fn share_entries(reply: Result<ShareDacl, String>) -> Seq<trustee::TrusteeEntryView> {
    match reply {
        Ok(ShareDacl::NullDacl) => seq![
            trustee::TrusteeEntryView::Diagnostic(TrusteeCategory::Share, share_null_message()),
        ],
        Ok(ShareDacl::Acl(permissions)) => permissions@.map_values(
            |p: SharePermission| share_trustee(p),
        ),
        Err(e) => seq![
            trustee::TrusteeEntryView::Diagnostic(
                TrusteeCategory::Share,
                "Share-DACL nicht lesbar / share DACL not readable: "@ + e@,
            ),
        ],
    }
}

/// Makes the overlay of a share from its DACL, or from the message why it could
/// not be read.
pub fn read_share_overlay(reply: Result<ShareDacl, String>) -> (r: ShareTrusteeOverlay)
    ensures
        trustee::entry_views(r.trustees@) == share_entries(reply),
{
    let mut trustees: Vec<PathTrusteeEntry> = Vec::new();
    match &reply {
        Ok(ShareDacl::NullDacl) => {
            trustees.push(
                PathTrusteeEntry::diagnostic(
                    TrusteeCategory::Share,
                    "Share NULL DACL — no SMB restriction (effective: Everyone full access)",
                ),
            );
        },
        Ok(ShareDacl::Acl(permissions)) => {
            for i in 0..permissions.len()
                invariant
                    trustees@.len() == i,
                    forall|j: int| 0 <= j < i ==> (#[trigger] trustees@[j])@ == share_trustee(
                        permissions@[j],
                    ),
            {
                let p: &SharePermission = &permissions[i];
                trustees.push(
                    PathTrusteeEntry::Ace(
                        PathTrustee {
                            sid: p.sid.clone(),
                            display_name: None,
                            kind: p.kind,
                            mask: p.mask,
                            inherited: false,
                            inheritance_flags: 0,
                            propagation_flags: 0,
                            category: TrusteeCategory::Share,
                        },
                    ),
                );
            }
        },
        Err(e) => {
            trustees.push(
                PathTrusteeEntry::diagnostic(
                    TrusteeCategory::Share,
                    "Share-DACL nicht lesbar / share DACL not readable: ".to_owned().concat(
                        e.as_str(),
                    ).as_str(),
                ),
            );
        },
    }
    assert(trustee::entry_views(trustees@) =~= share_entries(reply));
    ShareTrusteeOverlay { trustees }
}

/// The trustee of an entry of an NTFS DACL.
pub open spec fn ntfs_trustee(ace: AceEntry) -> trustee::TrusteeEntryView {
    trustee::TrusteeEntryView::Ace(
        trustee::TrusteeView {
            sid: ace.sid@,
            display_name: None,
            kind: ace.kind,
            mask: ace.mask,
            inherited: ace.inherited,
            inheritance_flags: ace.inheritance_flags,
            propagation_flags: ace.propagation_flags,
            category: TrusteeCategory::Ntfs,
        },
    )
}

/// The trustees of an object. A NULL DACL is a hint, not an entry.
pub open spec fn ntfs_entries(fso: FileSystemObject) -> Seq<trustee::TrusteeEntryView> {
    if fso.null_dacl {
        seq![trustee::TrusteeEntryView::Diagnostic(TrusteeCategory::Ntfs, ntfs_null_message())]
    } else {
        fso.dacl@.map_values(|ace: AceEntry| ntfs_trustee(ace))
    }
}

/// The entries of an overlay, where there is one.
pub open spec fn overlay_entries(overlay: Option<&ShareTrusteeOverlay>) -> Seq<
    trustee::TrusteeEntryView,
> {
    match overlay {
        Some(o) => trustee::entry_views(o.trustees@),
        None => Seq::empty(),
    }
}

/// `e` with the name from the table, where it is an entry without a name. Hints
/// stay as they are.
pub open spec fn named(
    e: trustee::TrusteeEntryView,
    names: Map<Seq<char>, Seq<char>>,
) -> trustee::TrusteeEntryView {
    match e {
        trustee::TrusteeEntryView::Ace(t) => if t.display_name is None && names.contains_key(
            t.sid,
        ) {
            trustee::TrusteeEntryView::Ace(
                trustee::TrusteeView { display_name: Some(names[t.sid]), ..t },
            )
        } else {
            e
        },
        trustee::TrusteeEntryView::Diagnostic(_, _) => e,
    }
}

/// The trustees of a path: those of the object, then those of the share, with
/// their names.
pub open spec fn path_entries(
    fso: FileSystemObject,
    overlay: Option<&ShareTrusteeOverlay>,
    names: Map<Seq<char>, Seq<char>>,
) -> Seq<trustee::TrusteeEntryView> {
    (ntfs_entries(fso) + overlay_entries(overlay)).map_values(
        |e: trustee::TrusteeEntryView| named(e, names),
    )
}

/// The names in a table.
pub open spec fn table(names: Map<Seq<char>, String>) -> Map<Seq<char>, Seq<char>> {
    names.map_values(|s: String| s@)
}

/// Gives an entry its name from the table.
fn with_name(entry: PathTrusteeEntry, names: &StringHashMap<String>) -> (r: PathTrusteeEntry)
    ensures
        r@ == named(entry@, table(names@)),
{
    match entry {
        PathTrusteeEntry::Ace(t) => {
            let mut t: PathTrustee = t;
            if t.display_name.is_none() {
                if let Some(name) = names.get(t.sid.0.as_str()) {
                    t.display_name = Some(name.clone());
                }
            }
            PathTrusteeEntry::Ace(t)
        },
        other => other,
    }
}

/// Lists the trustees of a path. The names come from the table alone; nothing is
/// looked up.
pub fn build_path_trustees_with_share_and_names(
    fso: &FileSystemObject,
    share_overlay: Option<&ShareTrusteeOverlay>,
    sid_names: &StringHashMap<String>,
) -> (r: Vec<PathTrusteeEntry>)
    ensures
        trustee::entry_views(r@) == path_entries(*fso, share_overlay, table(sid_names@)),
{
    let mut out: Vec<PathTrusteeEntry> = Vec::new();
    let ghost names = table(sid_names@);
    let ghost want = path_entries(*fso, share_overlay, names);
    if fso.null_dacl {
        out.push(
            PathTrusteeEntry::diagnostic(
                TrusteeCategory::Ntfs,
                "NTFS NULL DACL — no access restriction (effective: Everyone full access)",
            ),
        );
    } else {
        for i in 0..fso.dacl.len()
            invariant
                !fso.null_dacl,
                names == table(sid_names@),
                out@.len() == i,
                forall|j: int| 0 <= j < i ==> (#[trigger] out@[j])@ == named(
                    ntfs_trustee(fso.dacl@[j]),
                    names,
                ),
        {
            let ace: &AceEntry = &fso.dacl[i];
            let entry: PathTrusteeEntry = PathTrusteeEntry::Ace(
                PathTrustee {
                    sid: ace.sid.clone(),
                    display_name: None,
                    kind: ace.kind,
                    mask: ace.mask,
                    inherited: ace.inherited,
                    inheritance_flags: ace.inheritance_flags,
                    propagation_flags: ace.propagation_flags,
                    category: TrusteeCategory::Ntfs,
                },
            );
            out.push(with_name(entry, sid_names));
        }
    }
    let ghost count = out@.len() as int;
    assert(count == ntfs_entries(*fso).len());
    assert(forall|j: int| 0 <= j < count ==> (#[trigger] out@[j])@ == want[j]);
    if let Some(overlay) = share_overlay {
        for i in 0..overlay.trustees.len()
            invariant
                names == table(sid_names@),
                want == path_entries(*fso, share_overlay, names),
                share_overlay == Some(overlay),
                count == ntfs_entries(*fso).len(),
                out@.len() == count + i,
                forall|j: int| 0 <= j < count + i ==> (#[trigger] out@[j])@ == want[j],
        {
            let entry: PathTrusteeEntry = overlay.trustees[i].clone();
            assert(overlay_entries(share_overlay)[i as int] == entry@);
            out.push(with_name(entry, sid_names));
        }
    }
    assert(trustee::entry_views(out@) =~= want);
    out
}

/// Lists the trustees of a path. `answers` is what was looked up for the SIDs of
/// [`collect_ace_sids_for_resolution`].
pub fn build_path_trustees_with_share(
    fso: &FileSystemObject,
    share_overlay: Option<&ShareTrusteeOverlay>,
    answers: Vec<(String, Result<AccountInfo, CoreError>)>,
) -> (r: Vec<PathTrusteeEntry>)
    ensures
        trustee::entry_views(r@) == path_entries(
            *fso,
            share_overlay,
            sam::learned_all(sam::seeded(Seq::empty()), answers@).names,
        ),
{
    let names: StringHashMap<String> = build_sid_name_map(&[], answers);
    build_path_trustees_with_share_and_names(fso, share_overlay, &names)
}

/// Lists the trustees of a path. `share` is what was read of the DACL of the
/// share, where there is an SMB context.
pub fn build_path_trustees(
    fso: &FileSystemObject,
    share: Option<Result<ShareDacl, String>>,
    answers: Vec<(String, Result<AccountInfo, CoreError>)>,
) -> (r: Vec<PathTrusteeEntry>)
    ensures
        trustee::entry_views(r@) == (ntfs_entries(*fso) + (match share {
            Some(reply) => share_entries(reply),
            None => Seq::empty(),
        })).map_values(
            |e: trustee::TrusteeEntryView|
                named(e, sam::learned_all(sam::seeded(Seq::empty()), answers@).names),
        ),
{
    match share {
        Some(reply) => {
            let overlay: ShareTrusteeOverlay = read_share_overlay(reply);
            build_path_trustees_with_share(fso, Some(&overlay), answers)
        },
        None => build_path_trustees_with_share(fso, None, answers),
    }
}

/// The SIDs of the entries among `entries` that are not empty, in their order.
pub open spec fn sids_of(entries: Seq<trustee::TrusteeEntryView>) -> Seq<Seq<char>>
    decreases entries.len(),
{
    if entries.len() == 0 {
        Seq::empty()
    } else {
        let init = sids_of(entries.drop_last());
        match entries.last() {
            trustee::TrusteeEntryView::Ace(t) => if t.sid.len() == 0 {
                init
            } else {
                init.push(t.sid)
            },
            trustee::TrusteeEntryView::Diagnostic(_, _) => init,
        }
    }
}

proof fn lemma_sids_of_concat(
    a: Seq<trustee::TrusteeEntryView>,
    b: Seq<trustee::TrusteeEntryView>,
)
    ensures
        sids_of(a + b) == sids_of(a) + sids_of(b),
    decreases b.len(),
{
    if b.len() == 0 {
        assert(a + b =~= a);
        assert(sids_of(a) + sids_of(b) =~= sids_of(a));
    } else {
        assert((a + b).drop_last() =~= a + b.drop_last());
        lemma_sids_of_concat(a, b.drop_last());
        assert(sids_of(a + b) =~= sids_of(a) + sids_of(b));
    }
}

/// Collects the SIDs that need a name: those of the object, then those of the
/// share. Hints have none.
pub fn collect_ace_sids_for_resolution(
    fso: &FileSystemObject,
    share_overlay: Option<&ShareTrusteeOverlay>,
) -> (r: Vec<String>)
    ensures
        text::texts(r@) == sids_of(ntfs_entries(*fso) + overlay_entries(share_overlay)),
{
    let mut out: Vec<String> = Vec::new();
    assert(text::texts(out@) =~= Seq::empty());
    let ghost first = ntfs_entries(*fso);
    let ghost second = overlay_entries(share_overlay);
    if !fso.null_dacl {
        assert(first.take(0) =~= Seq::empty());
        for i in 0..fso.dacl.len()
            invariant
                !fso.null_dacl,
                first == ntfs_entries(*fso),
                text::texts(out@) == sids_of(first.take(i as int)),
        {
            assert(first.take(i + 1).drop_last() =~= first.take(i as int));
            assert(first[i as int] == ntfs_trustee(fso.dacl@[i as int]));
            if !fso.dacl[i].sid.0.as_str().is_empty() {
                let ghost before = text::texts(out@);
                out.push(fso.dacl[i].sid.0.clone());
                assert(text::texts(out@) =~= before.push(fso.dacl@[i as int].sid@));
            }
        }
        assert(first.take(first.len() as int) =~= first);
    } else {
        reveal_with_fuel(sids_of, 2);
        assert(sids_of(first) =~= Seq::empty());
    }
    proof {
        lemma_sids_of_concat(first, second);
    }
    assert(first + second.take(0) =~= first);
    if let Some(overlay) = share_overlay {
        for i in 0..overlay.trustees.len()
            invariant
                share_overlay == Some(overlay),
                second == overlay_entries(share_overlay),
                text::texts(out@) == sids_of(first + second.take(i as int)),
        {
            assert((first + second.take(i + 1)).drop_last() =~= first + second.take(i as int));
            assert(second[i as int] == overlay.trustees@[i as int]@);
            if let PathTrusteeEntry::Ace(t) = &overlay.trustees[i] {
                if !t.sid.0.as_str().is_empty() {
                    let ghost before = text::texts(out@);
                    out.push(t.sid.0.clone());
                    assert(text::texts(out@) =~= before.push(t.sid@));
                }
            }
        }
    }
    assert(first + second.take(second.len() as int) =~= first + second);
    out
}

/// Names never change who is listed, in what order, and with what rights; and a
/// hint is never touched.
pub proof fn law_names_change_names_only(
    e: trustee::TrusteeEntryView,
    names: Map<Seq<char>, Seq<char>>,
)
    ensures
        e is Diagnostic ==> named(e, names) == e,
        e matches trustee::TrusteeEntryView::Ace(t) ==> (named(e, names)
            matches trustee::TrusteeEntryView::Ace(u) && u == (trustee::TrusteeView {
            display_name: u.display_name,
            ..t
        })),
{
}

/// Every entry of a DACL is listed, those of the object before those of the share.
pub proof fn law_every_ace_is_listed(
    fso: FileSystemObject,
    overlay: Option<&ShareTrusteeOverlay>,
    names: Map<Seq<char>, Seq<char>>,
)
    requires
        !fso.null_dacl,
    ensures
        path_entries(fso, overlay, names).len() == fso.dacl@.len() + overlay_entries(overlay).len(),
        forall|i: int|
            0 <= i < fso.dacl@.len() ==> (#[trigger] path_entries(fso, overlay, names)[i]) is Ace
                && path_entries(fso, overlay, names)[i]->Ace_0.sid == fso.dacl@[i].sid@
                && path_entries(fso, overlay, names)[i]->Ace_0.category == TrusteeCategory::Ntfs,
{
    let entries = path_entries(fso, overlay, names);
    let plain = ntfs_entries(fso) + overlay_entries(overlay);
    assert forall|i: int| 0 <= i < fso.dacl@.len() implies (#[trigger] entries[i]) is Ace
        && entries[i]->Ace_0.sid == fso.dacl@[i].sid@ && entries[i]->Ace_0.category
        == TrusteeCategory::Ntfs by {
        assert(plain[i] == ntfs_trustee(fso.dacl@[i]));
        assert(entries[i] == named(plain[i], names));
    }
}

/// Every entry of a DACL is listed as it is: trustee, kind, mask and flags are those of the
/// entry at the same position, and the name is the one in the table.
pub proof fn law_listed_entry_is_the_ace(
    fso: FileSystemObject,
    overlay: Option<&ShareTrusteeOverlay>,
    names: Map<Seq<char>, Seq<char>>,
    i: int,
)
    requires
        !fso.null_dacl,
        0 <= i < fso.dacl@.len(),
    ensures
        ({
            let ace = fso.dacl@[i];
            &&& i < path_entries(fso, overlay, names).len()
            &&& path_entries(fso, overlay, names)[i] matches trustee::TrusteeEntryView::Ace(t)
            &&& t.sid == ace.sid@
            &&& t.kind == ace.kind
            &&& t.mask == ace.mask
            &&& t.inherited == ace.inherited
            &&& t.inheritance_flags == ace.inheritance_flags
            &&& t.propagation_flags == ace.propagation_flags
            &&& t.category == TrusteeCategory::Ntfs
            &&& (t.display_name is Some) == names.contains_key(ace.sid@)
            &&& names.contains_key(ace.sid@) ==> t.display_name == Some(names[ace.sid@])
        }),
{
    let plain = ntfs_entries(fso) + overlay_entries(overlay);
    assert(plain[i] == ntfs_trustee(fso.dacl@[i]));
    assert(path_entries(fso, overlay, names)[i] == named(plain[i], names));
}

/// Behind the entries of the object, or its one hint, stand those of the share: as they
/// are, but for the name of an entry that has none.
pub proof fn law_share_is_listed_behind_the_object(
    fso: FileSystemObject,
    overlay: &ShareTrusteeOverlay,
    names: Map<Seq<char>, Seq<char>>,
    i: int,
)
    requires
        0 <= i < overlay.trustees@.len(),
    ensures
        ({
            let first = if fso.null_dacl {
                1
            } else {
                fso.dacl@.len() as int
            };
            let all = path_entries(fso, Some(overlay), names);
            let shown = all[first + i];
            &&& all.len() == first + overlay.trustees@.len()
            &&& match overlay.trustees@[i] {
                PathTrusteeEntry::Diagnostic { category, message } => shown
                    == trustee::TrusteeEntryView::Diagnostic(category, message@),
                PathTrusteeEntry::Ace(t) => shown matches trustee::TrusteeEntryView::Ace(u)
                    && u.sid == t.sid@ && u.kind == t.kind && u.mask == t.mask && u.inherited
                    == t.inherited && u.inheritance_flags == t.inheritance_flags
                    && u.propagation_flags == t.propagation_flags && u.category == t.category
                    && u.display_name == (match t.display_name {
                    Some(n) => Some(n@),
                    None => if names.contains_key(t.sid@) {
                        Some(names[t.sid@])
                    } else {
                        None
                    },
                }),
            }
        }),
{
    let plain = ntfs_entries(fso) + overlay_entries(Some(overlay));
    let first = ntfs_entries(fso).len() as int;
    assert(overlay_entries(Some(overlay))[i] == overlay.trustees@[i]@);
    assert(plain[first + i] == overlay.trustees@[i]@);
    assert(path_entries(fso, Some(overlay), names)[first + i] == named(plain[first + i], names));
}

/// An object without a DACL has one hint on its layer, and no entry of its own.
pub proof fn law_null_dacl_is_a_hint(
    fso: FileSystemObject,
    overlay: Option<&ShareTrusteeOverlay>,
    names: Map<Seq<char>, Seq<char>>,
)
    requires
        fso.null_dacl,
    ensures
        path_entries(fso, overlay, names).len() == 1 + overlay_entries(overlay).len(),
        path_entries(fso, overlay, names)[0] matches trustee::TrusteeEntryView::Diagnostic(c, m)
            && c == TrusteeCategory::Ntfs && m.len() > 0,
{
    reveal_strlit("NTFS NULL DACL — no access restriction (effective: Everyone full access)");
    let plain = ntfs_entries(fso) + overlay_entries(overlay);
    assert(plain[0] == ntfs_entries(fso)[0]);
    assert(path_entries(fso, overlay, names)[0] == named(plain[0], names));
}

/// The DACL of a share is listed permission by permission; a share without a DACL, or one
/// that could not be read, gives exactly one hint, which holds the reason.
pub proof fn law_share_permissions_are_listed(reply: Result<ShareDacl, String>)
    ensures
        reply matches Ok(ShareDacl::Acl(ps)) ==> {
            &&& share_entries(reply).len() == ps@.len()
            &&& forall|i: int|
                0 <= i < ps@.len() ==> ((#[trigger] share_entries(reply)[i])
                    matches trustee::TrusteeEntryView::Ace(t) && t.sid == ps@[i].sid@ && t.kind
                    == ps@[i].kind && t.mask == ps@[i].mask && !t.inherited && t.inheritance_flags
                    == 0 && t.propagation_flags == 0 && t.display_name is None && t.category
                    == TrusteeCategory::Share)
        },
        !(reply matches Ok(ShareDacl::Acl(_))) ==> share_entries(reply).len() == 1
            && share_entries(reply)[0] is Diagnostic && share_entries(reply)[0]->Diagnostic_0
            == TrusteeCategory::Share,
        reply matches Err(e) ==> e@.is_suffix_of(share_entries(reply)[0]->Diagnostic_1),
{
    if let Err(e) = reply {
        let m = share_entries(reply)[0]->Diagnostic_1;
        assert(m.subrange(m.len() - e@.len(), m.len() as int) =~= e@);
    }
}

/// A SID is looked up exactly where an entry of the object or of the share has it and it
/// is not empty.
pub proof fn law_every_trustee_is_looked_up(
    fso: FileSystemObject,
    overlay: Option<&ShareTrusteeOverlay>,
    s: Seq<char>,
)
    ensures
        sids_of(ntfs_entries(fso) + overlay_entries(overlay)).contains(s) == (s.len() > 0 && ((
        !fso.null_dacl && exists|i: int| 0 <= i < fso.dacl@.len() && (#[trigger] fso.dacl@[i]).sid@
            == s) || (overlay is Some && exists|i: int|
            0 <= i < overlay->0.trustees@.len() && ((#[trigger] overlay->0.trustees@[i])
                matches PathTrusteeEntry::Ace(t) && t.sid@ == s)))),
{
    let a = ntfs_entries(fso);
    let b = overlay_entries(overlay);
    lemma_sids_of_contains(a + b, s);
    let all = a + b;
    if s.len() > 0 {
        if !fso.null_dacl && exists|i: int|
            0 <= i < fso.dacl@.len() && (#[trigger] fso.dacl@[i]).sid@ == s {
            let i = choose|i: int| 0 <= i < fso.dacl@.len() && (#[trigger] fso.dacl@[i]).sid@ == s;
            assert(all[i] == ntfs_trustee(fso.dacl@[i]));
        }
        if overlay is Some && exists|i: int|
            0 <= i < overlay->0.trustees@.len() && ((#[trigger] overlay->0.trustees@[i])
                matches PathTrusteeEntry::Ace(t) && t.sid@ == s) {
            let i = choose|i: int|
                0 <= i < overlay->0.trustees@.len() && ((#[trigger] overlay->0.trustees@[i])
                    matches PathTrusteeEntry::Ace(t) && t.sid@ == s);
            assert(all[a.len() + i] == overlay->0.trustees@[i]@);
        }
        if exists|i: int|
            0 <= i < all.len() && ((#[trigger] all[i]) matches trustee::TrusteeEntryView::Ace(t)
                && t.sid == s) {
            let i = choose|i: int|
                0 <= i < all.len() && ((#[trigger] all[i]) matches trustee::TrusteeEntryView::Ace(t)
                    && t.sid == s);
            if i < a.len() {
                assert(all[i] == a[i]);
                if !fso.null_dacl {
                    assert(a[i] == ntfs_trustee(fso.dacl@[i]));
                }
            } else {
                assert(all[i] == overlay->0.trustees@[i - a.len()]@);
            }
        }
    }
}

proof fn lemma_sids_of_contains(entries: Seq<trustee::TrusteeEntryView>, s: Seq<char>)
    ensures
        sids_of(entries).contains(s) == (s.len() > 0 && exists|i: int|
            0 <= i < entries.len() && ((#[trigger] entries[i])
                matches trustee::TrusteeEntryView::Ace(t) && t.sid == s)),
    decreases entries.len(),
{
    if entries.len() > 0 {
        let init = entries.drop_last();
        lemma_sids_of_contains(init, s);
        assert(forall|i: int| 0 <= i < init.len() ==> init[i] == entries[i]);
        let old_sids = sids_of(init);
        let new_sids = sids_of(entries);
        if old_sids.contains(s) {
            let i = choose|i: int| 0 <= i < old_sids.len() && old_sids[i] == s;
            assert(new_sids[i] == s);
            let k = choose|i: int|
                0 <= i < init.len() && ((#[trigger] init[i])
                    matches trustee::TrusteeEntryView::Ace(t) && t.sid == s);
            assert(entries[k] == init[k]);
        }
        if let trustee::TrusteeEntryView::Ace(t) = entries.last() {
            if t.sid.len() > 0 {
                assert(new_sids[new_sids.len() - 1] == t.sid);
                assert(entries[entries.len() - 1] == entries.last());
            }
        }
    }
}

} // verus!
