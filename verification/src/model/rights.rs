//! Access masks in the words of an operator.

use std::collections::HashMap;

use vstd::prelude::*;

use crate::model::access::EffectivePermission;

verus! {

broadcast use vstd::std_specs::hash::group_hash_axioms;

/// What an access mask amounts to. The permission engine classifies the mask; the
/// reports show the outcome.
#[derive(Debug, Clone)]
pub struct NormalizedRights {
    /// The mask itself.
    pub raw: u32,
    pub full_control: bool,
    pub modify: bool,
    pub read: bool,
    pub write: bool,
    /// Short name, such as `Read`.
    pub display_name: String,
    /// Name with details, as shown on the console.
    pub description: String,
}

/// What the permission engine makes of the masks in a report, by mask.
pub type RightsTable = HashMap<u32, NormalizedRights>;

/// Whether the table holds every mask of a permission.
pub open spec fn covers(rights: Map<u32, NormalizedRights>, p: EffectivePermission) -> bool {
    &&& rights.contains_key(p.ntfs_mask.0)
    &&& rights.contains_key(p.effective_mask.0)
    &&& p.share_mask matches Some(m) ==> rights.contains_key(m.0)
}

/// Whether the table holds every mask of the permissions.
pub open spec fn covers_all(
    rights: Map<u32, NormalizedRights>,
    permissions: Seq<EffectivePermission>,
) -> bool {
    forall|i: int| 0 <= i < permissions.len() ==> covers(rights, #[trigger] permissions[i])
}

/// Decides whether the table holds every mask of the permissions.
pub fn covers_permissions(rights: &RightsTable, permissions: &[EffectivePermission]) -> (r: bool)
    ensures
        r == covers_all(rights@, permissions@),
{
    for i in 0..permissions.len()
        invariant
            forall|j: int| 0 <= j < i ==> covers(rights@, #[trigger] permissions@[j]),
    {
        let p: &EffectivePermission = &permissions[i];
        let share: bool = match p.share_mask {
            Some(m) => rights.contains_key(&m.0),
            None => true,
        };
        if !share || !rights.contains_key(&p.ntfs_mask.0) || !rights.contains_key(
            &p.effective_mask.0,
        ) {
            assert(!covers(rights@, permissions@[i as int]));
            return false;
        }
    }
    true
}

/// Looks a mask up.
pub fn rights_of(rights: &RightsTable, mask: u32) -> (r: &NormalizedRights)
    requires
        rights@.contains_key(mask),
    ensures
        *r == rights@[mask],
{
    rights.get(&mask).unwrap()
}

/// A table that covers the permissions has the mask of each layer of each of them; one that
/// lacks any of these masks does not.
pub proof fn law_table_covers_every_layer(
    rights: Map<u32, NormalizedRights>,
    permissions: Seq<EffectivePermission>,
    i: int,
)
    requires
        0 <= i < permissions.len(),
        covers_all(rights, permissions),
    ensures
        rights.contains_key(permissions[i].ntfs_mask.0),
        rights.contains_key(permissions[i].effective_mask.0),
        permissions[i].share_mask matches Some(m) ==> rights.contains_key(m.0),
{
    assert(covers(rights, permissions[i]));
}

} // verus!
