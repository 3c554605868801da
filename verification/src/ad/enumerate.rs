//! The identities that are offered while a name is typed.

use vstd::prelude::*;

use crate::error::CoreError;
use crate::model::identity::IdentityKind;
use crate::order;
use crate::order::{stable_sort, Sortable};
use crate::text;

verus! {

/// An identity as it is offered.
#[derive(Debug, PartialEq, Eq)]
pub struct IdentitySnapshot {
    /// Logon name without a domain.
    pub name: String,
    /// Authority or domain; empty for well-known identities without one.
    pub domain: String,
    pub kind: IdentityKind,
    /// Comment of the account, or a short gloss; may be empty.
    pub description: String,
}

/// What an [`IdentitySnapshot`] says.
pub struct SnapshotView {
    pub name: Seq<char>,
    pub domain: Seq<char>,
    pub kind: IdentityKind,
    pub description: Seq<char>,
}

impl View for IdentitySnapshot {
    type V = SnapshotView;

    open spec fn view(&self) -> SnapshotView {
        SnapshotView {
            name: self.name@,
            domain: self.domain@,
            kind: self.kind,
            description: self.description@,
        }
    }
}

/// The views of a sequence of snapshots.
pub open spec fn snapshot_views(s: Seq<IdentitySnapshot>) -> Seq<SnapshotView> {
    s.map_values(|x: IdentitySnapshot| x@)
}

/// `name` behind its domain, where it has one.
pub open spec fn qualified(domain: Seq<char>, name: Seq<char>) -> Seq<char> {
    if domain.len() == 0 {
        name
    } else {
        domain + "\\"@ + name
    }
}

impl IdentitySnapshot {
    /// Whether the name or the domain holds `query`, regardless of case.
    pub fn matches(&self, query: &str) -> (r: bool)
        ensures
            r == (text::occurs_in(text::unicode_lower(query@), text::unicode_lower(self.name@))
                || text::occurs_in(text::unicode_lower(query@), text::unicode_lower(self.domain@))),
    {
        let q: String = text::lower(query);
        text::contains(text::lower(self.name.as_str()).as_str(), q.as_str()) || text::contains(
            text::lower(self.domain.as_str()).as_str(),
            q.as_str(),
        )
    }

    /// The form `DOMAIN\Name`, or the name alone where there is no domain.
    pub fn qualified_name(&self) -> (r: String)
        ensures
            r@ == qualified(self.domain@, self.name@),
    {
        if self.domain.as_str().is_empty() {
            self.name.clone()
        } else {
            self.domain.clone().concat("\\").concat(self.name.as_str())
        }
    }
}

/// An account as the system lists it.
#[derive(Debug)]
pub struct RawAccount {
    pub name: String,
    pub comment: String,
    /// Full name of a user; empty for a group.
    pub full_name: String,
}

/// The accounts that were listed, and the status with which the listing ended.
#[derive(Debug)]
pub struct RawListing {
    pub accounts: Vec<RawAccount>,
    pub status: u32,
}

/// The snapshot of an account: its comment, or else its full name, describes it.
pub open spec fn account_snapshot(
    a: RawAccount,
    domain: Seq<char>,
    kind: IdentityKind,
) -> SnapshotView {
    SnapshotView {
        name: a.name@,
        domain,
        kind,
        description: if a.comment@.len() > 0 {
            a.comment@
        } else {
            a.full_name@
        },
    }
}

/// The snapshots of the accounts that have a name, in their order.
pub open spec fn account_snapshots(
    accounts: Seq<RawAccount>,
    domain: Seq<char>,
    kind: IdentityKind,
) -> Seq<SnapshotView>
    decreases accounts.len(),
{
    if accounts.len() == 0 {
        Seq::empty()
    } else {
        let init = account_snapshots(accounts.drop_last(), domain, kind);
        if accounts.last().name@.len() == 0 {
            init
        } else {
            init.push(account_snapshot(accounts.last(), domain, kind))
        }
    }
}

/// Turns a listing into snapshots. `source` names the call in the error where
/// the listing failed.
fn snapshots_of_listing(listing: RawListing, domain: &str, kind: IdentityKind, source: &str) -> (r:
    Result<Vec<IdentitySnapshot>, CoreError>)
    ensures
        listing.status == 0 ==> (r matches Ok(v) && snapshot_views(v@) == account_snapshots(
            listing.accounts@,
            domain@,
            kind,
        )),
        listing.status != 0 ==> (r matches Err(CoreError::LdapQuery(m)) && m@ == source@
            + " failed with status "@ + text::decimal(listing.status as nat)),
{
    if listing.status != 0 {
        let mut m: String = source.to_owned().concat(" failed with status ");
        text::push_decimal(&mut m, listing.status as u64);
        return Err(CoreError::LdapQuery(m));
    }
    let mut out: Vec<IdentitySnapshot> = Vec::new();
    assert(snapshot_views(out@) =~= Seq::empty());
    for i in 0..listing.accounts.len()
        invariant
            snapshot_views(out@) == account_snapshots(
                listing.accounts@.take(i as int),
                domain@,
                kind,
            ),
    {
        let a: &RawAccount = &listing.accounts[i];
        assert(listing.accounts@.take(i + 1).drop_last() =~= listing.accounts@.take(i as int));
        if !a.name.as_str().is_empty() {
            let ghost before = snapshot_views(out@);
            let s: IdentitySnapshot = IdentitySnapshot {
                name: a.name.clone(),
                domain: domain.to_owned(),
                kind,
                description: if !a.comment.as_str().is_empty() {
                    a.comment.clone()
                } else {
                    a.full_name.clone()
                },
            };
            out.push(s);
            assert(snapshot_views(out@) =~= before.push(s@));
        }
    }
    assert(listing.accounts@.take(listing.accounts@.len() as int) =~= listing.accounts@);
    Ok(out)
}

/// The identities that no listing returns but that matter in an audit.
pub open spec fn well_known() -> Seq<SnapshotView> {
    seq![
        well_known_entry(
            "Everyone"@,
            ""@,
            "Everyone, including anonymous access in certain configurations"@,
        ),
        well_known_entry(
            "Authenticated Users"@,
            "NT AUTHORITY"@,
            "Every authenticated user (excludes anonymous logon)"@,
        ),
        well_known_entry("ANONYMOUS LOGON"@, "NT AUTHORITY"@, "Unauthenticated access"@),
        well_known_entry(
            "SYSTEM"@,
            "NT AUTHORITY"@,
            "Local System — services run under this identity"@,
        ),
        well_known_entry(
            "LOCAL SERVICE"@,
            "NT AUTHORITY"@,
            "Local service account, no network authentication"@,
        ),
        well_known_entry(
            "NETWORK SERVICE"@,
            "NT AUTHORITY"@,
            "Service account with computer identity on the network"@,
        ),
        well_known_entry("NETWORK"@, "NT AUTHORITY"@, "Implicit for any access via SMB/network"@),
        well_known_entry("INTERACTIVE"@, "NT AUTHORITY"@, "Users logged on locally"@),
        well_known_entry("CREATOR OWNER"@, ""@, "Placeholder for the creator of an object"@),
    ]
}

/// A well-known identity.
pub open spec fn well_known_entry(
    name: Seq<char>,
    domain: Seq<char>,
    description: Seq<char>,
) -> SnapshotView {
    SnapshotView { name, domain, kind: IdentityKind::WellKnown, description }
}

/// Adds a well-known identity.
fn push_well_known(out: &mut Vec<IdentitySnapshot>, name: &str, domain: &str, description: &str)
    ensures
        snapshot_views(final(out)@) == snapshot_views(old(out)@).push(
            well_known_entry(name@, domain@, description@),
        ),
{
    let ghost before = snapshot_views(out@);
    let s: IdentitySnapshot = IdentitySnapshot {
        name: name.to_owned(),
        domain: domain.to_owned(),
        kind: IdentityKind::WellKnown,
        description: description.to_owned(),
    };
    out.push(s);
    assert(snapshot_views(out@) =~= before.push(s@));
}

/// Lists the well-known identities.
pub fn well_known_table() -> (r: Vec<IdentitySnapshot>)
    ensures
        snapshot_views(r@) == well_known(),
{
    let mut out: Vec<IdentitySnapshot> = Vec::new();
    assert(snapshot_views(out@) =~= Seq::empty());
    push_well_known(
        &mut out,
        "Everyone",
        "",
        "Everyone, including anonymous access in certain configurations",
    );
    push_well_known(
        &mut out,
        "Authenticated Users",
        "NT AUTHORITY",
        "Every authenticated user (excludes anonymous logon)",
    );
    push_well_known(&mut out, "ANONYMOUS LOGON", "NT AUTHORITY", "Unauthenticated access");
    push_well_known(
        &mut out,
        "SYSTEM",
        "NT AUTHORITY",
        "Local System — services run under this identity",
    );
    push_well_known(
        &mut out,
        "LOCAL SERVICE",
        "NT AUTHORITY",
        "Local service account, no network authentication",
    );
    push_well_known(
        &mut out,
        "NETWORK SERVICE",
        "NT AUTHORITY",
        "Service account with computer identity on the network",
    );
    push_well_known(&mut out, "NETWORK", "NT AUTHORITY", "Implicit for any access via SMB/network");
    push_well_known(&mut out, "INTERACTIVE", "NT AUTHORITY", "Users logged on locally");
    push_well_known(&mut out, "CREATOR OWNER", "", "Placeholder for the creator of an object");
    assert(snapshot_views(out@) =~= well_known());
    out
}

/// The domain and the name that identities are listed by, regardless of case.
impl Sortable for IdentitySnapshot {
    open spec fn key(self) -> order::Key {
        (text::unicode_lower(self.domain@), text::unicode_lower(self.name@))
    }

    fn sort_key(&self) -> (r: (String, String)) {
        (text::lower(self.domain.as_str()), text::lower(self.name.as_str()))
    }
}

/// Whether two snapshots are of the same account.
pub open spec fn is_same_account(a: IdentitySnapshot, b: IdentitySnapshot) -> bool {
    a.name@ == b.name@ && a.domain@ == b.domain@
}

/// `s` without the snapshots that repeat the one before them.
pub open spec fn without_repeats(s: Seq<IdentitySnapshot>) -> Seq<IdentitySnapshot>
    decreases s.len(),
{
    if s.len() == 0 {
        Seq::empty()
    } else {
        let init = without_repeats(s.drop_last());
        if init.len() > 0 && is_same_account(init.last(), s.last()) {
            init
        } else {
            init.push(s.last())
        }
    }
}

/// Drops the snapshots that repeat the one before them.
fn drop_repeats(items: Vec<IdentitySnapshot>) -> (r: Vec<IdentitySnapshot>)
    ensures
        r@ == without_repeats(items@),
{
    let mut out: Vec<IdentitySnapshot> = Vec::new();
    let ghost all = items@;
    let mut rest: Vec<IdentitySnapshot> = items;
    let mut back: Vec<IdentitySnapshot> = Vec::new();
    while rest.len() > 0
        invariant
            rest@.len() <= all.len(),
            rest@ == all.take(rest@.len() as int),
            back@ == all.skip(rest@.len() as int).reverse(),
        decreases rest@.len(),
    {
        let ghost n = rest@.len() as int;
        let x: IdentitySnapshot = rest.pop().unwrap();
        back.push(x);
        assert(rest@ =~= all.take(n - 1));
        assert(back@ =~= all.skip(n - 1).reverse());
    }
    assert(all.skip(0) =~= all);
    assert(all.take(0) =~= Seq::empty());
    while back.len() > 0
        invariant
            back@.len() <= all.len(),
            back@ == all.skip(all.len() - back@.len()).reverse(),
            out@ == without_repeats(all.take(all.len() - back@.len())),
        decreases back@.len(),
    {
        let ghost n = (all.len() - back@.len()) as int;
        assert(back@.last() == all[n]);
        let x: IdentitySnapshot = back.pop().unwrap();
        assert(back@ =~= all.skip(n + 1).reverse());
        assert(all.take(n + 1).drop_last() =~= all.take(n));
        let count: usize = out.len();
        let repeats: bool = count > 0 && out[count - 1].name == x.name && out[count - 1].domain
            == x.domain;
        if !repeats {
            out.push(x);
        }
    }
    assert(all.take(all.len() as int) =~= all);
    out
}

/// What the listings contribute: those that failed contribute nothing.
pub open spec fn gathered(
    domain: Seq<char>,
    users: RawListing,
    global_groups: RawListing,
    local_groups: RawListing,
) -> Seq<SnapshotView> {
    well_known() + (if users.status == 0 {
        account_snapshots(users.accounts@, domain, IdentityKind::User)
    } else {
        Seq::empty()
    }) + (if global_groups.status == 0 {
        account_snapshots(global_groups.accounts@, domain, IdentityKind::Group)
    } else {
        Seq::empty()
    }) + (if local_groups.status == 0 {
        account_snapshots(local_groups.accounts@, "BUILTIN"@, IdentityKind::Group)
    } else {
        Seq::empty()
    })
}

/// Adds what a listing contributes.
fn gather(out: &mut Vec<IdentitySnapshot>, found: Result<Vec<IdentitySnapshot>, CoreError>)
    ensures
        snapshot_views(final(out)@) == snapshot_views(old(out)@) + (match found {
            Ok(v) => snapshot_views(v@),
            Err(_) => Seq::empty(),
        }),
{
    let ghost before = out@;
    match found {
        Ok(v) => {
            let mut v: Vec<IdentitySnapshot> = v;
            let ghost added = v@;
            out.append(&mut v);
            assert(snapshot_views(out@) =~= snapshot_views(before) + snapshot_views(added));
        },
        Err(_) => {
            assert(snapshot_views(out@) =~= snapshot_views(before) + Seq::empty());
        },
    }
}

/// Collects the identities to offer: well-known ones, users, global and local
/// groups, by domain and name regardless of case, each account once. A listing
/// that failed is left out. `domain` is the NetBIOS domain of the host.
pub fn enumerate_all(
    domain: &str,
    users: RawListing,
    global_groups: RawListing,
    local_groups: RawListing,
) -> (r: Vec<IdentitySnapshot>)
    ensures
        exists|all: Seq<IdentitySnapshot>, sorted: Seq<IdentitySnapshot>| #[trigger]
            order::is_stable_sort(all, sorted) && snapshot_views(all) == gathered(
                domain@,
                users,
                global_groups,
                local_groups,
            ) && r@ == without_repeats(sorted),
{
    let mut out: Vec<IdentitySnapshot> = well_known_table();
    let ghost want = gathered(domain@, users, global_groups, local_groups);
    gather(&mut out, snapshots_of_listing(users, domain, IdentityKind::User, "NetUserEnum"));
    gather(
        &mut out,
        snapshots_of_listing(global_groups, domain, IdentityKind::Group, "NetGroupEnum"),
    );
    gather(
        &mut out,
        snapshots_of_listing(local_groups, "BUILTIN", IdentityKind::Group, "NetLocalGroupEnum"),
    );
    assert(snapshot_views(out@) == want);
    let ghost all = out@;
    let sorted: Vec<IdentitySnapshot> = stable_sort(out);
    assert(order::is_stable_sort(all, sorted@));
    drop_repeats(sorted)
}

/// Every account that is offered was found, and no two neighbours are the same
/// account.
pub proof fn law_no_neighbours_repeat(s: Seq<IdentitySnapshot>)
    ensures
        forall|i: int|
            0 < i < without_repeats(s).len() ==> !is_same_account(
                without_repeats(s)[i - 1],
                #[trigger] without_repeats(s)[i],
            ),
        forall|i: int|
            0 <= i < without_repeats(s).len() ==> s.contains(#[trigger] without_repeats(s)[i]),
    decreases s.len(),
{
    if s.len() > 0 {
        let init = without_repeats(s.drop_last());
        let r = without_repeats(s);
        law_no_neighbours_repeat(s.drop_last());
        assert forall|i: int| 0 <= i < r.len() implies s.contains(#[trigger] r[i]) by {
            if i < init.len() {
                assert(r[i] == init[i]);
                let j = choose|j: int| 0 <= j < s.drop_last().len() && s.drop_last()[j] == init[i];
                assert(s[j] == r[i]);
            } else {
                assert(s[s.len() - 1] == r[i]);
            }
        }
        assert forall|i: int| 0 < i < r.len() implies !is_same_account(
            r[i - 1],
            #[trigger] r[i],
        ) by {
            assert(r[i - 1] == init[i - 1]);
            if i < init.len() {
                assert(r[i] == init[i]);
            }
        }
    }
}

/// Every account with a name gives its snapshot, in their order: with its name, the domain
/// and the kind of the listing, and described by its comment, or else by its full name.
pub proof fn law_named_accounts_are_offered(
    accounts: Seq<RawAccount>,
    a: RawAccount,
    domain: Seq<char>,
    kind: IdentityKind,
)
    ensures
        account_snapshots(Seq::empty(), domain, kind).len() == 0,
        a.name@.len() == 0 ==> account_snapshots(accounts.push(a), domain, kind)
            == account_snapshots(accounts, domain, kind),
        a.name@.len() > 0 ==> {
            let all = account_snapshots(accounts.push(a), domain, kind);
            &&& all.drop_last() == account_snapshots(accounts, domain, kind)
            &&& all.len() > 0
            &&& all.last().name == a.name@
            &&& all.last().domain == domain
            &&& all.last().kind == kind
            &&& a.comment@.len() > 0 ==> all.last().description == a.comment@
            &&& a.comment@.len() == 0 ==> all.last().description == a.full_name@
        },
{
    assert(accounts.push(a).drop_last() =~= accounts);
    if a.name@.len() > 0 {
        let all = account_snapshots(accounts.push(a), domain, kind);
        assert(all.drop_last() =~= account_snapshots(accounts, domain, kind));
    }
}

/// An account with a name is among the snapshots of its listing.
proof fn lemma_account_is_listed(
    accounts: Seq<RawAccount>,
    domain: Seq<char>,
    kind: IdentityKind,
    k: int,
)
    requires
        0 <= k < accounts.len(),
        accounts[k].name@.len() > 0,
    ensures
        account_snapshots(accounts, domain, kind).contains(
            account_snapshot(accounts[k], domain, kind),
        ),
    decreases accounts.len(),
{
    let init = accounts.drop_last();
    let before = account_snapshots(init, domain, kind);
    let all = account_snapshots(accounts, domain, kind);
    let want = account_snapshot(accounts[k], domain, kind);
    if k < init.len() {
        lemma_account_is_listed(init, domain, kind, k);
        let i = choose|i: int| 0 <= i < before.len() && before[i] == want;
        assert(all[i] == want);
    } else {
        assert(all[all.len() - 1] == want);
    }
}

/// Whether the account `name` of `domain` is offered.
pub open spec fn offers(items: Seq<IdentitySnapshot>, domain: Seq<char>, name: Seq<char>) -> bool {
    exists|i: int|
        0 <= i < items.len() && (#[trigger] items[i]).name@ == name && items[i].domain@ == domain
}

/// Dropping repeats drops no account.
proof fn lemma_repeats_are_still_offered(s: Seq<IdentitySnapshot>, k: int)
    requires
        0 <= k < s.len(),
    ensures
        offers(without_repeats(s), s[k].domain@, s[k].name@),
    decreases s.len(),
{
    let init = without_repeats(s.drop_last());
    let all = without_repeats(s);
    if k < s.len() - 1 {
        lemma_repeats_are_still_offered(s.drop_last(), k);
        let i = choose|i: int|
            0 <= i < init.len() && (#[trigger] init[i]).name@ == s[k].name@ && init[i].domain@
                == s[k].domain@;
        assert(all[i] == init[i]);
    } else if init.len() > 0 && is_same_account(init.last(), s.last()) {
        assert(all[all.len() - 1].name@ == s[k].name@);
    } else {
        assert(all[all.len() - 1] == s[k]);
    }
}

/// What was gathered is offered, whatever the order.
proof fn lemma_gathered_is_offered(
    all: Seq<IdentitySnapshot>,
    sorted: Seq<IdentitySnapshot>,
    v: SnapshotView,
)
    requires
        order::is_stable_sort(all, sorted),
        snapshot_views(all).contains(v),
    ensures
        offers(without_repeats(sorted), v.domain, v.name),
{
    broadcast use vstd::seq_lib::group_to_multiset_ensures;

    let i = choose|i: int| 0 <= i < snapshot_views(all).len() && snapshot_views(all)[i] == v;
    let x = all[i];
    order::law_sorting_keeps_every_item(all, sorted, 0, 0);
    assert(all.contains(x));
    assert(all.to_multiset().count(x) > 0);
    assert(sorted.contains(x));
    let k = choose|k: int| 0 <= k < sorted.len() && sorted[k] == x;
    lemma_repeats_are_still_offered(sorted, k);
}

/// Every account that a listing named is offered: users and global groups under the domain of
/// the host, local groups under `BUILTIN`, and the well-known identities in any case. A
/// listing that failed takes nothing away from the others.
pub proof fn law_every_account_is_offered(
    domain: Seq<char>,
    users: RawListing,
    global_groups: RawListing,
    local_groups: RawListing,
    all: Seq<IdentitySnapshot>,
    sorted: Seq<IdentitySnapshot>,
    k: int,
)
    requires
        order::is_stable_sort(all, sorted),
        snapshot_views(all) == gathered(domain, users, global_groups, local_groups),
    ensures
        ({
            let r = without_repeats(sorted);
            &&& users.status == 0 && 0 <= k < users.accounts@.len()
                && users.accounts@[k].name@.len() > 0 ==> offers(
                r,
                domain,
                users.accounts@[k].name@,
            )
            &&& global_groups.status == 0 && 0 <= k < global_groups.accounts@.len()
                && global_groups.accounts@[k].name@.len() > 0 ==> offers(
                r,
                domain,
                global_groups.accounts@[k].name@,
            )
            &&& local_groups.status == 0 && 0 <= k < local_groups.accounts@.len()
                && local_groups.accounts@[k].name@.len() > 0 ==> offers(
                r,
                "BUILTIN"@,
                local_groups.accounts@[k].name@,
            )
            &&& 0 <= k < well_known().len() ==> offers(
                r,
                well_known()[k].domain,
                well_known()[k].name,
            )
        }),
{
    let g = gathered(domain, users, global_groups, local_groups);
    let w = well_known();
    let u = if users.status == 0 {
        account_snapshots(users.accounts@, domain, IdentityKind::User)
    } else {
        Seq::empty()
    };
    let x = if global_groups.status == 0 {
        account_snapshots(global_groups.accounts@, domain, IdentityKind::Group)
    } else {
        Seq::empty()
    };
    let l = if local_groups.status == 0 {
        account_snapshots(local_groups.accounts@, "BUILTIN"@, IdentityKind::Group)
    } else {
        Seq::empty()
    };
    if 0 <= k < w.len() {
        assert(g[k] == w[k]);
        lemma_gathered_is_offered(all, sorted, w[k]);
    }
    if users.status == 0 && 0 <= k < users.accounts@.len() && users.accounts@[k].name@.len() > 0 {
        let v = account_snapshot(users.accounts@[k], domain, IdentityKind::User);
        lemma_account_is_listed(users.accounts@, domain, IdentityKind::User, k);
        let i = choose|i: int| 0 <= i < u.len() && u[i] == v;
        assert(g[w.len() + i] == v);
        lemma_gathered_is_offered(all, sorted, v);
    }
    if global_groups.status == 0 && 0 <= k < global_groups.accounts@.len()
        && global_groups.accounts@[k].name@.len() > 0 {
        let v = account_snapshot(global_groups.accounts@[k], domain, IdentityKind::Group);
        lemma_account_is_listed(global_groups.accounts@, domain, IdentityKind::Group, k);
        let i = choose|i: int| 0 <= i < x.len() && x[i] == v;
        assert(g[w.len() + u.len() + i] == v);
        lemma_gathered_is_offered(all, sorted, v);
    }
    if local_groups.status == 0 && 0 <= k < local_groups.accounts@.len()
        && local_groups.accounts@[k].name@.len() > 0 {
        let v = account_snapshot(local_groups.accounts@[k], "BUILTIN"@, IdentityKind::Group);
        lemma_account_is_listed(local_groups.accounts@, "BUILTIN"@, IdentityKind::Group, k);
        let i = choose|i: int| 0 <= i < l.len() && l[i] == v;
        assert(g[w.len() + u.len() + x.len() + i] == v);
        lemma_gathered_is_offered(all, sorted, v);
    }
}

/// A name stands behind its domain and a backslash, or alone without a domain.
pub proof fn law_name_stands_behind_its_domain(domain: Seq<char>, name: Seq<char>)
    ensures
        domain.len() == 0 ==> qualified(domain, name) == name,
        domain.len() > 0 ==> qualified(domain, name) == domain.push('\\') + name,
{
    reveal_strlit("\\");
    assert(domain + "\\"@ =~= domain.push('\\'));
}

/// Identities are listed by their domains, and by their names within a domain, whatever the
/// case.
pub proof fn law_identities_are_listed_by_domain(x: IdentitySnapshot)
    ensures
        x.key().0 == text::unicode_lower(x.domain@),
        x.key().1 == text::unicode_lower(x.name@),
{
}

/// An offered identity says all that it holds.
pub proof fn law_snapshot_says_everything(s: IdentitySnapshot)
    ensures
        s@.name == s.name@,
        s@.domain == s.domain@,
        s@.kind == s.kind,
        s@.description == s.description@,
{
}

/// The well-known identities are nine: two without a domain, and seven of the system's own
/// authority. Each is of the well-known kind.
pub proof fn law_nine_identities_are_well_known(i: int)
    ensures
        well_known().len() == 9,
        0 <= i < 9 ==> well_known()[i].kind == IdentityKind::WellKnown,
        0 <= i < 9 ==> well_known()[i].domain == (if i == 0 || i == 8 {
            ""@
        } else {
            "NT AUTHORITY"@
        }),
        well_known().map_values(|s: SnapshotView| s.name) == seq![
            "Everyone"@,
            "Authenticated Users"@,
            "ANONYMOUS LOGON"@,
            "SYSTEM"@,
            "LOCAL SERVICE"@,
            "NETWORK SERVICE"@,
            "NETWORK"@,
            "INTERACTIVE"@,
            "CREATOR OWNER"@,
        ],
{
    assert(well_known().map_values(|s: SnapshotView| s.name) =~= seq![
        "Everyone"@,
        "Authenticated Users"@,
        "ANONYMOUS LOGON"@,
        "SYSTEM"@,
        "LOCAL SERVICE"@,
        "NETWORK SERVICE"@,
        "NETWORK"@,
        "INTERACTIVE"@,
        "CREATOR OWNER"@,
    ]);
}

} // verus!
