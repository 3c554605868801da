//! Recursive group memberships and the chains that explain them.
//!
//! The directory says which groups a principal belongs to; the `memberOf`
//! attributes of the entries say through which route. The groups form a graph
//! with an edge from each group to the groups it is a direct member of. A
//! breadth-first search from the direct groups of the principal finds a
//! shortest chain to every group that can be reached.

use vstd::prelude::*;

use crate::ad::ldap_client;
use crate::ad::ldap_client::RawEntry;
use crate::ad::resolver;
use crate::ad::resolver::{
    extract_sid_from_entry, name_of_entry, sid_history_of_entry,
};
use crate::model::identity::clone_text;
use crate::model::membership;
use crate::model::membership::{short_path, GroupMembership, MembershipPath, MembershipPathSource};
use crate::model::sid;
use crate::model::sid::Sid;
use crate::text;

verus! {

/// A group of the graph.
pub struct GroupNode {
    /// Distinguished name, in lower case.
    pub dn: String,
    pub sid: Sid,
    pub name: Option<String>,
    /// Distinguished names of the groups it is a direct member of, in lower case.
    pub parents: Vec<String>,
}

/// What a [`GroupNode`] says.
pub struct NodeView {
    pub dn: Seq<char>,
    pub sid: Seq<char>,
    pub name: Option<Seq<char>>,
    pub parents: Seq<Seq<char>>,
}

impl View for GroupNode {
    type V = NodeView;

    open spec fn view(&self) -> NodeView {
        NodeView {
            dn: self.dn@,
            sid: self.sid@,
            name: text::text_of(self.name),
            parents: text::texts(self.parents@),
        }
    }
}

/// The views of a sequence of nodes.
pub open spec fn node_views(s: Seq<GroupNode>) -> Seq<NodeView> {
    s.map_values(|n: GroupNode| n@)
}

/// The lower-case forms of `values`.
pub open spec fn lowered(values: Seq<String>) -> Seq<Seq<char>> {
    values.map_values(|s: String| text::ascii_lower(s@))
}

/// Makes the ASCII letters of all values lower-case.
fn lower_all(values: &[String]) -> (r: Vec<String>)
    ensures
        text::texts(r@) == lowered(values@),
{
    let mut out: Vec<String> = Vec::new();
    for i in 0..values.len()
        invariant
            out@.len() == i,
            forall|j: int|
                0 <= j < i ==> (#[trigger] out@[j])@ == text::ascii_lower(values@[j]@),
    {
        out.push(text::to_ascii_lower(values[i].as_str()));
    }
    assert(text::texts(out@) =~= lowered(values@));
    out
}

/// Whether a node with this distinguished name is in `nodes`.
pub open spec fn has_dn(nodes: Seq<NodeView>, dn: Seq<char>) -> bool {
    exists|i: int| 0 <= i < nodes.len() && (#[trigger] nodes[i]).dn == dn
}

/// Whether no two nodes have the same distinguished name.
pub open spec fn distinct_dns(nodes: Seq<NodeView>) -> bool {
    forall|i: int, j: int|
        0 <= i < j < nodes.len() ==> (#[trigger] nodes[i]).dn != (#[trigger] nodes[j]).dn
}

/// The node of an entry with the SID `s`.
pub open spec fn entry_node(entry: RawEntry, s: Seq<char>) -> NodeView {
    NodeView {
        dn: text::ascii_lower(entry.dn@),
        sid: s,
        name: resolver::entry_name(entry),
        parents: lowered(ldap_client::attr_values(entry.attrs@, "memberOf"@)),
    }
}

/// The graph of the entries: one node per distinguished name, from the first
/// entry that has a SID.
pub open spec fn graph_of(entries: Seq<RawEntry>) -> Seq<NodeView>
    decreases entries.len(),
{
    if entries.len() == 0 {
        Seq::empty()
    } else {
        let init = graph_of(entries.drop_last());
        match resolver::entry_sid(entries.last()) {
            Some(s) => if has_dn(init, text::ascii_lower(entries.last().dn@)) {
                init
            } else {
                init.push(entry_node(entries.last(), s))
            },
            None => init,
        }
    }
}

/// The nodes of a graph have distinct names.
proof fn lemma_graph_distinct(entries: Seq<RawEntry>)
    ensures
        distinct_dns(graph_of(entries)),
    decreases entries.len(),
{
    if entries.len() > 0 {
        lemma_graph_distinct(entries.drop_last());
        let init = graph_of(entries.drop_last());
        let all = graph_of(entries);
        assert forall|i: int, j: int| 0 <= i < j < all.len() implies (#[trigger] all[i]).dn != (
        #[trigger] all[j]).dn by {
            if all.len() > init.len() && j == init.len() {
                assert(all[i] == init[i]);
                assert(all[j].dn == text::ascii_lower(entries.last().dn@));
                assert(!has_dn(init, all[j].dn));
            } else {
                assert(all[i] == init[i] && all[j] == init[j]);
            }
        }
    }
}

/// Finds the node with a distinguished name.
fn find_node(nodes: &Vec<GroupNode>, dn: &str) -> (r: Option<usize>)
    ensures
        (match r {
            Some(i) => i < nodes@.len() && nodes@[i as int].dn@ == dn@,
            None => !has_dn(node_views(nodes@), dn@),
        }),
{
    for i in 0..nodes.len()
        invariant
            forall|j: int| 0 <= j < i ==> (#[trigger] node_views(nodes@)[j]).dn != dn@,
    {
        if text::same_text(nodes[i].dn.as_str(), dn) {
            return Some(i);
        }
        assert(node_views(nodes@)[i as int].dn == nodes@[i as int].dn@);
    }
    None
}

/// Adds the node of an entry.
fn register(nodes: &mut Vec<GroupNode>, entry: &RawEntry)
    ensures
        node_views(final(nodes)@) == (match resolver::entry_sid(*entry) {
            Some(s) => if has_dn(node_views(old(nodes)@), text::ascii_lower(entry.dn@)) {
                node_views(old(nodes)@)
            } else {
                node_views(old(nodes)@).push(entry_node(*entry, s))
            },
            None => node_views(old(nodes)@),
        }),
{
    let dn: String = text::to_ascii_lower(entry.dn.as_str());
    let known: Option<usize> = find_node(nodes, dn.as_str());
    if let Some(i) = known {
        assert(node_views(nodes@)[i as int].dn == dn@);
        return;
    }
    if let Some(sid) = extract_sid_from_entry(entry) {
        let name: Option<String> = name_of_entry(entry);
        let parents: Vec<String> = lower_all(entry.all_attr("memberOf"));
        let node: GroupNode = GroupNode { dn, sid, name, parents };
        let ghost before = node_views(nodes@);
        nodes.push(node);
        assert(node_views(nodes@) =~= before.push(node@));
    }
}

/// Adds the nodes of entries.
fn register_all(nodes: &mut Vec<GroupNode>, entries: &Vec<RawEntry>, done: Ghost<Seq<RawEntry>>)
    requires
        node_views(old(nodes)@) == graph_of(done@),
    ensures
        node_views(final(nodes)@) == graph_of(done@ + entries@),
{
    assert(done@ + entries@.take(0) =~= done@);
    for i in 0..entries.len()
        invariant
            node_views(nodes@) == graph_of(done@ + entries@.take(i as int)),
    {
        register(nodes, &entries[i]);
        let ghost now = done@ + entries@.take(i + 1);
        assert(now.drop_last() =~= done@ + entries@.take(i as int));
        assert(now.last() == entries@[i as int]);
    }
    assert(entries@.take(entries@.len() as int) =~= entries@);
}

/// Whether the group `a` is a direct member of the group `b`.
pub open spec fn is_edge(nodes: Seq<NodeView>, a: int, b: int) -> bool {
    0 <= a < nodes.len() && 0 <= b < nodes.len() && nodes[a].parents.contains(nodes[b].dn)
}

/// Whether the principal belongs to the group `a` without an intermediate group.
pub open spec fn is_start(nodes: Seq<NodeView>, starts: Seq<Seq<char>>, a: int) -> bool {
    0 <= a < nodes.len() && starts.contains(nodes[a].dn)
}

/// Whether `c` is a chain of groups from the principal: it starts with a group
/// the principal is in, and each group is a direct member of the next.
pub open spec fn is_chain(nodes: Seq<NodeView>, starts: Seq<Seq<char>>, c: Seq<int>) -> bool {
    &&& c.len() > 0
    &&& is_start(nodes, starts, c[0])
    &&& forall|i: int| 0 <= i < c.len() - 1 ==> is_edge(nodes, #[trigger] c[i], c[i + 1])
}

/// Whether `c` is a chain to the group with the name `dn`, and none is shorter.
pub open spec fn is_shortest_chain(
    nodes: Seq<NodeView>,
    starts: Seq<Seq<char>>,
    dn: Seq<char>,
    c: Seq<int>,
) -> bool {
    &&& is_chain_to(nodes, starts, dn, c)
    &&& forall|d: Seq<int>| #[trigger] is_chain_to(nodes, starts, dn, d) ==> c.len() <= d.len()
}

/// Whether `c` is a chain to the group with the name `dn`.
pub open spec fn is_chain_to(
    nodes: Seq<NodeView>,
    starts: Seq<Seq<char>>,
    dn: Seq<char>,
    c: Seq<int>,
) -> bool {
    is_chain(nodes, starts, c) && 0 <= c.last() < nodes.len() && nodes[c.last()].dn == dn
}

/// Whether there is a chain to the group with the name `dn`.
pub open spec fn is_reachable(nodes: Seq<NodeView>, starts: Seq<Seq<char>>, dn: Seq<char>) -> bool {
    exists|c: Seq<int>| is_chain_to(nodes, starts, dn, c)
}

/// State of the search: the nodes found so far in the order they were found,
/// and how each was found.
struct Search {
    found: Vec<usize>,
    seen: Vec<bool>,
    /// The group through which a group was found; `None` where the principal is
    /// in it directly.
    link: Vec<Option<usize>>,
    /// Number of groups on the chain to a group.
    depth: Vec<usize>,
}

impl Search {
    /// The tables fit the graph, and what they say is true of it.
    spec fn wf(self, nodes: Seq<NodeView>, starts: Seq<Seq<char>>) -> bool {
        let n = nodes.len();
        &&& self.seen@.len() == n
        &&& self.link@.len() == n
        &&& self.depth@.len() == n
        &&& self.found@.len() <= n
        &&& forall|i: int| 0 <= i < self.found@.len() ==> (#[trigger] self.found@[i]) < n
            && self.seen@[self.found@[i] as int]
        &&& forall|i: int, j: int|
            0 <= i < j < self.found@.len() ==> (#[trigger] self.found@[i]) != (
            #[trigger] self.found@[j])
        &&& forall|v: int|
            0 <= v < n && (#[trigger] self.seen@[v]) ==> exists|i: int|
                0 <= i < self.found@.len() && #[trigger] self.found@[i] == v
        &&& forall|v: int|
            0 <= v < n && self.seen@[v] ==> #[trigger] self.step_ok(nodes, starts, v)
        &&& forall|i: int, j: int|
            0 <= i < j < self.found@.len() ==> self.depth@[(#[trigger] self.found@[i]) as int]
                <= self.depth@[(#[trigger] self.found@[j]) as int]
    }

    /// How `v` was found is true of the graph.
    spec fn step_ok(self, nodes: Seq<NodeView>, starts: Seq<Seq<char>>, v: int) -> bool {
        &&& 1 <= self.depth@[v] <= self.found@.len()
        &&& match self.link@[v] {
            None => is_start(nodes, starts, v) && self.depth@[v] == 1,
            Some(u) => {
                &&& u < nodes.len()
                &&& self.seen@[u as int]
                &&& is_edge(nodes, u as int, v)
                &&& self.depth@[v] == self.depth@[u as int] + 1
            },
        }
    }

    /// Every start was found, at depth one.
    spec fn has_starts(self, nodes: Seq<NodeView>, starts: Seq<Seq<char>>) -> bool {
        forall|v: int|
            #[trigger] is_start(nodes, starts, v) ==> self.seen@[v] && self.depth@[v] == 1
    }

    /// The parents of the first `h` nodes were found, at most one step deeper.
    spec fn is_closed_to(self, nodes: Seq<NodeView>, h: int) -> bool {
        forall|i: int, w: int|
            0 <= i < h && #[trigger] is_edge(nodes, (#[trigger] self.found@[i]) as int, w)
                ==> self.seen@[w] && self.depth@[w] <= self.depth@[self.found@[i] as int] + 1
    }

    /// Adds a node that was not found before.
    fn add_node(&mut self, v: usize, link: Option<usize>, depth: usize, Ghost(nodes): Ghost<
        Seq<NodeView>,
    >, Ghost(starts): Ghost<Seq<Seq<char>>>)
        requires
            old(self).wf(nodes, starts),
            v < nodes.len(),
            !old(self).seen@[v as int],
            1 <= depth <= old(self).found@.len() + 1,
            forall|i: int|
                0 <= i < old(self).found@.len() ==> old(self).depth@[(
                #[trigger] old(self).found@[i]) as int] <= depth,
            (match link {
                None => is_start(nodes, starts, v as int) && depth == 1,
                Some(u) => u < nodes.len() && old(self).seen@[u as int] && is_edge(
                    nodes,
                    u as int,
                    v as int,
                ) && depth == old(self).depth@[u as int] + 1,
            }),
        ensures
            final(self).wf(nodes, starts),
            final(self).found@ == old(self).found@.push(v),
            final(self).seen@ == old(self).seen@.update(v as int, true),
            final(self).depth@ == old(self).depth@.update(v as int, depth),
    {
        proof {
            lemma_found_bound(old(self).found@, old(self).seen@, v as int);
        }
        self.found.push(v);
        self.seen.set(v, true);
        self.link.set(v, link);
        self.depth.set(v, depth);
        proof {
            let n = nodes.len();
            assert forall|i: int, j: int| 0 <= i < j < self.found@.len() implies (
            #[trigger] self.found@[i]) != (#[trigger] self.found@[j]) by {
                if j == old(self).found@.len() {
                    assert(old(self).seen@[old(self).found@[i] as int]);
                }
            }
            assert forall|w: int| 0 <= w < n && (#[trigger] self.seen@[w]) implies exists|i: int|
                0 <= i < self.found@.len() && #[trigger] self.found@[i] == w by {
                if w == v {
                    assert(self.found@[old(self).found@.len() as int] == w);
                } else {
                    assert(old(self).seen@[w]);
                    let i = choose|i: int|
                        0 <= i < old(self).found@.len() && #[trigger] old(self).found@[i] == w;
                    assert(self.found@[i] == w);
                }
            }
            assert forall|w: int| 0 <= w < n && self.seen@[w] implies #[trigger] self.step_ok(
                nodes,
                starts,
                w,
            ) by {
                if w != v {
                    assert(old(self).seen@[w]);
                    assert(old(self).step_ok(nodes, starts, w));
                }
            }
            assert forall|i: int, j: int| 0 <= i < j < self.found@.len() implies self.depth@[(
            #[trigger] self.found@[i]) as int] <= self.depth@[(
            #[trigger] self.found@[j]) as int] by {
                assert(self.found@[i] == old(self).found@[i]);
                assert(old(self).seen@[old(self).found@[i] as int]);
                if j < old(self).found@.len() {
                    assert(self.found@[j] == old(self).found@[j]);
                    assert(old(self).seen@[old(self).found@[j] as int]);
                }
            }
        }
    }
}

impl Search {
    /// What was found before is still there, at the same depth.
    spec fn extends(self, before: Search) -> bool {
        &&& self.found@.len() >= before.found@.len()
        &&& self.seen@.len() == before.seen@.len()
        &&& forall|i: int|
            0 <= i < before.found@.len() ==> self.found@[i] == #[trigger] before.found@[i]
        &&& forall|v: int|
            0 <= v < before.seen@.len() && #[trigger] before.seen@[v] ==> self.seen@[v]
                && self.depth@[v] == before.depth@[v]
    }

    /// No depth is above `limit`.
    spec fn is_bounded(self, limit: int) -> bool {
        forall|j: int|
            0 <= j < self.found@.len() ==> self.depth@[(#[trigger] self.found@[j]) as int] <= limit
    }

    /// Finds the parents of `u` that were not found before.
    fn expand(&mut self, nodes: &Vec<GroupNode>, u: usize, Ghost(starts): Ghost<Seq<Seq<char>>>)
        requires
            old(self).wf(node_views(nodes@), starts),
            distinct_dns(node_views(nodes@)),
            u < nodes@.len(),
            old(self).seen@[u as int],
            old(self).is_bounded(old(self).depth@[u as int] + 1),
        ensures
            final(self).wf(node_views(nodes@), starts),
            final(self).extends(*old(self)),
            final(self).is_bounded(old(self).depth@[u as int] + 1),
            forall|w: int| #[trigger]
                is_edge(node_views(nodes@), u as int, w) ==> final(self).seen@[w]
                    && final(self).depth@[w] <= old(self).depth@[u as int] + 1,
    {
        let ghost g = node_views(nodes@);
        let ghost before = *self;
        let du: usize = self.depth[u];
        let m: usize = nodes[u].parents.len();
        let ghost parents = g[u as int].parents;
        assert(parents == text::texts(nodes@[u as int].parents@));
        for k in 0..m
            invariant
                g == node_views(nodes@),
                distinct_dns(g),
                u < nodes@.len(),
                m == nodes@[u as int].parents@.len(),
                parents == g[u as int].parents,
                parents == text::texts(nodes@[u as int].parents@),
                self.wf(g, starts),
                self.extends(before),
                before.seen@.len() == g.len(),
                before.seen@[u as int],
                du == before.depth@[u as int],
                self.is_bounded(du + 1),
                forall|w: int|
                    0 <= w < g.len() && parents.take(k as int).contains((#[trigger] g[w]).dn)
                        ==> self.seen@[w] && self.depth@[w] <= du + 1,
        {
            let p: &str = nodes[u].parents[k].as_str();
            assert(p@ == parents[k as int]);
            let ghost mid = *self;
            assert(self.seen@[u as int] && self.depth@[u as int] == du);
            let target: Option<usize> = find_node(nodes, p);
            if let Some(w) = target {
                assert(g[w as int].dn == p@);
                assert(parents.contains(g[w as int].dn));
                self.visit(w, u, Ghost(g), Ghost(starts));
            }
            proof {
                let now = parents.take(k + 1);
                assert forall|w: int| 0 <= w < g.len() && now.contains(
                    (#[trigger] g[w]).dn,
                ) implies self.seen@[w] && self.depth@[w] <= du + 1 by {
                    if parents.take(k as int).contains(g[w].dn) {
                        assert(mid.seen@[w]);
                    } else {
                        let q = choose|q: int| 0 <= q < now.len() && now[q] == g[w].dn;
                        if q < k {
                            assert(parents.take(k as int)[q] == g[w].dn);
                        }
                        assert(has_dn(g, p@));
                        lemma_same_dn(g, target->0 as int, w);
                    }
                }
                lemma_extends_transitive(before, mid, *self);
            }
        }
        proof {
            assert(parents.take(m as int) =~= parents);
            assert forall|w: int| #[trigger] is_edge(g, u as int, w) implies self.seen@[w]
                && self.depth@[w] <= du + 1 by {
                assert(parents.contains(g[w].dn));
            }
        }
    }

    /// Finds `w` through `u`, unless it was found before.
    fn visit(&mut self, w: usize, u: usize, Ghost(g): Ghost<Seq<NodeView>>, Ghost(starts): Ghost<
        Seq<Seq<char>>,
    >)
        requires
            old(self).wf(g, starts),
            w < g.len(),
            u < g.len(),
            old(self).seen@[u as int],
            is_edge(g, u as int, w as int),
            old(self).is_bounded(old(self).depth@[u as int] + 1),
        ensures
            final(self).wf(g, starts),
            final(self).extends(*old(self)),
            final(self).is_bounded(old(self).depth@[u as int] + 1),
            final(self).seen@[w as int],
            final(self).depth@[w as int] <= old(self).depth@[u as int] + 1,
    {
        assert(self.step_ok(g, starts, u as int));
        if self.seen[w] {
            proof {
                let i = choose|i: int|
                    0 <= i < self.found@.len() && #[trigger] self.found@[i] == w;
                assert(self.depth@[self.found@[i] as int] <= self.depth@[u as int] + 1);
            }
            return;
        }
        proof {
            lemma_found_bound(self.found@, self.seen@, w as int);
        }
        let du: usize = self.depth[u];
        let total: usize = self.seen.len();
        assert(du < total);
        let ghost before = *self;
        self.add_node(w, Some(u), du + 1, Ghost(g), Ghost(starts));
        assert forall|j: int| 0 <= j < self.found@.len() implies self.depth@[(
        #[trigger] self.found@[j]) as int] <= du + 1 by {
            if j < before.found@.len() {
                assert(before.seen@[before.found@[j] as int]);
                assert(before.depth@[before.found@[j] as int] <= du + 1);
            }
        }
    }
}

/// Nodes with the same name are the same.
proof fn lemma_same_dn(g: Seq<NodeView>, a: int, b: int)
    requires
        distinct_dns(g),
        0 <= a < g.len(),
        0 <= b < g.len(),
        g[a].dn == g[b].dn,
    ensures
        a == b,
{
    if a < b {
        assert(g[a].dn != g[b].dn);
    } else if b < a {
        assert(g[b].dn != g[a].dn);
    }
}

/// Finding more is transitive.
proof fn lemma_extends_transitive(a: Search, b: Search, c: Search)
    requires
        b.extends(a),
        c.extends(b),
        a.found@.len() <= b.found@.len(),
    ensures
        c.extends(a),
{
    assert forall|i: int| 0 <= i < a.found@.len() implies c.found@[i]
        == #[trigger] a.found@[i] by {
        assert(b.found@[i] == a.found@[i]);
    }
    assert forall|v: int| 0 <= v < a.seen@.len() && #[trigger] a.seen@[v] implies c.seen@[v]
        && c.depth@[v] == a.depth@[v] by {
        assert(b.seen@[v]);
    }
}

/// Finding more keeps the starts and what was closed.
proof fn lemma_extends_keeps(
    before: Search,
    after: Search,
    g: Seq<NodeView>,
    starts: Seq<Seq<char>>,
    h: int,
)
    requires
        before.wf(g, starts),
        after.extends(before),
        before.has_starts(g, starts),
        before.is_closed_to(g, h),
        0 <= h <= before.found@.len(),
    ensures
        after.has_starts(g, starts),
        after.is_closed_to(g, h),
{
    assert forall|w: int| #[trigger] is_start(g, starts, w) implies after.seen@[w]
        && after.depth@[w] == 1 by {
        assert(before.seen@[w]);
    }
    assert forall|i: int, w: int|
        0 <= i < h && #[trigger] is_edge(g, (#[trigger] after.found@[i]) as int, w) implies
        after.seen@[w] && after.depth@[w] <= after.depth@[after.found@[i] as int] + 1 by {
        assert(after.found@[i] == before.found@[i]);
        assert(before.seen@[before.found@[i] as int]);
        assert(is_edge(g, before.found@[i] as int, w));
        assert(before.seen@[w]);
    }
}

/// A list of distinct nodes, all seen, leaves room for one that is not.
proof fn lemma_found_bound(found: Seq<usize>, seen: Seq<bool>, v: int)
    requires
        0 <= v < seen.len(),
        !seen[v],
        forall|i: int| 0 <= i < found.len() ==> (#[trigger] found[i]) < seen.len()
            && seen[found[i] as int],
        forall|i: int, j: int|
            0 <= i < j < found.len() ==> (#[trigger] found[i]) != (#[trigger] found[j]),
    ensures
        found.len() < seen.len(),
{
    let s = found.map_values(|x: usize| x as int).push(v);
    assert(s.no_duplicates()) by {
        assert forall|i: int, j: int| 0 <= i < s.len() && 0 <= j < s.len() && i != j implies s[i]
            != s[j] by {
            if i < found.len() && j < found.len() {
                if i < j {
                    assert(found[i] != found[j]);
                } else {
                    assert(found[j] != found[i]);
                }
            } else if i < found.len() {
                assert(seen[found[i] as int]);
            } else {
                assert(seen[found[j] as int]);
            }
        }
    }
    let all = vstd::set_lib::set_int_range(0, seen.len() as int);
    vstd::set_lib::lemma_int_range(0, seen.len() as int);
    s.unique_seq_to_set();
    assert(s.to_set().subset_of(all)) by {
        assert forall|x: int| s.to_set().contains(x) implies all.contains(x) by {
            let i = choose|i: int| 0 <= i < s.len() && s[i] == x;
            if i < found.len() {
                assert(found[i] < seen.len());
            }
        }
    }
    vstd::set_lib::lemma_len_subset(s.to_set(), all);
}

/// Searches the graph breadth-first from the starts.
fn search(nodes: &Vec<GroupNode>, starts: &Vec<String>) -> (r: Search)
    requires
        distinct_dns(node_views(nodes@)),
    ensures
        r.wf(node_views(nodes@), text::texts(starts@)),
        r.has_starts(node_views(nodes@), text::texts(starts@)),
        r.is_closed_to(node_views(nodes@), r.found@.len() as int),
{
    let ghost g = node_views(nodes@);
    let ghost st = text::texts(starts@);
    let n: usize = nodes.len();
    let mut seen: Vec<bool> = Vec::new();
    let mut link: Vec<Option<usize>> = Vec::new();
    let mut depth: Vec<usize> = Vec::new();
    for i in 0..n
        invariant
            seen@.len() == i,
            link@.len() == i,
            depth@.len() == i,
            forall|j: int| 0 <= j < i ==> !#[trigger] seen@[j],
    {
        seen.push(false);
        link.push(None);
        depth.push(0);
    }
    let mut s: Search = Search { found: Vec::new(), seen, link, depth };
    for v in 0..n
        invariant
            n == nodes@.len(),
            g == node_views(nodes@),
            st == text::texts(starts@),
            s.wf(g, st),
            forall|w: int| v <= w < n ==> !#[trigger] s.seen@[w],
            forall|w: int|
                w < v && #[trigger] is_start(g, st, w) ==> s.seen@[w] && s.depth@[w] == 1,
            forall|i: int|
                0 <= i < s.found@.len() ==> s.depth@[(#[trigger] s.found@[i]) as int] == 1,
    {
        assert(g[v as int].dn == nodes@[v as int].dn@);
        if text::is_listed(starts, nodes[v].dn.as_str()) {
            let ghost before = s;
            s.add_node(v, None, 1, Ghost(g), Ghost(st));
            proof {
                assert forall|w: int| w < v + 1 && #[trigger] is_start(g, st, w) implies s.seen@[w]
                    && s.depth@[w] == 1 by {
                    if w < v {
                        assert(before.seen@[w]);
                    }
                }
                assert forall|i: int| 0 <= i < s.found@.len() implies s.depth@[(
                #[trigger] s.found@[i]) as int] == 1 by {
                    if i < before.found@.len() {
                        assert(before.depth@[before.found@[i] as int] == 1);
                    }
                }
            }
        }
    }
    let mut h: usize = 0;
    while h < s.found.len()
        invariant
            n == nodes@.len(),
            g == node_views(nodes@),
            st == text::texts(starts@),
            distinct_dns(g),
            s.wf(g, st),
            s.has_starts(g, st),
            h <= s.found@.len(),
            s.is_closed_to(g, h as int),
            h < s.found@.len() ==> s.is_bounded(s.depth@[s.found@[h as int] as int] + 1),
        decreases n - h,
    {
        let u: usize = s.found[h];
        assert(s.seen@[u as int] && s.step_ok(g, st, u as int));
        let ghost before = s;
        s.expand(nodes, u, Ghost(st));
        proof {
            lemma_extends_keeps(before, s, g, st, h as int);
            assert(s.found@[h as int] == u);
            assert(s.is_closed_to(g, h + 1)) by {
                assert forall|i: int, w: int|
                    0 <= i < h + 1 && #[trigger] is_edge(
                        g,
                        (#[trigger] s.found@[i]) as int,
                        w,
                    ) implies s.seen@[w] && s.depth@[w] <= s.depth@[s.found@[i] as int] + 1 by {
                    if i == h {
                        assert(is_edge(g, u as int, w));
                    }
                }
            }
            if h + 1 < s.found@.len() {
                assert(s.depth@[s.found@[h as int] as int] <= s.depth@[s.found@[h + 1] as int]);
            }
        }
        h = h + 1;
    }
    s
}

/// A sequence of node numbers.
spec fn indices(v: Seq<usize>) -> Seq<int> {
    v.map_values(|x: usize| x as int)
}

/// Follows the links back from `v`: a chain of as many groups as the depth says.
fn chain_to(
    s: &Search,
    v: usize,
    Ghost(g): Ghost<Seq<NodeView>>,
    Ghost(starts): Ghost<Seq<Seq<char>>>,
) -> (r: Vec<usize>)
    requires
        s.wf(g, starts),
        v < g.len(),
        s.seen@[v as int],
    ensures
        is_chain(g, starts, indices(r@)),
        r@.last() == v,
        r@.len() == s.depth@[v as int],
        forall|i: int| 0 <= i < r@.len() ==> (#[trigger] r@[i]) < g.len(),
{
    let mut back: Vec<usize> = Vec::new();
    back.push(v);
    let mut cur: usize = v;
    assert(s.step_ok(g, starts, v as int));
    while s.link[cur].is_some()
        invariant
            s.wf(g, starts),
            cur < g.len(),
            s.seen@[cur as int],
            s.step_ok(g, starts, cur as int),
            back@.len() > 0,
            back@[0] == v,
            back@.last() == cur,
            back@.len() + s.depth@[cur as int] == s.depth@[v as int] + 1,
            forall|i: int| 0 <= i < back@.len() ==> (#[trigger] back@[i]) < g.len(),
            forall|i: int|
                0 <= i < back@.len() - 1 ==> is_edge(g, back@[i + 1] as int, (
                #[trigger] back@[i]) as int),
        decreases s.depth@[cur as int],
    {
        let u: usize = s.link[cur].unwrap();
        let ghost before = back@;
        assert(s.step_ok(g, starts, u as int));
        back.push(u);
        assert forall|i: int| 0 <= i < back@.len() - 1 implies is_edge(g, back@[i + 1] as int, (
        #[trigger] back@[i]) as int) by {
            if i < before.len() - 1 {
                assert(is_edge(g, before[i + 1] as int, before[i] as int));
            } else {
                assert(back@[i] == cur && back@[i + 1] == u);
            }
        }
        cur = u;
    }
    let n: usize = back.len();
    let mut out: Vec<usize> = Vec::new();
    for i in 0..n
        invariant
            n == back@.len(),
            out@.len() == i,
            forall|j: int| 0 <= j < i ==> #[trigger] out@[j] == back@[n - 1 - j],
    {
        out.push(back[n - 1 - i]);
    }
    proof {
        let c = indices(out@);
        assert(c[0] == cur);
        assert forall|i: int| 0 <= i < c.len() - 1 implies is_edge(g, #[trigger] c[i], c[i + 1]) by {
            let k = n - 2 - i;
            assert(is_edge(g, back@[k + 1] as int, back@[k] as int));
            assert(c[i] == back@[k + 1] && c[i + 1] == back@[k]);
        }
    }
    out
}

/// A finished search has found the end of every chain, no deeper than the
/// chain is long.
proof fn lemma_search_is_complete(
    s: Search,
    g: Seq<NodeView>,
    starts: Seq<Seq<char>>,
    c: Seq<int>,
)
    requires
        s.wf(g, starts),
        s.has_starts(g, starts),
        s.is_closed_to(g, s.found@.len() as int),
        is_chain(g, starts, c),
    ensures
        0 <= c.last() < g.len(),
        s.seen@[c.last()],
        s.depth@[c.last()] <= c.len(),
    decreases c.len(),
{
    if c.len() == 1 {
        assert(is_start(g, starts, c[0]));
    } else {
        let d = c.drop_last();
        assert(is_chain(g, starts, d)) by {
            assert forall|i: int| 0 <= i < d.len() - 1 implies is_edge(
                g,
                #[trigger] d[i],
                d[i + 1],
            ) by {
                assert(d[i] == c[i]);
            }
        }
        lemma_search_is_complete(s, g, starts, d);
        let u = d.last();
        assert(c[c.len() - 2] == u);
        assert(is_edge(g, u, c.last()));
        let i = choose|i: int| 0 <= i < s.found@.len() && #[trigger] s.found@[i] == u;
        assert(is_edge(g, s.found@[i] as int, c.last()));
    }
}

/// What the chains of a principal are made from.
pub struct Origin {
    pub sid: Seq<char>,
    pub name: Option<Seq<char>>,
    /// The graph of the groups.
    pub nodes: Seq<NodeView>,
    /// The groups the principal is in without an intermediate group.
    pub starts: Seq<Seq<char>>,
}

/// The membership path along a chain.
pub open spec fn chain_path(o: Origin, c: Seq<int>) -> membership::MembershipPathView {
    membership::MembershipPathView {
        nodes: seq![o.sid] + Seq::new(c.len(), |i: int| o.nodes[c[i]].sid),
        names: seq![o.name] + Seq::new(c.len(), |i: int| o.nodes[c[i]].name),
        source: MembershipPathSource::DomainGroup,
        complete: true,
    }
}

/// A group that the principal belongs to.
pub struct GroupFact {
    pub sid: Seq<char>,
    /// Distinguished name in lower case; `None` for the primary group.
    pub dn: Option<Seq<char>>,
    pub direct: bool,
    pub name: Option<Seq<char>>,
    pub history_count: nat,
    pub history: Seq<Seq<char>>,
}

/// Whether `p` is the right path to a group. To the primary group it is one
/// step. To another group it runs along a shortest chain; where there is no
/// chain, it is one step and marked as incomplete.
pub open spec fn explains(o: Origin, f: GroupFact, p: membership::MembershipPathView) -> bool {
    match f.dn {
        None => p == membership::short_path_view(
            o.sid,
            o.name,
            f.sid,
            f.name,
            MembershipPathSource::PrimaryGroup,
            true,
        ),
        Some(dn) => if is_reachable(o.nodes, o.starts, dn) {
            exists|c: Seq<int>| #[trigger]
                is_shortest_chain(o.nodes, o.starts, dn, c) && p == chain_path(o, c)
        } else {
            p == membership::short_path_view(
                o.sid,
                o.name,
                f.sid,
                f.name,
                MembershipPathSource::LdapMatchingRule,
                false,
            )
        },
    }
}

/// Whether `m` states the membership in a group.
pub open spec fn states(o: Origin, f: GroupFact, m: membership::GroupMembershipView) -> bool {
    &&& m.member_sid == o.sid
    &&& m.group_sid == f.sid
    &&& m.direct == f.direct
    &&& m.group_name == f.name
    &&& m.group_sid_history_count == f.history_count
    &&& m.group_sid_history == f.history
    &&& m.path is Some
    &&& explains(o, f, m.path->0)
}

/// Whether `ms` states the memberships in `facts`, one by one.
pub open spec fn states_all(o: Origin, facts: Seq<GroupFact>, ms: Seq<GroupMembership>) -> bool {
    &&& ms.len() == facts.len()
    &&& forall|i: int| 0 <= i < ms.len() ==> states(o, facts[i], (#[trigger] ms[i])@)
}

/// The group of an entry with the SID `s`; direct where its name is among `direct_dns`.
pub open spec fn entry_fact(e: RawEntry, s: Seq<char>, direct_dns: Seq<Seq<char>>) -> GroupFact {
    GroupFact {
        sid: s,
        dn: Some(text::ascii_lower(e.dn@)),
        direct: direct_dns.contains(text::ascii_lower(e.dn@)),
        name: resolver::entry_name(e),
        history_count: resolver::history_count(e),
        history: resolver::history_sids(e),
    }
}

/// `facts` with `f` behind them, unless its group is the principal itself or
/// is already there.
pub open spec fn with_fact(own: Seq<char>, facts: Seq<GroupFact>, f: GroupFact) -> Seq<GroupFact> {
    if f.sid == own || has_group(facts, f.sid) {
        facts
    } else {
        facts.push(f)
    }
}

/// Whether a group is among `facts`.
pub open spec fn has_group(facts: Seq<GroupFact>, s: Seq<char>) -> bool {
    exists|i: int| 0 <= i < facts.len() && (#[trigger] facts[i]).sid == s
}

/// `facts` with the groups of `entries` behind them. Entries without a SID are
/// left out.
pub open spec fn with_entries(
    own: Seq<char>,
    facts: Seq<GroupFact>,
    entries: Seq<RawEntry>,
    direct_dns: Seq<Seq<char>>,
) -> Seq<GroupFact>
    decreases entries.len(),
{
    if entries.len() == 0 {
        facts
    } else {
        let init = with_entries(own, facts, entries.drop_last(), direct_dns);
        match resolver::entry_sid(entries.last()) {
            Some(s) => with_fact(own, init, entry_fact(entries.last(), s, direct_dns)),
            None => init,
        }
    }
}

/// The fact that the primary group has the SID `s`.
pub open spec fn primary_fact(s: Seq<char>, entry: Option<RawEntry>) -> GroupFact {
    GroupFact {
        sid: s,
        dn: None,
        direct: true,
        name: match entry {
            Some(e) => resolver::entry_name(e),
            None => None,
        },
        history_count: match entry {
            Some(e) => resolver::history_count(e),
            None => 0,
        },
        history: match entry {
            Some(e) => resolver::history_sids(e),
            None => Seq::empty(),
        },
    }
}

/// What the directory says about the memberships of a principal.
pub struct MembershipEntries {
    /// The principal.
    pub principal: RawEntry,
    /// The groups it is in, directly or through other groups.
    pub transitive_groups: Vec<RawEntry>,
    /// SID of its primary group.
    pub primary_group_sid: Option<Sid>,
    /// The primary group.
    pub primary_group: Option<RawEntry>,
    /// The groups the primary group is in, directly or through other groups.
    pub primary_group_parents: Vec<RawEntry>,
}

/// The entry of the primary group as a list.
pub open spec fn primary_entries(m: MembershipEntries) -> Seq<RawEntry> {
    match m.primary_group {
        Some(e) => seq![e],
        None => Seq::empty(),
    }
}

/// The groups named in the `memberOf` attribute of the principal.
pub open spec fn direct_dns(m: MembershipEntries) -> Seq<Seq<char>> {
    lowered(ldap_client::attr_values(m.principal.attrs@, "memberOf"@))
}

/// Where the chains of the principal come from: its own groups and its primary group.
pub open spec fn origin_of(sid: Seq<char>, m: MembershipEntries) -> Origin {
    Origin {
        sid,
        name: resolver::entry_name(m.principal),
        nodes: graph_of(
            m.transitive_groups@ + m.primary_group_parents@ + primary_entries(m),
        ),
        starts: match m.primary_group {
            Some(e) => direct_dns(m).push(text::ascii_lower(e.dn@)),
            None => direct_dns(m),
        },
    }
}

/// The groups of the principal: its primary group, then those it is in, then
/// those its primary group is in; each once.
pub open spec fn group_facts(sid: Seq<char>, m: MembershipEntries) -> Seq<GroupFact> {
    let primary = match m.primary_group_sid {
        Some(p) => with_fact(sid, Seq::empty(), primary_fact(p@, m.primary_group)),
        None => Seq::empty(),
    };
    let own = with_entries(sid, primary, m.transitive_groups@, direct_dns(m));
    with_entries(sid, own, m.primary_group_parents@, Seq::empty())
}

/// Decides whether a group is already among the memberships.
fn is_member_listed(
    ms: &Vec<GroupMembership>,
    s: &Sid,
    Ghost(o): Ghost<Origin>,
    Ghost(facts): Ghost<Seq<GroupFact>>,
) -> (r: bool)
    requires
        states_all(o, facts, ms@),
    ensures
        r == has_group(facts, s@),
{
    for i in 0..ms.len()
        invariant
            states_all(o, facts, ms@),
            forall|j: int| 0 <= j < i ==> (#[trigger] facts[j]).sid != s@,
    {
        assert(states(o, facts[i as int], ms@[i as int]@));
        if ms[i].group_sid.0 == s.0 {
            assert(facts[i as int].sid == s@);
            return true;
        }
    }
    false
}

/// The path to the group with the name `dn`.
fn path_to(
    sid: &Sid,
    user_name: &Option<String>,
    group_sid: &Sid,
    group_name: &Option<String>,
    dn: &str,
    nodes: &Vec<GroupNode>,
    s: &Search,
    Ghost(o): Ghost<Origin>,
) -> (r: MembershipPath)
    requires
        o.sid == sid@,
        o.name == text::text_of(*user_name),
        o.nodes == node_views(nodes@),
        distinct_dns(o.nodes),
        s.wf(o.nodes, o.starts),
        s.has_starts(o.nodes, o.starts),
        s.is_closed_to(o.nodes, s.found@.len() as int),
    ensures
        (if is_reachable(o.nodes, o.starts, dn@) {
            exists|c: Seq<int>| #[trigger]
                is_shortest_chain(o.nodes, o.starts, dn@, c) && r@ == chain_path(o, c)
        } else {
            r@ == membership::short_path_view(
                o.sid,
                o.name,
                group_sid@,
                text::text_of(*group_name),
                MembershipPathSource::LdapMatchingRule,
                false,
            )
        }),
{
    let target: Option<usize> = find_node(nodes, dn);
    if let Some(v) = target {
        assert(o.nodes[v as int].dn == dn@);
        if s.seen[v] {
            let chain: Vec<usize> = chain_to(s, v, Ghost(o.nodes), Ghost(o.starts));
            let ghost c = indices(chain@);
            let mut path_nodes: Vec<Sid> = Vec::new();
            let mut path_names: Vec<Option<String>> = Vec::new();
            path_nodes.push(sid.clone());
            path_names.push(clone_text(user_name));
            for i in 0..chain.len()
                invariant
                    c == indices(chain@),
                    o.sid == sid@,
                    o.name == text::text_of(*user_name),
                    o.nodes == node_views(nodes@),
                    forall|j: int| 0 <= j < chain@.len() ==> (#[trigger] chain@[j]) < o.nodes.len(),
                    path_nodes@.len() == i + 1,
                    path_names@.len() == i + 1,
                    path_nodes@[0]@ == o.sid,
                    text::text_of(path_names@[0]) == o.name,
                    forall|j: int|
                        1 <= j <= i ==> (#[trigger] path_nodes@[j])@ == o.nodes[c[j - 1]].sid,
                    forall|j: int|
                        1 <= j <= i ==> text::text_of(#[trigger] path_names@[j])
                            == o.nodes[c[j - 1]].name,
            {
                let k: usize = chain[i];
                assert(o.nodes[k as int] == nodes@[k as int]@);
                path_nodes.push(nodes[k].sid.clone());
                path_names.push(clone_text(&nodes[k].name));
            }
            let r: MembershipPath = MembershipPath {
                nodes: path_nodes,
                names: path_names,
                source: MembershipPathSource::DomainGroup,
                complete: true,
            };
            proof {
                assert(c.last() == v);
                assert(is_chain_to(o.nodes, o.starts, dn@, c));
                assert forall|d: Seq<int>| #[trigger]
                    is_chain_to(o.nodes, o.starts, dn@, d) implies c.len() <= d.len() by {
                    lemma_search_is_complete(*s, o.nodes, o.starts, d);
                    lemma_same_dn(o.nodes, d.last(), v as int);
                }
                assert(is_shortest_chain(o.nodes, o.starts, dn@, c));
                assert(r@.nodes =~= chain_path(o, c).nodes);
                assert(r@.names =~= chain_path(o, c).names);
            }
            return r;
        }
    }
    proof {
        if is_reachable(o.nodes, o.starts, dn@) {
            let d = choose|d: Seq<int>| is_chain_to(o.nodes, o.starts, dn@, d);
            lemma_search_is_complete(*s, o.nodes, o.starts, d);
            assert(has_dn(o.nodes, dn@)) by {
                assert(o.nodes[d.last()].dn == dn@);
            }
            lemma_same_dn(o.nodes, d.last(), target->0 as int);
        }
    }
    short_path(
        sid,
        clone_text(user_name),
        group_sid,
        clone_text(group_name),
        MembershipPathSource::LdapMatchingRule,
        false,
    )
}

/// States the memberships in the groups of `entries`.
fn push_memberships(
    out: &mut Vec<GroupMembership>,
    sid: &Sid,
    user_name: &Option<String>,
    entries: &Vec<RawEntry>,
    direct: &Vec<String>,
    nodes: &Vec<GroupNode>,
    s: &Search,
    Ghost(o): Ghost<Origin>,
    Ghost(facts): Ghost<Seq<GroupFact>>,
)
    requires
        o.sid == sid@,
        o.name == text::text_of(*user_name),
        o.nodes == node_views(nodes@),
        distinct_dns(o.nodes),
        s.wf(o.nodes, o.starts),
        s.has_starts(o.nodes, o.starts),
        s.is_closed_to(o.nodes, s.found@.len() as int),
        states_all(o, facts, old(out)@),
    ensures
        states_all(
            o,
            with_entries(sid@, facts, entries@, text::texts(direct@)),
            final(out)@,
        ),
{
    let ghost dns = text::texts(direct@);
    for i in 0..entries.len()
        invariant
            dns == text::texts(direct@),
            o.sid == sid@,
            o.name == text::text_of(*user_name),
            o.nodes == node_views(nodes@),
            distinct_dns(o.nodes),
            s.wf(o.nodes, o.starts),
            s.has_starts(o.nodes, o.starts),
            s.is_closed_to(o.nodes, s.found@.len() as int),
            states_all(o, with_entries(sid@, facts, entries@.take(i as int), dns), out@),
    {
        let ghost now = entries@.take(i + 1);
        let ghost so_far = with_entries(sid@, facts, entries@.take(i as int), dns);
        assert(now.drop_last() =~= entries@.take(i as int));
        assert(now.last() == entries@[i as int]);
        if let Some(group_sid) = extract_sid_from_entry(&entries[i]) {
            let known: bool = group_sid.0 == sid.0 || is_member_listed(
                out,
                &group_sid,
                Ghost(o),
                Ghost(so_far),
            );
            if !known {
                let dn: String = text::to_ascii_lower(entries[i].dn.as_str());
                let is_direct: bool = text::is_listed(direct, dn.as_str());
                let group_name: Option<String> = name_of_entry(&entries[i]);
                let path: MembershipPath = path_to(
                    sid,
                    user_name,
                    &group_sid,
                    &group_name,
                    dn.as_str(),
                    nodes,
                    s,
                    Ghost(o),
                );
                let (count, history) = sid_history_of_entry(&entries[i]);
                let ghost f = entry_fact(entries@[i as int], group_sid@, dns);
                let m: GroupMembership = GroupMembership {
                    member_sid: sid.clone(),
                    group_sid,
                    direct: is_direct,
                    group_name,
                    path: Some(path),
                    group_sid_history_count: count,
                    group_sid_history: history,
                };
                let ghost before = out@;
                out.push(m);
                proof {
                    assert(states(o, f, m@));
                    assert(with_entries(sid@, facts, now, dns) == so_far.push(f));
                    assert forall|j: int| 0 <= j < out@.len() implies states(
                        o,
                        so_far.push(f)[j],
                        (#[trigger] out@[j])@,
                    ) by {
                        if j < before.len() {
                            assert(states(o, so_far[j], before[j]@));
                        }
                    }
                }
            }
        }
    }
    assert(entries@.take(entries@.len() as int) =~= entries@);
}

/// Lists the groups of a principal with the chains that lead to them.
///
/// The primary group comes first, by one step of its own. Every other group
/// gets a shortest chain of concrete `memberOf` edges from the principal; where
/// none can be found the membership is still certain, and its path is one step
/// that is marked as incomplete.
pub fn assemble_memberships(sid: &Sid, m: &MembershipEntries) -> (r: Vec<GroupMembership>)
    ensures
        states_all(origin_of(sid@, *m), group_facts(sid@, *m), r@),
{
    let ghost o = origin_of(sid@, *m);
    let mut nodes: Vec<GroupNode> = Vec::new();
    let ghost none = Seq::<RawEntry>::empty();
    assert(node_views(nodes@) =~= graph_of(none));
    register_all(&mut nodes, &m.transitive_groups, Ghost(none));
    assert(none + m.transitive_groups@ =~= m.transitive_groups@);
    register_all(&mut nodes, &m.primary_group_parents, Ghost(m.transitive_groups@));
    let direct: Vec<String> = lower_all(m.principal.all_attr("memberOf"));
    let mut starts: Vec<String> = lower_all(m.principal.all_attr("memberOf"));
    let ghost both = m.transitive_groups@ + m.primary_group_parents@;
    match &m.primary_group {
        Some(e) => {
            register(&mut nodes, e);
            let ghost before = text::texts(starts@);
            starts.push(text::to_ascii_lower(e.dn.as_str()));
            proof {
                assert((both + seq![*e]).drop_last() =~= both);
                assert(text::texts(starts@) =~= before.push(text::ascii_lower(e.dn@)));
            }
        },
        None => {
            assert(both + Seq::<RawEntry>::empty() =~= both);
        },
    }
    assert(node_views(nodes@) == o.nodes);
    assert(text::texts(starts@) == o.starts);
    proof {
        lemma_graph_distinct(both + primary_entries(*m));
    }
    let s: Search = search(&nodes, &starts);
    let user_name: Option<String> = name_of_entry(&m.principal);
    let mut out: Vec<GroupMembership> = Vec::new();
    let ghost mut facts = Seq::<GroupFact>::empty();
    if let Some(p) = &m.primary_group_sid {
        if !(p.0 == sid.0) {
            let (name, count, history) = match &m.primary_group {
                Some(e) => {
                    let (count, history) = sid_history_of_entry(e);
                    (name_of_entry(e), count, history)
                },
                None => {
                    let no_history: Vec<Sid> = Vec::new();
                    assert(sid::sid_texts(no_history@) =~= Seq::<Seq<char>>::empty());
                    (None, 0, no_history)
                },
            };
            let path: MembershipPath = short_path(
                sid,
                clone_text(&user_name),
                p,
                clone_text(&name),
                MembershipPathSource::PrimaryGroup,
                true,
            );
            let entry: GroupMembership = GroupMembership {
                member_sid: sid.clone(),
                group_sid: p.clone(),
                direct: true,
                group_name: name,
                path: Some(path),
                group_sid_history_count: count,
                group_sid_history: history,
            };
            out.push(entry);
            proof {
                let f = primary_fact(p@, m.primary_group);
                assert(states(o, f, entry@));
                facts = facts.push(f);
            }
        }
    }
    let no_direct: Vec<String> = Vec::new();
    assert(text::texts(no_direct@) =~= Seq::<Seq<char>>::empty());
    push_memberships(
        &mut out,
        sid,
        &user_name,
        &m.transitive_groups,
        &direct,
        &nodes,
        &s,
        Ghost(o),
        Ghost(facts),
    );
    proof {
        facts = with_entries(sid@, facts, m.transitive_groups@, direct_dns(*m));
    }
    push_memberships(
        &mut out,
        sid,
        &user_name,
        &m.primary_group_parents,
        &no_direct,
        &nodes,
        &s,
        Ghost(o),
        Ghost(facts),
    );
    out
}

/// Whether no group is there twice and none is the principal itself.
pub open spec fn distinct_groups(own: Seq<char>, facts: Seq<GroupFact>) -> bool {
    &&& forall|i: int| 0 <= i < facts.len() ==> (#[trigger] facts[i]).sid != own
    &&& forall|i: int, j: int|
        0 <= i < j < facts.len() ==> (#[trigger] facts[i]).sid != (#[trigger] facts[j]).sid
}

/// Adding a group keeps the groups distinct.
proof fn lemma_with_fact_distinct(own: Seq<char>, facts: Seq<GroupFact>, f: GroupFact)
    requires
        distinct_groups(own, facts),
    ensures
        distinct_groups(own, with_fact(own, facts, f)),
{
    let all = with_fact(own, facts, f);
    assert forall|i: int, j: int| 0 <= i < j < all.len() implies (#[trigger] all[i]).sid != (
    #[trigger] all[j]).sid by {
        if j == facts.len() {
            assert(facts[i].sid != f.sid);
        } else {
            assert(facts[i].sid != facts[j].sid);
        }
    }
}

/// Adding the groups of entries keeps the groups distinct.
proof fn lemma_with_entries_distinct(
    own: Seq<char>,
    facts: Seq<GroupFact>,
    entries: Seq<RawEntry>,
    direct_dns: Seq<Seq<char>>,
)
    requires
        distinct_groups(own, facts),
    ensures
        distinct_groups(own, with_entries(own, facts, entries, direct_dns)),
    decreases entries.len(),
{
    if entries.len() > 0 {
        lemma_with_entries_distinct(own, facts, entries.drop_last(), direct_dns);
        if let Some(s) = resolver::entry_sid(entries.last()) {
            lemma_with_fact_distinct(
                own,
                with_entries(own, facts, entries.drop_last(), direct_dns),
                entry_fact(entries.last(), s, direct_dns),
            );
        }
    }
}

/// Each group is listed once, and the principal is not listed among its groups.
pub proof fn law_groups_are_listed_once(
    sid: Seq<char>,
    m: MembershipEntries,
    ms: Seq<GroupMembership>,
)
    requires
        states_all(origin_of(sid, m), group_facts(sid, m), ms),
    ensures
        forall|i: int| 0 <= i < ms.len() ==> (#[trigger] ms[i])@.group_sid != sid,
        forall|i: int, j: int|
            0 <= i < j < ms.len() ==> (#[trigger] ms[i])@.group_sid != (
            #[trigger] ms[j])@.group_sid,
{
    let o = origin_of(sid, m);
    let facts = group_facts(sid, m);
    let none = Seq::<GroupFact>::empty();
    let primary = match m.primary_group_sid {
        Some(p) => with_fact(sid, none, primary_fact(p@, m.primary_group)),
        None => none,
    };
    if let Some(p) = m.primary_group_sid {
        lemma_with_fact_distinct(sid, none, primary_fact(p@, m.primary_group));
    }
    let own = with_entries(sid, primary, m.transitive_groups@, direct_dns(m));
    lemma_with_entries_distinct(sid, primary, m.transitive_groups@, direct_dns(m));
    lemma_with_entries_distinct(sid, own, m.primary_group_parents@, Seq::empty());
    assert forall|i: int| 0 <= i < ms.len() implies (#[trigger] ms[i])@.group_sid != sid by {
        assert(states(o, facts[i], ms[i]@));
    }
    assert forall|i: int, j: int| 0 <= i < j < ms.len() implies (#[trigger] ms[i])@.group_sid != (
    #[trigger] ms[j])@.group_sid by {
        assert(states(o, facts[i], ms[i]@));
        assert(states(o, facts[j], ms[j]@));
        assert(facts[i].sid != facts[j].sid);
    }
}

/// A path says that it is complete exactly where its steps are known: to the
/// primary group, and to every group that a chain of concrete edges leads to.
/// Every path starts with the principal and has a name slot per node.
pub proof fn law_complete_means_concrete(
    o: Origin,
    f: GroupFact,
    p: membership::MembershipPathView,
)
    requires
        explains(o, f, p),
    ensures
        p.complete == (f.dn is None || is_reachable(o.nodes, o.starts, f.dn->0)),
        p.nodes.len() >= 2,
        p.nodes[0] == o.sid,
        p.names.len() == p.nodes.len(),
        p.complete == (p.source != MembershipPathSource::LdapMatchingRule),
{
    if let Some(dn) = f.dn {
        if is_reachable(o.nodes, o.starts, dn) {
            let c = choose|c: Seq<int>| #[trigger]
                is_shortest_chain(o.nodes, o.starts, dn, c) && p == chain_path(o, c);
            assert(c.len() > 0);
        }
    }
}

/// A group that the principal is in without an intermediate group gets a path
/// of one step.
pub proof fn law_direct_group_is_one_step(
    o: Origin,
    f: GroupFact,
    p: membership::MembershipPathView,
    k: int,
)
    requires
        explains(o, f, p),
        0 <= k < o.nodes.len(),
        f.dn == Some(o.nodes[k].dn),
        o.starts.contains(o.nodes[k].dn),
    ensures
        p.complete,
        p.nodes.len() == 2,
{
    let dn = o.nodes[k].dn;
    let one = seq![k];
    assert(is_start(o.nodes, o.starts, k));
    assert(is_chain_to(o.nodes, o.starts, dn, one));
    let c = choose|c: Seq<int>| #[trigger]
        is_shortest_chain(o.nodes, o.starts, dn, c) && p == chain_path(o, c);
    assert(c.len() <= one.len());
}

/// Whether the `memberOf` attribute of `e` names the entry `group`. Case does not count.
pub open spec fn names_as_parent(e: RawEntry, group: RawEntry) -> bool {
    exists|i: int|
        0 <= i < ldap_client::attr_values(e.attrs@, "memberOf"@).len() && text::ascii_lower(
            (#[trigger] ldap_client::attr_values(e.attrs@, "memberOf"@)[i])@,
        ) == text::ascii_lower(group.dn@)
}

/// Whether the principal is in the group of `e` without an intermediate group: it names
/// the group, or the group is its primary group.
pub open spec fn is_entry_point(m: MembershipEntries, e: RawEntry) -> bool {
    names_as_parent(m.principal, e) || (m.primary_group matches Some(p) && text::ascii_lower(p.dn@)
        == text::ascii_lower(e.dn@))
}

/// Whether `e` is one of the entries that are known of the groups around the principal.
pub open spec fn is_known_entry(m: MembershipEntries, e: RawEntry) -> bool {
    m.transitive_groups@.contains(e) || m.primary_group_parents@.contains(e) || m.primary_group
        == Some(e)
}

/// Whether the entry at `k` is the first of `entries` with the SID `s`.
pub open spec fn is_first_with(entries: Seq<RawEntry>, k: int, s: Seq<char>) -> bool {
    &&& 0 <= k < entries.len()
    &&& resolver::entry_sid(entries[k]) == Some(s)
    &&& forall|j: int| 0 <= j < k ==> resolver::entry_sid(#[trigger] entries[j]) != Some(s)
}

/// `lowered` holds a name exactly where one of the values is that name.
proof fn lemma_lowered_names(e: RawEntry, group: RawEntry)
    ensures
        lowered(ldap_client::attr_values(e.attrs@, "memberOf"@)).contains(
            text::ascii_lower(group.dn@),
        ) == names_as_parent(e, group),
{
    let values = ldap_client::attr_values(e.attrs@, "memberOf"@);
    let low = lowered(values);
    let name = text::ascii_lower(group.dn@);
    if low.contains(name) {
        let i = choose|i: int| 0 <= i < low.len() && low[i] == name;
        assert(text::ascii_lower(values[i]@) == name);
    }
    if names_as_parent(e, group) {
        let i = choose|i: int|
            0 <= i < values.len() && text::ascii_lower((#[trigger] values[i])@) == name;
        assert(low[i] == name);
    }
}

/// Whether `f` was added behind `facts`, from the first entry of its group.
spec fn was_added(
    own: Seq<char>,
    facts: Seq<GroupFact>,
    entries: Seq<RawEntry>,
    dns: Seq<Seq<char>>,
    f: GroupFact,
    k: int,
) -> bool {
    &&& is_first_with(entries, k, f.sid)
    &&& f == entry_fact(entries[k], f.sid, dns)
    &&& !has_group(facts, f.sid)
    &&& f.sid != own
}

/// Whether `f` was added behind `facts`.
spec fn has_source(
    own: Seq<char>,
    facts: Seq<GroupFact>,
    entries: Seq<RawEntry>,
    dns: Seq<Seq<char>>,
    f: GroupFact,
) -> bool {
    exists|k: int| was_added(own, facts, entries, dns, f, k)
}

/// What adding the groups of entries gives: what was there stays in front, every group
/// is there, and everything that was added comes from the first entry of its group.
proof fn lemma_with_entries_facts(
    own: Seq<char>,
    facts: Seq<GroupFact>,
    entries: Seq<RawEntry>,
    dns: Seq<Seq<char>>,
)
    ensures
        with_entries(own, facts, entries, dns).len() >= facts.len(),
        forall|i: int|
            0 <= i < facts.len() ==> (#[trigger] with_entries(own, facts, entries, dns)[i])
                == facts[i],
        forall|k: int, s: Seq<char>|
            0 <= k < entries.len() && s != own && #[trigger] resolver::entry_sid(entries[k])
                == Some(s) ==> #[trigger] has_group(with_entries(own, facts, entries, dns), s),
        forall|i: int|
            facts.len() <= i < with_entries(own, facts, entries, dns).len() ==> has_source(
                own,
                facts,
                entries,
                dns,
                #[trigger] with_entries(own, facts, entries, dns)[i],
            ),
    decreases entries.len(),
{
    if entries.len() > 0 {
        let init = entries.drop_last();
        let n = init.len() as int;
        lemma_with_entries_facts(own, facts, init, dns);
        let before = with_entries(own, facts, init, dns);
        let after = with_entries(own, facts, entries, dns);
        assert forall|k: int, s: Seq<char>|
            0 <= k < entries.len() && s != own && #[trigger] resolver::entry_sid(entries[k])
                == Some(s) implies #[trigger] has_group(after, s) by {
            if k < n {
                assert(resolver::entry_sid(init[k]) == Some(s));
                assert(has_group(before, s));
            }
            if has_group(before, s) {
                let i = choose|i: int| 0 <= i < before.len() && (#[trigger] before[i]).sid == s;
                assert(after[i].sid == s);
            } else {
                assert(after[after.len() - 1].sid == s);
            }
        }
        assert forall|i: int| facts.len() <= i < after.len() implies has_source(
            own,
            facts,
            entries,
            dns,
            #[trigger] after[i],
        ) by {
            let f = after[i];
            if i < before.len() {
                assert(f == before[i]);
                let k = choose|k: int| was_added(own, facts, init, dns, f, k);
                assert forall|j: int| 0 <= j < k implies resolver::entry_sid(#[trigger] entries[j])
                    != Some(f.sid) by {
                    assert(entries[j] == init[j]);
                }
                assert(is_first_with(entries, k, f.sid));
                assert(was_added(own, facts, entries, dns, after[i], k));
            } else {
                assert(f == entry_fact(entries[n], f.sid, dns));
                assert forall|j: int| 0 <= j < n implies resolver::entry_sid(#[trigger] entries[j])
                    != Some(f.sid) by {
                    assert(entries[j] == init[j]);
                    if resolver::entry_sid(init[j]) == Some(f.sid) {
                        assert(has_group(before, f.sid));
                    }
                }
                assert(is_first_with(entries, n, f.sid));
                if has_group(facts, f.sid) {
                    let j = choose|j: int|
                        0 <= j < facts.len() && (#[trigger] facts[j]).sid == f.sid;
                    assert(before[j].sid == f.sid);
                }
                assert(was_added(own, facts, entries, dns, after[i], n));
            }
        }
    }
}

/// Every group of the principal and every group of its primary group is stated, each
/// exactly once: for any such entry with a SID other than that of the principal there is
/// one membership in that SID, and no second one.
pub proof fn law_every_group_has_one_membership(
    sid: Seq<char>,
    m: MembershipEntries,
    ms: Seq<GroupMembership>,
    e: RawEntry,
    s: Seq<char>,
)
    requires
        states_all(origin_of(sid, m), group_facts(sid, m), ms),
        m.transitive_groups@.contains(e) || m.primary_group_parents@.contains(e),
        resolver::entry_sid(e) == Some(s),
        s != sid,
    ensures
        exists|i: int| 0 <= i < ms.len() && (#[trigger] ms[i])@.group_sid == s,
        forall|i: int, j: int|
            0 <= i < ms.len() && 0 <= j < ms.len() && (#[trigger] ms[i])@.group_sid == s && (
            #[trigger] ms[j])@.group_sid == s ==> i == j,
{
    law_groups_are_listed_once(sid, m, ms);
    let o = origin_of(sid, m);
    let facts = group_facts(sid, m);
    let primary = match m.primary_group_sid {
        Some(p) => with_fact(sid, Seq::empty(), primary_fact(p@, m.primary_group)),
        None => Seq::empty(),
    };
    let own = with_entries(sid, primary, m.transitive_groups@, direct_dns(m));
    lemma_with_entries_facts(sid, primary, m.transitive_groups@, direct_dns(m));
    lemma_with_entries_facts(sid, own, m.primary_group_parents@, Seq::empty());
    if m.transitive_groups@.contains(e) {
        let k = choose|k: int| 0 <= k < m.transitive_groups@.len() && m.transitive_groups@[k] == e;
        assert(resolver::entry_sid(m.transitive_groups@[k]) == Some(s));
        assert(has_group(own, s));
        let i = choose|i: int| 0 <= i < own.len() && (#[trigger] own[i]).sid == s;
        assert(facts[i] == own[i]);
    } else {
        let k = choose|k: int|
            0 <= k < m.primary_group_parents@.len() && m.primary_group_parents@[k] == e;
        assert(resolver::entry_sid(m.primary_group_parents@[k]) == Some(s));
        assert(has_group(facts, s));
    }
    let i = choose|i: int| 0 <= i < facts.len() && (#[trigger] facts[i]).sid == s;
    assert(states(o, facts[i], ms[i]@));
    assert(ms[i]@.group_sid == s);
}

/// The primary group is stated first, as a direct membership of one step, unless it is
/// the principal itself. Its name and history are those of its entry, where that is known.
pub proof fn law_primary_group_comes_first(
    sid: Seq<char>,
    m: MembershipEntries,
    ms: Seq<GroupMembership>,
    p: Seq<char>,
)
    requires
        states_all(origin_of(sid, m), group_facts(sid, m), ms),
        m.primary_group_sid is Some,
        m.primary_group_sid->0@ == p,
        p != sid,
    ensures
        ms.len() > 0,
        ms[0]@.group_sid == p,
        ms[0]@.member_sid == sid,
        ms[0]@.direct,
        ms[0]@.group_name == (match m.primary_group {
            Some(e) => resolver::entry_name(e),
            None => None,
        }),
        m.primary_group matches Some(e) ==> ms[0]@.group_sid_history == resolver::history_sids(e),
        m.primary_group is None ==> ms[0]@.group_sid_history.len() == 0,
        ms[0]@.path is Some,
        ms[0]@.path->0.nodes == seq![sid, p],
        ms[0]@.path->0.names == seq![resolver::entry_name(m.principal), ms[0]@.group_name],
        ms[0]@.path->0.complete,
        ms[0]@.path->0.source == MembershipPathSource::PrimaryGroup,
{
    let facts = group_facts(sid, m);
    let primary = with_fact(sid, Seq::empty(), primary_fact(p, m.primary_group));
    let own = with_entries(sid, primary, m.transitive_groups@, direct_dns(m));
    lemma_with_entries_facts(sid, primary, m.transitive_groups@, direct_dns(m));
    lemma_with_entries_facts(sid, own, m.primary_group_parents@, Seq::empty());
    assert(facts[0] == own[0] && own[0] == primary[0]);
    assert(states(origin_of(sid, m), facts[0], ms[0]@));
    assert(ms[0]@.path->0.nodes =~= seq![sid, p]);
    assert(ms[0]@.path->0.names =~= seq![resolver::entry_name(m.principal), ms[0]@.group_name]);
}

/// Whether `x` states the membership that the entry `e` gives.
pub open spec fn tells_entry(
    sid: Seq<char>,
    e: RawEntry,
    direct: bool,
    x: membership::GroupMembershipView,
) -> bool {
    &&& x.member_sid == sid
    &&& resolver::entry_sid(e) == Some(x.group_sid)
    &&& x.direct == direct
    &&& x.group_name == resolver::entry_name(e)
    &&& x.group_sid_history == resolver::history_sids(e)
    &&& x.group_sid_history_count == resolver::history_count(e)
}

/// No membership is made up: each is the primary group, or comes from the first entry of
/// its group among the groups of the principal, or, where there is none, among those of
/// the primary group. It is direct exactly where the principal itself names the group.
pub proof fn law_every_membership_has_an_entry(
    sid: Seq<char>,
    m: MembershipEntries,
    ms: Seq<GroupMembership>,
    i: int,
)
    requires
        states_all(origin_of(sid, m), group_facts(sid, m), ms),
        0 <= i < ms.len(),
    ensures
        ({
            let x = ms[i]@;
            ||| (m.primary_group_sid matches Some(p) && i == 0 && p@ == x.group_sid)
            ||| exists|k: int|
                #[trigger]
                is_first_with(m.transitive_groups@, k, x.group_sid) && tells_entry(
                    sid,
                    m.transitive_groups@[k],
                    names_as_parent(m.principal, m.transitive_groups@[k]),
                    x,
                )
            ||| exists|k: int|
                #[trigger]
                is_first_with(m.primary_group_parents@, k, x.group_sid) && tells_entry(
                    sid,
                    m.primary_group_parents@[k],
                    false,
                    x,
                ) && forall|j: int|
                    0 <= j < m.transitive_groups@.len() ==> resolver::entry_sid(
                        #[trigger] m.transitive_groups@[j],
                    ) != Some(x.group_sid)
        }),
{
    let o = origin_of(sid, m);
    let facts = group_facts(sid, m);
    let x = ms[i]@;
    let primary = match m.primary_group_sid {
        Some(p) => with_fact(sid, Seq::empty(), primary_fact(p@, m.primary_group)),
        None => Seq::empty(),
    };
    let own = with_entries(sid, primary, m.transitive_groups@, direct_dns(m));
    lemma_with_entries_facts(sid, primary, m.transitive_groups@, direct_dns(m));
    lemma_with_entries_facts(sid, own, m.primary_group_parents@, Seq::empty());
    let f = facts[i];
    assert(states(o, f, x));
    if i < primary.len() {
        assert(f == own[i] && own[i] == primary[i]);
    } else if i < own.len() {
        assert(f == own[i]);
        let k = choose|k: int|
            was_added(sid, primary, m.transitive_groups@, direct_dns(m), own[i], k);
        lemma_lowered_names(m.principal, m.transitive_groups@[k]);
        assert(is_first_with(m.transitive_groups@, k, x.group_sid));
    } else {
        let k = choose|k: int|
            was_added(sid, own, m.primary_group_parents@, Seq::empty(), facts[i], k);
        assert(is_first_with(m.primary_group_parents@, k, x.group_sid));
        assert forall|j: int| 0 <= j < m.transitive_groups@.len() implies resolver::entry_sid(
            #[trigger] m.transitive_groups@[j],
        ) != Some(x.group_sid) by {
            if resolver::entry_sid(m.transitive_groups@[j]) == Some(x.group_sid) {
                assert(has_group(own, x.group_sid));
            }
        }
    }
}

/// The entries that the graph of the groups is made of.
spec fn all_entries(m: MembershipEntries) -> Seq<RawEntry> {
    m.transitive_groups@ + m.primary_group_parents@ + primary_entries(m)
}

/// The graph is made of exactly the entries that are known.
proof fn lemma_all_entries(m: MembershipEntries, e: RawEntry)
    ensures
        all_entries(m).contains(e) == is_known_entry(m, e),
{
    let a = m.transitive_groups@;
    let b = m.primary_group_parents@;
    let all = all_entries(m);
    if all.contains(e) {
        let k = choose|k: int| 0 <= k < all.len() && all[k] == e;
        if k < a.len() {
            assert(a[k] == e);
        } else if k < a.len() + b.len() {
            assert(b[k - a.len()] == e);
        }
    }
    if a.contains(e) {
        let k = choose|k: int| 0 <= k < a.len() && a[k] == e;
        assert(all[k] == e);
    }
    if b.contains(e) {
        let k = choose|k: int| 0 <= k < b.len() && b[k] == e;
        assert(all[a.len() + k] == e);
    }
    if m.primary_group == Some(e) {
        assert(all[(a.len() + b.len()) as int] == e);
    }
}

/// Whether the node `n` stands for the entry `e`.
spec fn stands_for(n: NodeView, e: RawEntry) -> bool {
    resolver::entry_sid(e) == Some(n.sid) && n == entry_node(e, n.sid)
}

/// Whether the node `n` stands for one of `entries`.
spec fn stands_for_one(n: NodeView, entries: Seq<RawEntry>) -> bool {
    exists|e: RawEntry| #[trigger] stands_for(n, e) && entries.contains(e)
}

/// Every node stands for an entry, and every entry with a SID has a node of its name.
proof fn lemma_graph_stands_for_entries(entries: Seq<RawEntry>)
    ensures
        forall|a: int|
            0 <= a < graph_of(entries).len() ==> stands_for_one(
                #[trigger] graph_of(entries)[a],
                entries,
            ),
        forall|k: int|
            0 <= k < entries.len() && #[trigger] resolver::entry_sid(entries[k]) is Some ==> has_dn(
                graph_of(entries),
                text::ascii_lower(entries[k].dn@),
            ),
    decreases entries.len(),
{
    if entries.len() > 0 {
        let init = entries.drop_last();
        let last = entries.last();
        lemma_graph_stands_for_entries(init);
        let before = graph_of(init);
        let after = graph_of(entries);
        assert forall|a: int| 0 <= a < after.len() implies stands_for_one(
            #[trigger] after[a],
            entries,
        ) by {
            if a < before.len() {
                assert(after[a] == before[a]);
                let e = choose|e: RawEntry| #[trigger]
                    stands_for(before[a], e) && init.contains(e);
                let k = choose|k: int| 0 <= k < init.len() && init[k] == e;
                assert(entries[k] == e);
                assert(stands_for(after[a], e));
            } else {
                assert(stands_for(after[a], last));
                assert(entries[entries.len() - 1] == last);
            }
        }
        assert forall|k: int|
            0 <= k < entries.len() && #[trigger] resolver::entry_sid(entries[k]) is Some implies
            has_dn(after, text::ascii_lower(entries[k].dn@)) by {
            let dn = text::ascii_lower(entries[k].dn@);
            if k < init.len() {
                assert(resolver::entry_sid(init[k]) is Some);
                assert(has_dn(before, dn));
            }
            if has_dn(before, dn) {
                let i = choose|i: int| 0 <= i < before.len() && (#[trigger] before[i]).dn == dn;
                assert(after[i].dn == dn);
            } else {
                assert(after[after.len() - 1].dn == dn);
            }
        }
    }
}

/// Whether `es` is a chain of known groups from the principal: it is in the first without
/// an intermediate group, and each entry names the next as a group it is in.
pub open spec fn is_entry_chain(m: MembershipEntries, es: Seq<RawEntry>) -> bool {
    &&& es.len() > 0
    &&& is_entry_point(m, es[0])
    &&& forall|j: int|
        0 <= j < es.len() ==> is_known_entry(m, #[trigger] es[j]) && resolver::entry_sid(es[j])
            is Some
    &&& forall|j: int, k: int|
        0 <= j && k == j + 1 && k < es.len() ==> names_as_parent(
            #[trigger] es[j],
            #[trigger] es[k],
        )
}

/// Whether the path `p` of the principal `sid` shows the chain `es`, group by group.
pub open spec fn shows_chain(
    sid: Seq<char>,
    m: MembershipEntries,
    p: membership::MembershipPathView,
    es: Seq<RawEntry>,
) -> bool {
    &&& p.nodes.len() == es.len() + 1
    &&& p.names.len() == es.len() + 1
    &&& p.nodes[0] == sid
    &&& p.names[0] == resolver::entry_name(m.principal)
    &&& forall|j: int|
        0 <= j < es.len() ==> resolver::entry_sid(#[trigger] es[j]) == Some(p.nodes[j + 1])
            && p.names[j + 1] == resolver::entry_name(es[j])
}

/// Being named is the edge of the graph.
proof fn lemma_edge_is_naming(nodes: Seq<NodeView>, a: int, b: int, e: RawEntry, f: RawEntry)
    requires
        0 <= a < nodes.len(),
        0 <= b < nodes.len(),
        stands_for(nodes[a], e),
        nodes[b].dn == text::ascii_lower(f.dn@),
    ensures
        is_edge(nodes, a, b) == names_as_parent(e, f),
{
    lemma_lowered_names(e, f);
}

/// Being an entry point is being a start of the search.
proof fn lemma_start_is_entry_point(sid: Seq<char>, m: MembershipEntries, e: RawEntry)
    ensures
        origin_of(sid, m).starts.contains(text::ascii_lower(e.dn@)) == is_entry_point(m, e),
{
    lemma_lowered_names(m.principal, e);
    let dn = text::ascii_lower(e.dn@);
    let direct = direct_dns(m);
    let starts = origin_of(sid, m).starts;
    if let Some(p) = m.primary_group {
        if starts.contains(dn) {
            let i = choose|i: int| 0 <= i < starts.len() && starts[i] == dn;
            if i < direct.len() {
                assert(direct[i] == dn);
            }
        }
        if direct.contains(dn) {
            let i = choose|i: int| 0 <= i < direct.len() && direct[i] == dn;
            assert(starts[i] == dn);
        }
        if text::ascii_lower(p.dn@) == dn {
            assert(starts[direct.len() as int] == dn);
        }
    }
}

/// The membership at `i`, where it is not the primary group by its SID alone, comes from
/// an entry: its group is that of the entry, and its path is explained for that entry.
proof fn lemma_membership_of_entry(
    sid: Seq<char>,
    m: MembershipEntries,
    ms: Seq<GroupMembership>,
    i: int,
) -> (e: RawEntry)
    requires
        states_all(origin_of(sid, m), group_facts(sid, m), ms),
        0 <= i < ms.len(),
        group_facts(sid, m)[i].dn is Some,
    ensures
        m.transitive_groups@.contains(e) || m.primary_group_parents@.contains(e),
        resolver::entry_sid(e) == Some(ms[i]@.group_sid),
        group_facts(sid, m)[i].dn == Some(text::ascii_lower(e.dn@)),
{
    let o = origin_of(sid, m);
    let facts = group_facts(sid, m);
    let primary = match m.primary_group_sid {
        Some(p) => with_fact(sid, Seq::empty(), primary_fact(p@, m.primary_group)),
        None => Seq::empty(),
    };
    let own = with_entries(sid, primary, m.transitive_groups@, direct_dns(m));
    lemma_with_entries_facts(sid, primary, m.transitive_groups@, direct_dns(m));
    lemma_with_entries_facts(sid, own, m.primary_group_parents@, Seq::empty());
    assert(states(o, facts[i], ms[i]@));
    if i < own.len() {
        assert(facts[i] == own[i]);
        if i < primary.len() {
            assert(own[i] == primary[i]);
        }
        let k = choose|k: int|
            was_added(sid, primary, m.transitive_groups@, direct_dns(m), own[i], k);
        m.transitive_groups@[k]
    } else {
        let k = choose|k: int|
            was_added(sid, own, m.primary_group_parents@, Seq::empty(), facts[i], k);
        m.primary_group_parents@[k]
    }
}

/// A path that leads through groups and is complete shows a chain of concrete
/// memberships: every group on it is known and names the next, the principal is in the
/// first one, and the last one is the group in question.
pub proof fn law_complete_path_shows_a_chain(
    sid: Seq<char>,
    m: MembershipEntries,
    ms: Seq<GroupMembership>,
    i: int,
) -> (es: Seq<RawEntry>)
    requires
        states_all(origin_of(sid, m), group_facts(sid, m), ms),
        0 <= i < ms.len(),
        ms[i]@.path is Some,
        ms[i]@.path->0.complete,
        ms[i]@.path->0.source != MembershipPathSource::PrimaryGroup,
    ensures
        is_entry_chain(m, es),
        shows_chain(sid, m, ms[i]@.path->0, es),
        exists|e: RawEntry|
            (m.transitive_groups@.contains(e) || m.primary_group_parents@.contains(e))
                && #[trigger] resolver::entry_sid(e) == Some(ms[i]@.group_sid) && text::ascii_lower(
                e.dn@,
            ) == text::ascii_lower(es.last().dn@),
{
    let o = origin_of(sid, m);
    let f = group_facts(sid, m)[i];
    let p = ms[i]@.path->0;
    assert(states(o, f, ms[i]@));
    let e = lemma_membership_of_entry(sid, m, ms, i);
    let dn = f.dn->0;
    assert(is_reachable(o.nodes, o.starts, dn));
    let c = choose|c: Seq<int>| #[trigger]
        is_shortest_chain(o.nodes, o.starts, dn, c) && p == chain_path(o, c);
    let entries = all_entries(m);
    lemma_graph_stands_for_entries(entries);
    let es = Seq::new(
        c.len(),
        |j: int| choose|e: RawEntry| #[trigger] stands_for(o.nodes[c[j]], e) && entries.contains(e),
    );
    assert(is_start(o.nodes, o.starts, c[0]));
    assert forall|j: int| 0 <= j < c.len() implies 0 <= #[trigger] c[j] < o.nodes.len() by {
        if j > 0 {
            assert(is_edge(o.nodes, c[j - 1], c[j - 1 + 1]));
        }
    }
    assert forall|j: int| 0 <= j < es.len() implies stands_for(o.nodes[c[j]], #[trigger] es[j])
        && is_known_entry(m, es[j]) by {
        assert(stands_for_one(o.nodes[c[j]], entries));
        lemma_all_entries(m, es[j]);
    }
    assert forall|j: int, k: int| 0 <= j && k == j + 1 && k < es.len() implies names_as_parent(
        #[trigger] es[j],
        #[trigger] es[k],
    ) by {
        assert(is_edge(o.nodes, c[j], c[j + 1]));
        assert(stands_for(o.nodes[c[k]], es[k]));
        lemma_edge_is_naming(o.nodes, c[j], c[k], es[j], es[k]);
    }
    assert(stands_for(o.nodes[c[0]], es[0]));
    lemma_start_is_entry_point(sid, m, es[0]);
    assert(p.nodes[0] == sid);
    assert forall|j: int| 0 <= j < es.len() implies resolver::entry_sid(#[trigger] es[j]) == Some(
        p.nodes[j + 1],
    ) && p.names[j + 1] == resolver::entry_name(es[j]) by {
        assert(stands_for(o.nodes[c[j]], es[j]));
    }
    assert(stands_for(o.nodes[c[c.len() - 1]], es[es.len() - 1]));
    assert(resolver::entry_sid(e) == Some(ms[i]@.group_sid));
    es
}

/// Whether the entries agree with each other: a group has one name and one SID, and
/// whichever entry is read for it names the same groups.
pub open spec fn agree_on_groups(m: MembershipEntries) -> bool {
    forall|a: RawEntry, b: RawEntry|
        #![trigger is_known_entry(m, a), is_known_entry(m, b)]
        is_known_entry(m, a) && is_known_entry(m, b) && resolver::entry_sid(a) is Some
            && resolver::entry_sid(b) is Some ==> {
            &&& (resolver::entry_sid(a) == resolver::entry_sid(b)) == (text::ascii_lower(a.dn@)
                == text::ascii_lower(b.dn@))
            &&& text::ascii_lower(a.dn@) == text::ascii_lower(b.dn@) ==> lowered(
                ldap_client::attr_values(a.attrs@, "memberOf"@),
            ) == lowered(ldap_client::attr_values(b.attrs@, "memberOf"@))
        }
}

/// Whatever chain of concrete memberships leads to a group, its path is complete and no
/// longer than that chain: the shortest one is told, and none is overlooked.
pub proof fn law_path_is_as_short_as_any_chain(
    sid: Seq<char>,
    m: MembershipEntries,
    ms: Seq<GroupMembership>,
    i: int,
    es: Seq<RawEntry>,
)
    requires
        states_all(origin_of(sid, m), group_facts(sid, m), ms),
        0 <= i < ms.len(),
        agree_on_groups(m),
        is_entry_chain(m, es),
        resolver::entry_sid(es.last()) == Some(ms[i]@.group_sid),
    ensures
        ms[i]@.path is Some,
        ms[i]@.path->0.complete,
        ms[i]@.path->0.nodes.len() <= es.len() + 1,
{
    let o = origin_of(sid, m);
    let f = group_facts(sid, m)[i];
    let p = ms[i]@.path->0;
    assert(states(o, f, ms[i]@));
    if f.dn is Some {
        let e = lemma_membership_of_entry(sid, m, ms, i);
        let entries = all_entries(m);
        lemma_graph_stands_for_entries(entries);
        assert(is_known_entry(m, e) && is_known_entry(m, es.last())) by {
            assert(is_known_entry(m, es[es.len() - 1]));
        }
        assert(f.dn == Some(text::ascii_lower(es.last().dn@)));
        let d = Seq::new(
            es.len(),
            |j: int|
                choose|v: int|
                    0 <= v < o.nodes.len() && (#[trigger] o.nodes[v]).dn == text::ascii_lower(
                        es[j].dn@,
                    ),
        );
        assert forall|j: int| 0 <= j < es.len() implies 0 <= #[trigger] d[j] < o.nodes.len()
            && o.nodes[d[j]].dn == text::ascii_lower(es[j].dn@) by {
            assert(is_known_entry(m, es[j]));
            lemma_all_entries(m, es[j]);
            let k = choose|k: int| 0 <= k < entries.len() && entries[k] == es[j];
            assert(resolver::entry_sid(entries[k]) is Some);
            assert(has_dn(o.nodes, text::ascii_lower(es[j].dn@)));
        }
        assert forall|j: int| 0 <= j < d.len() - 1 implies is_edge(
            o.nodes,
            #[trigger] d[j],
            d[j + 1],
        ) by {
            assert(stands_for_one(o.nodes[d[j]], entries));
            let x = choose|x: RawEntry| #[trigger]
                stands_for(o.nodes[d[j]], x) && entries.contains(x);
            lemma_all_entries(m, x);
            assert(is_known_entry(m, es[j]));
            assert(names_as_parent(es[j], es[j + 1]));
            lemma_lowered_names(es[j], es[j + 1]);
            lemma_lowered_names(x, es[j + 1]);
            assert(d[j + 1] == d[j + 1]);
            lemma_edge_is_naming(o.nodes, d[j], d[j + 1], x, es[j + 1]);
        }
        lemma_start_is_entry_point(sid, m, es[0]);
        assert(is_start(o.nodes, o.starts, d[0]));
        assert(is_chain(o.nodes, o.starts, d));
        assert(o.nodes[d[d.len() - 1]].dn == f.dn->0);
        assert(is_chain_to(o.nodes, o.starts, f.dn->0, d));
        let c = choose|c: Seq<int>| #[trigger]
            is_shortest_chain(o.nodes, o.starts, f.dn->0, c) && p == chain_path(o, c);
        assert(c.len() <= d.len());
    }
}

/// A membership that no chain explains is still stated: by one step, which is marked as
/// incomplete and says that the directory vouches for it.
pub proof fn law_unexplained_membership_is_marked(
    sid: Seq<char>,
    m: MembershipEntries,
    ms: Seq<GroupMembership>,
    i: int,
)
    requires
        states_all(origin_of(sid, m), group_facts(sid, m), ms),
        0 <= i < ms.len(),
    ensures
        ms[i]@.path is Some,
        !ms[i]@.path->0.complete ==> {
            &&& ms[i]@.path->0.source == MembershipPathSource::LdapMatchingRule
            &&& ms[i]@.path->0.nodes == seq![sid, ms[i]@.group_sid]
            &&& ms[i]@.path->0.names == seq![
                resolver::entry_name(m.principal),
                ms[i]@.group_name,
            ]
        },
        ms[i]@.path->0.complete ==> ms[i]@.path->0.source == MembershipPathSource::PrimaryGroup
            || ms[i]@.path->0.source == MembershipPathSource::DomainGroup,
{
    let o = origin_of(sid, m);
    let f = group_facts(sid, m)[i];
    assert(states(o, f, ms[i]@));
    let p = ms[i]@.path->0;
    if f.dn is Some && is_reachable(o.nodes, o.starts, f.dn->0) {
        let c = choose|c: Seq<int>| #[trigger]
            is_shortest_chain(o.nodes, o.starts, f.dn->0, c) && p == chain_path(o, c);
    } else if f.dn is Some {
        assert(p.nodes =~= seq![sid, ms[i]@.group_sid]);
        assert(p.names =~= seq![resolver::entry_name(m.principal), ms[i]@.group_name]);
    }
}

} // verus!
