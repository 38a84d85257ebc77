//! Dependency graph walker: the transitive closure of normal (production)
//! dependency edges, starting at the root package.
//!
//! Nodes come from the resolve section of the package manager's metadata.
//! The walk never revisits an identity, so it terminates on cyclic input too,
//! and it returns exactly the identities of nodes reachable from the root
//! along normal edges (a dependency reachable only through dev or build edges
//! is excluded).

use vstd::prelude::*;

verus! {

use vstd::seq_lib::*;
use vstd::set_lib::lemma_len_subset;

/// One kind attached to a dependency edge; `None` marks a normal
/// (production) edge, `Some(..)` a dev or build edge.
pub struct MetadataResolveNodeDepsKind {
    pub kind: Option<String>,
}

/// One outgoing dependency edge of a resolve node.
pub struct MetadataResolveNodeDeps {
    pub pkg: String,
    pub dep_kinds: Vec<MetadataResolveNodeDepsKind>,
}

/// One node of the resolve graph: its own identity and its edges.
pub struct MetadataResolveNode {
    pub id: String,
    pub deps: Vec<MetadataResolveNodeDeps>,
}

/// The edge carries at least one normal kind.
pub open spec fn dep_is_normal(d: MetadataResolveNodeDeps) -> bool {
    exists|k: int| 0 <= k < d.dep_kinds@.len() && d.dep_kinds@[k].kind is None
}

/// Some node in `nodes` has identity `id`.
pub open spec fn has_node(nodes: Seq<MetadataResolveNode>, id: Seq<char>) -> bool {
    exists|i: int| 0 <= i < nodes.len() && nodes[i].id@ == id
}

/// A node with identity `a` has a normal edge to identity `b`.
pub open spec fn edge(nodes: Seq<MetadataResolveNode>, a: Seq<char>, b: Seq<char>) -> bool {
    exists|i: int, j: int|
        0 <= i < nodes.len() && nodes[i].id@ == a && 0 <= j < nodes[i].deps@.len()
            && nodes[i].deps@[j].pkg@ == b && dep_is_normal(nodes[i].deps@[j])
}

/// `id` is the identity of a node reachable from `root` along normal edges
/// by a path of at most `k` edges.
pub open spec fn reach_n(
    nodes: Seq<MetadataResolveNode>,
    root: Seq<char>,
    id: Seq<char>,
    k: nat,
) -> bool
    decreases k,
{
    if k == 0 {
        id == root && has_node(nodes, id)
    } else {
        reach_n(nodes, root, id, (k - 1) as nat) || exists|mid: Seq<char>|
            reach_n(nodes, root, mid, (k - 1) as nat) && edge(nodes, mid, id) && has_node(
                nodes,
                id,
            )
    }
}

/// `id` is the identity of a node reachable from `root` along normal edges.
pub open spec fn reachable(nodes: Seq<MetadataResolveNode>, root: Seq<char>, id: Seq<char>) -> bool {
    exists|k: nat| reach_n(nodes, root, id, k)
}

/// Node identities are pairwise distinct.
pub open spec fn unique_node_ids(nodes: Seq<MetadataResolveNode>) -> bool {
    forall|i: int, j: int| 0 <= i < j < nodes.len() ==> nodes[i].id@ != nodes[j].id@
}

/// Some element of `v` views as `id`.
pub open spec fn ids_contain(v: Seq<String>, id: Seq<char>) -> bool {
    exists|i: int| 0 <= i < v.len() && v[i]@ == id
}

/// Every normal successor (with a node) of `a` is already listed in `v`.
pub open spec fn closed_at(
    nodes: Seq<MetadataResolveNode>,
    v: Seq<String>,
    a: Seq<char>,
) -> bool {
    forall|b: Seq<char>|
        edge(nodes, a, b) && has_node(nodes, b) ==> #[trigger] ids_contain(v, b)
}

/// The two edges name the same target with the same kinds.
pub open spec fn dep_similar(d: MetadataResolveNodeDeps, e: MetadataResolveNodeDeps) -> bool {
    &&& d.pkg == e.pkg
    &&& d.dep_kinds@.len() == e.dep_kinds@.len()
    &&& forall|k: int|
        0 <= k < d.dep_kinds@.len() ==> (#[trigger] d.dep_kinds@[k]).kind == e.dep_kinds@[k].kind
}

/// The two nodes carry the same identity and the same edges.
pub open spec fn node_similar(x: MetadataResolveNode, y: MetadataResolveNode) -> bool {
    &&& x.id == y.id
    &&& x.deps@.len() == y.deps@.len()
    &&& forall|j: int| 0 <= j < x.deps@.len() ==> #[trigger] dep_similar(x.deps@[j], y.deps@[j])
}

/// The two node lists describe the same graph.
pub open spec fn nodes_similar(a: Seq<MetadataResolveNode>, b: Seq<MetadataResolveNode>) -> bool {
    &&& a.len() == b.len()
    &&& forall|i: int| 0 <= i < a.len() ==> #[trigger] node_similar(a[i], b[i])
}

/// Bounded reachability depends only on the graph the nodes describe.
proof fn lemma_similar_reach_n(
    a: Seq<MetadataResolveNode>,
    b: Seq<MetadataResolveNode>,
    root: Seq<char>,
    id: Seq<char>,
    k: nat,
)
    requires
        nodes_similar(a, b),
        reach_n(a, root, id, k),
    ensures
        reach_n(b, root, id, k),
    decreases k,
{
    if k == 0 {
        let i = choose|i: int| 0 <= i < a.len() && a[i].id@ == id;
        assert(node_similar(a[i], b[i]));
        assert(has_node(b, id)) by {
            assert(b[i].id@ == id);
        }
    } else if reach_n(a, root, id, (k - 1) as nat) {
        lemma_similar_reach_n(a, b, root, id, (k - 1) as nat);
        assert(reach_n(b, root, id, k));
    } else {
        let mid = choose|mid: Seq<char>|
            reach_n(a, root, mid, (k - 1) as nat) && edge(a, mid, id) && has_node(a, id);
        lemma_similar_reach_n(a, b, root, mid, (k - 1) as nat);
        let (i, j): (int, int) = choose|i: int, j: int|
            0 <= i < a.len() && a[i].id@ == mid && 0 <= j < a[i].deps@.len()
                && a[i].deps@[j].pkg@ == id && dep_is_normal(a[i].deps@[j]);
        assert(node_similar(a[i], b[i]));
        assert(dep_similar(a[i].deps@[j], b[i].deps@[j]));
        assert(dep_is_normal(b[i].deps@[j])) by {
            let w = choose|w: int|
                0 <= w < a[i].deps@[j].dep_kinds@.len() && a[i].deps@[j].dep_kinds@[w].kind
                    is None;
            assert(b[i].deps@[j].dep_kinds@[w].kind is None);
        }
        assert(edge(b, mid, id)) by {
            assert(b[i].id@ == mid && b[i].deps@[j].pkg@ == id);
        }
        let w2 = choose|w2: int| 0 <= w2 < a.len() && a[w2].id@ == id;
        assert(node_similar(a[w2], b[w2]));
        assert(has_node(b, id)) by {
            assert(b[w2].id@ == id);
        }
        assert(reach_n(b, root, id, k));
    }
}

/// Reachability depends only on the graph the nodes describe.
pub proof fn lemma_similar_preserves_reachable(
    a: Seq<MetadataResolveNode>,
    b: Seq<MetadataResolveNode>,
    root: Seq<char>,
    id: Seq<char>,
)
    requires
        nodes_similar(a, b),
        reachable(a, root, id),
    ensures
        reachable(b, root, id),
{
    let k = choose|k: nat| reach_n(a, root, id, k);
    lemma_similar_reach_n(a, b, root, id, k);
}

/// Reaching one more normal edge keeps a node reachable.
proof fn lemma_reach_step(
    nodes: Seq<MetadataResolveNode>,
    root: Seq<char>,
    a: Seq<char>,
    b: Seq<char>,
)
    requires
        reachable(nodes, root, a),
        edge(nodes, a, b),
        has_node(nodes, b),
    ensures
        reachable(nodes, root, b),
{
    let k = choose|k: nat| reach_n(nodes, root, a, k);
    assert(reach_n(nodes, root, b, k + 1));
}

/// Without a node for the root, nothing is reachable.
proof fn lemma_no_root_no_reach(
    nodes: Seq<MetadataResolveNode>,
    root: Seq<char>,
    id: Seq<char>,
    k: nat,
)
    requires
        !has_node(nodes, root),
    ensures
        !reach_n(nodes, root, id, k),
    decreases k,
{
    if k > 0 {
        lemma_no_root_no_reach(nodes, root, id, (k - 1) as nat);
        assert forall|mid: Seq<char>| !(reach_n(nodes, root, mid, (k - 1) as nat) && edge(
            nodes,
            mid,
            id,
        ) && has_node(nodes, id)) by {
            lemma_no_root_no_reach(nodes, root, mid, (k - 1) as nat);
        }
    }
}

/// A list that holds the root and is closed under normal edges holds every
/// reachable identity.
proof fn lemma_closed_covers_reach(
    nodes: Seq<MetadataResolveNode>,
    root: Seq<char>,
    v: Seq<String>,
    id: Seq<char>,
    k: nat,
)
    requires
        has_node(nodes, root) ==> ids_contain(v, root),
        forall|i: int| 0 <= i < v.len() ==> #[trigger] closed_at(nodes, v, v[i]@),
        reach_n(nodes, root, id, k),
    ensures
        ids_contain(v, id),
    decreases k,
{
    if k == 0 {
    } else if reach_n(nodes, root, id, (k - 1) as nat) {
        lemma_closed_covers_reach(nodes, root, v, id, (k - 1) as nat);
    } else {
        let mid = choose|mid: Seq<char>|
            reach_n(nodes, root, mid, (k - 1) as nat) && edge(nodes, mid, id) && has_node(
                nodes,
                id,
            );
        lemma_closed_covers_reach(nodes, root, v, mid, (k - 1) as nat);
        let i = choose|i: int| 0 <= i < v.len() && v[i]@ == mid;
        assert(closed_at(nodes, v, v[i]@));
        assert(ids_contain(v, id));
    }
}

/// Membership in an identity list survives appending to it.
proof fn lemma_ids_contain_push(v: Seq<String>, p: String, x: Seq<char>)
    requires
        ids_contain(v, x),
    ensures
        ids_contain(v.push(p), x),
{
    let w = choose|w: int| 0 <= w < v.len() && v[w]@ == x;
    assert(v.push(p)[w]@ == x);
}

/// Closure under normal edges survives appending to the list.
proof fn lemma_closed_at_push(
    nodes: Seq<MetadataResolveNode>,
    v: Seq<String>,
    p: String,
    a: Seq<char>,
)
    requires
        closed_at(nodes, v, a),
    ensures
        closed_at(nodes, v.push(p), a),
{
    assert forall|b: Seq<char>| edge(nodes, a, b) && has_node(nodes, b)
        implies #[trigger] ids_contain(v.push(p), b) by {
        assert(ids_contain(v, b));
        lemma_ids_contain_push(v, p, b);
    }
}

/// Distinct identities, each naming some node, are no more numerous than the
/// nodes.
proof fn lemma_visited_bounded(nodes: Seq<MetadataResolveNode>, v: Seq<String>)
    requires
        forall|i: int, j: int| 0 <= i < j < v.len() ==> v[i]@ != v[j]@,
        forall|i: int| 0 <= i < v.len() ==> has_node(nodes, #[trigger] v[i]@),
    ensures
        v.len() <= nodes.len(),
{
    let idviews = v.map_values(|s: String| s@);
    let nodeids = nodes.map_values(|n: MetadataResolveNode| n.id@);
    assert(idviews.no_duplicates());
    idviews.unique_seq_to_set();
    nodeids.lemma_cardinality_of_set();
    assert forall|x: Seq<char>| idviews.to_set().contains(x) implies nodeids.to_set().contains(
        x,
    ) by {
        let i = choose|i: int| 0 <= i < idviews.len() && idviews[i] == x;
        assert(has_node(nodes, v[i]@));
        let n = choose|n: int| 0 <= n < nodes.len() && nodes[n].id@ == x;
        assert(nodeids[n] == x);
        assert(nodeids.to_set().contains(nodeids[n]));
    }
    lemma_len_subset(idviews.to_set(), nodeids.to_set());
}

/// The edge carries at least one normal kind.
fn dep_has_normal_kind(d: &MetadataResolveNodeDeps) -> (r: bool)
    ensures
        r == dep_is_normal(*d),
{
    let mut k: usize = 0;
    while k < d.dep_kinds.len()
        invariant
            k <= d.dep_kinds@.len(),
            forall|m: int| 0 <= m < k ==> !(d.dep_kinds@[m].kind is None),
        decreases d.dep_kinds@.len() - k,
    {
        if d.dep_kinds[k].kind.is_none() {
            return true;
        }
        k += 1;
    }
    false
}

/// Index of the node with identity `id`, if one exists.
fn find_node(nodes: &Vec<MetadataResolveNode>, id: &String) -> (r: Option<usize>)
    ensures
        match r {
            Some(i) => i < nodes@.len() && nodes@[i as int].id@ == id@,
            None => !has_node(nodes@, id@),
        },
{
    let mut i: usize = 0;
    while i < nodes.len()
        invariant
            i <= nodes@.len(),
            forall|m: int| 0 <= m < i ==> nodes@[m].id@ != id@,
        decreases nodes@.len() - i,
    {
        if nodes[i].id == *id {
            return Some(i);
        }
        i += 1;
    }
    None
}

/// Some element of `v` equals `id`.
pub(crate) fn ids_contain_exec(v: &Vec<String>, id: &String) -> (r: bool)
    ensures
        r == ids_contain(v@, id@),
{
    let mut i: usize = 0;
    while i < v.len()
        invariant
            i <= v@.len(),
            forall|m: int| 0 <= m < i ==> v@[m]@ != id@,
        decreases v@.len() - i,
    {
        if v[i] == *id {
            return true;
        }
        i += 1;
    }
    false
}

/// Collect the identities of all nodes reachable from `root` along normal
/// dependency edges. The root's own node, if present, is always included; a
/// missing root yields an empty result. Identities already collected are
/// never revisited, so a cycle in the input cannot make the walk loop.
pub fn walk_dependencies(nodes: &Vec<MetadataResolveNode>, root: &String) -> (r: Vec<String>)
    requires
        unique_node_ids(nodes@),
    ensures
        forall|i: int| 0 <= i < r@.len() ==> reachable(nodes@, root@, #[trigger] r@[i]@),
        forall|id: Seq<char>| reachable(nodes@, root@, id) ==> #[trigger] ids_contain(r@, id),
        forall|i: int, j: int| 0 <= i < j < r@.len() ==> r@[i]@ != r@[j]@,
{
    let mut visited: Vec<String> = Vec::new();
    let mut stack: Vec<String> = Vec::new();
    if find_node(nodes, root).is_none() {
        proof {
            assert forall|id: Seq<char>| reachable(nodes@, root@, id) implies ids_contain(
                visited@,
                id,
            ) by {
                let k = choose|k: nat| reach_n(nodes@, root@, id, k);
                lemma_no_root_no_reach(nodes@, root@, id, k);
            }
        }
        return visited;
    }
    visited.push(root.clone());
    stack.push(root.clone());
    proof {
        assert(reach_n(nodes@, root@, root@, 0));
        assert(visited@[0]@ == root@);
        assert(ids_contain(visited@, root@));
        assert(ids_contain(visited@, stack@[0]@));
    }
    loop
        invariant
            unique_node_ids(nodes@),
            forall|i: int, j: int| 0 <= i < j < visited@.len() ==> visited@[i]@ != visited@[j]@,
            forall|i: int|
                0 <= i < visited@.len() ==> reachable(nodes@, root@, #[trigger] visited@[i]@),
            forall|i: int| 0 <= i < visited@.len() ==> has_node(nodes@, #[trigger] visited@[i]@),
            forall|i: int|
                0 <= i < stack@.len() ==> #[trigger] ids_contain(visited@, stack@[i]@),
            ids_contain(visited@, root@),
            forall|i: int|
                0 <= i < visited@.len() && !ids_contain(stack@, visited@[i]@)
                    ==> #[trigger] closed_at(nodes@, visited@, visited@[i]@),
        ensures
            stack@.len() == 0,
        decreases nodes@.len() - visited@.len(), stack@.len(),
    {
        proof {
            lemma_visited_bounded(nodes@, visited@);
        }
        let ghost stack0 = stack@;
        let id = match stack.pop() {
            Some(id) => id,
            None => {
                break ;
            },
        };
        let ghost popped = stack@.push(id);
        proof {
            assert(ids_contain(visited@, stack0[stack0.len() - 1]@));
            assert(ids_contain(visited@, id@));
            let w = choose|w: int| 0 <= w < visited@.len() && visited@[w]@ == id@;
            assert(has_node(nodes@, visited@[w]@));
            assert(popped =~= stack0);
        }
        let idx = match find_node(nodes, &id) {
            Some(i) => i,
            None => {
                proof {
                    assert(false);
                }
                return visited;
            },
        };
        let ghost visited_at_pop = visited@;
        let deps_len = nodes[idx].deps.len();
        let mut j: usize = 0;
        while j < deps_len
            invariant
                unique_node_ids(nodes@),
                idx < nodes@.len(),
                nodes@[idx as int].id@ == id@,
                deps_len == nodes@[idx as int].deps@.len(),
                j <= deps_len,
                visited_at_pop.len() <= visited@.len(),
                forall|i: int, jj: int|
                    0 <= i < jj < visited@.len() ==> visited@[i]@ != visited@[jj]@,
                forall|i: int|
                    0 <= i < visited@.len() ==> reachable(nodes@, root@, #[trigger] visited@[i]@),
                forall|i: int|
                    0 <= i < visited@.len() ==> has_node(nodes@, #[trigger] visited@[i]@),
                forall|i: int|
                    0 <= i < stack@.len() ==> #[trigger] ids_contain(visited@, stack@[i]@),
                ids_contain(visited@, root@),
                ids_contain(visited@, id@),
                forall|i: int|
                    0 <= i < visited@.len() && visited@[i]@ != id@ && !ids_contain(
                        stack@,
                        visited@[i]@,
                    ) ==> #[trigger] closed_at(nodes@, visited@, visited@[i]@),
                forall|jj: int|
                    0 <= jj < j && dep_is_normal(nodes@[idx as int].deps@[jj]) && has_node(
                        nodes@,
                        nodes@[idx as int].deps@[jj].pkg@,
                    ) ==> ids_contain(visited@, #[trigger] nodes@[idx as int].deps@[jj].pkg@),
                visited@.len() + popped.len() == visited_at_pop.len() + stack@.len() + 1,
                visited@.len() <= nodes@.len(),
            decreases deps_len - j,
        {
            let dep_normal = dep_has_normal_kind(&nodes[idx].deps[j]);
            if dep_normal {
                let pkg_exists = find_node(nodes, &nodes[idx].deps[j].pkg).is_some();
                if pkg_exists && !ids_contain_exec(&visited, &nodes[idx].deps[j].pkg) {
                    let pkg = nodes[idx].deps[j].pkg.clone();
                    let ghost vis0 = visited@;
                    let ghost stk0 = stack@;
                    proof {
                        assert(edge(nodes@, id@, pkg@)) by {
                            assert(nodes@[idx as int].deps@[j as int].pkg@ == pkg@);
                        }
                        lemma_reach_step(nodes@, root@, id@, pkg@);
                        lemma_visited_bounded(nodes@, visited@.push(pkg));
                    }
                    visited.push(pkg.clone());
                    stack.push(pkg);
                    proof {
                        assert(visited@[vis0.len() as int]@ == stack@[stk0.len() as int]@);
                        assert forall|i: int| 0 <= i < stack@.len() implies #[trigger] ids_contain(
                            visited@,
                            stack@[i]@,
                        ) by {
                            if i < stk0.len() {
                                assert(ids_contain(vis0, stk0[i]@));
                                lemma_ids_contain_push(vis0, visited@[vis0.len() as int], stk0[i]@);
                            } else {
                                assert(ids_contain(visited@, visited@[vis0.len() as int]@));
                            }
                        }
                        lemma_ids_contain_push(vis0, visited@[vis0.len() as int], root@);
                        lemma_ids_contain_push(vis0, visited@[vis0.len() as int], id@);
                        assert forall|i: int|
                            0 <= i < visited@.len() && visited@[i]@ != id@ && !ids_contain(
                                stack@,
                                visited@[i]@,
                            ) implies #[trigger] closed_at(nodes@, visited@, visited@[i]@) by {
                            assert(i < vis0.len());
                            assert(!ids_contain(stk0, vis0[i]@)) by {
                                if ids_contain(stk0, vis0[i]@) {
                                    let w = choose|w: int|
                                        0 <= w < stk0.len() && stk0[w]@ == vis0[i]@;
                                    assert(stack@[w]@ == vis0[i]@);
                                }
                            }
                            assert(closed_at(nodes@, vis0, vis0[i]@));
                            lemma_closed_at_push(
                                nodes@,
                                vis0,
                                visited@[vis0.len() as int],
                                vis0[i]@,
                            );
                        }
                        assert forall|jj: int|
                            0 <= jj < j + 1 && dep_is_normal(nodes@[idx as int].deps@[jj])
                                && has_node(nodes@, nodes@[idx as int].deps@[jj].pkg@)
                                implies ids_contain(
                            visited@,
                            #[trigger] nodes@[idx as int].deps@[jj].pkg@,
                        ) by {
                            if jj < j {
                                lemma_ids_contain_push(
                                    vis0,
                                    visited@[vis0.len() as int],
                                    nodes@[idx as int].deps@[jj].pkg@,
                                );
                            } else {
                                assert(ids_contain(visited@, visited@[vis0.len() as int]@));
                            }
                        }
                    }
                } else {
                    proof {
                        if pkg_exists {
                            assert(ids_contain(
                                visited@,
                                nodes@[idx as int].deps@[j as int].pkg@,
                            ));
                        }
                    }
                }
            }
            j += 1;
        }
        proof {
            assert forall|b: Seq<char>| edge(nodes@, id@, b) && has_node(nodes@, b)
                implies #[trigger] ids_contain(visited@, b) by {
                let (i, jj): (int, int) = choose|i: int, jj: int|
                    0 <= i < nodes@.len() && nodes@[i].id@ == id@ && 0 <= jj
                        < nodes@[i].deps@.len() && nodes@[i].deps@[jj].pkg@ == b && dep_is_normal(
                        nodes@[i].deps@[jj],
                    );
                if i != idx {
                    assert(nodes@[i].id@ != nodes@[idx as int].id@);
                }
                assert(i == idx);
            }
            assert(closed_at(nodes@, visited@, id@));
        }
    }
    proof {
        assert forall|id: Seq<char>| reachable(nodes@, root@, id) implies ids_contain(
            visited@,
            id,
        ) by {
            let k = choose|k: nat| reach_n(nodes@, root@, id, k);
            assert forall|i: int| 0 <= i < visited@.len() implies #[trigger] closed_at(
                nodes@,
                visited@,
                visited@[i]@,
            ) by {
                assert(!ids_contain(stack@, visited@[i]@));
            }
            lemma_closed_covers_reach(nodes@, root@, visited@, id, k);
        }
    }
    visited
}

} // verus!
