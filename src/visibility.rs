use vstd::prelude::*;
use crate::collection::{
    out_edges_spec, propagates, CollectionContext, CollectionEdge,
    CollectionIndex, CollectionNode,
};
use crate::declarations::{DeclarationEngine, DeclarationError, DeclarationWrapper};
use crate::type_system::{lemma_distinct_ints, DeclarationId};
use crate::typed::{TyDeclaration, TyNode};

verus! {

/// Some edge from `u` to `v` lets visibility through.
pub open spec fn has_prop_edge(edges: Seq<(usize, usize, CollectionEdge)>, u: usize, v: usize) -> bool {
    exists|k: int|
        0 <= k < edges.len() && (#[trigger] edges[k]).0 == u && edges[k].1 == v && propagates(
            edges[k].2,
        )
}

/// `p` is a walk along edges that let visibility through.
pub open spec fn is_path(edges: Seq<(usize, usize, CollectionEdge)>, p: Seq<usize>) -> bool {
    &&& p.len() >= 1
    &&& forall|i: int| 0 <= i < p.len() - 1 ==> #[trigger] has_prop_edge(edges, p[i], p[i + 1])
}

/// What is declared at `t` is visible from `s`.
pub open spec fn reachable(edges: Seq<(usize, usize, CollectionEdge)>, s: usize, t: usize) -> bool {
    exists|p: Seq<usize>| #[trigger] is_path(edges, p) && p[0] == s && p.last() == t
}

/// The name under which a declaration handle is visible, looked up by its kind.
pub open spec fn declared_name(decls: Seq<DeclarationWrapper>, d: TyDeclaration) -> Option<
    Result<String, DeclarationError>,
> {
    match d {
        TyDeclaration::Function(id) => Some(
            if id.index >= decls.len() {
                Err(DeclarationError::NotFound)
            } else {
                match decls[id.index as int] {
                    DeclarationWrapper::Function(f) => Ok(f.name),
                    _ => Err(DeclarationError::KindMismatch),
                }
            },
        ),
        TyDeclaration::Trait(id) => Some(
            if id.index >= decls.len() {
                Err(DeclarationError::NotFound)
            } else {
                match decls[id.index as int] {
                    DeclarationWrapper::Trait(t) => Ok(t.name),
                    _ => Err(DeclarationError::KindMismatch),
                }
            },
        ),
        TyDeclaration::TraitImpl(id) => Some(
            if id.index >= decls.len() {
                Err(DeclarationError::NotFound)
            } else {
                match decls[id.index as int] {
                    DeclarationWrapper::TraitImpl(t) => Ok(t.trait_name),
                    _ => Err(DeclarationError::KindMismatch),
                }
            },
        ),
        TyDeclaration::Struct(id) => Some(
            if id.index >= decls.len() {
                Err(DeclarationError::NotFound)
            } else {
                match decls[id.index as int] {
                    DeclarationWrapper::Struct(s) => Ok(s.name),
                    _ => Err(DeclarationError::KindMismatch),
                }
            },
        ),
        _ => None,
    }
}

/// The handle of a named declaration.
pub open spec fn declared_id(d: TyDeclaration) -> DeclarationId {
    match d {
        TyDeclaration::Function(id) => id,
        TyDeclaration::Trait(id) => id,
        TyDeclaration::TraitImpl(id) => id,
        TyDeclaration::Struct(id) => id,
        _ => DeclarationId { index: 0 },
    }
}

/// What a graph node contributes to the visible declarations: nothing, a
/// (name, handle) pair, or the error met looking the declaration up.
pub open spec fn node_entry(decls: Seq<DeclarationWrapper>, node: CollectionNode) -> Option<
    Result<(String, DeclarationId), DeclarationError>,
> {
    match node {
        CollectionNode::Node(TyNode::Declaration(d)) => match declared_name(decls, d) {
            None => None,
            Some(Ok(name)) => Some(Ok((name, declared_id(d)))),
            Some(Err(e)) => Some(Err(e)),
        },
        _ => None,
    }
}

fn entry_of(decls: &DeclarationEngine, node: &CollectionNode) -> (r: Option<
    Result<(String, DeclarationId), DeclarationError>,
>)
    ensures
        r == node_entry(decls.view(), *node),
{
    match node {
        CollectionNode::Node(TyNode::Declaration(d)) => match d {
            TyDeclaration::Function(id) => Some(
                match decls.get_function(*id) {
                    Ok(f) => Ok((f.name.clone(), *id)),
                    Err(e) => Err(e),
                },
            ),
            TyDeclaration::Trait(id) => Some(
                match decls.get_trait(*id) {
                    Ok(t) => Ok((t.name.clone(), *id)),
                    Err(e) => Err(e),
                },
            ),
            TyDeclaration::TraitImpl(id) => Some(
                match decls.get_trait_impl(*id) {
                    Ok(t) => Ok((t.trait_name.clone(), *id)),
                    Err(e) => Err(e),
                },
            ),
            TyDeclaration::Struct(id) => Some(
                match decls.get_struct(*id) {
                    Ok(s) => Ok((s.name.clone(), *id)),
                    Err(e) => Err(e),
                },
            ),
            _ => None,
        },
        _ => None,
    }
}

pub proof fn lemma_out_edges_complete(edges: Seq<(usize, usize, CollectionEdge)>, a: usize, k: int)
    requires
        0 <= k < edges.len(),
        edges[k].0 == a,
    ensures
        out_edges_spec(edges, a).contains((edges[k].1, edges[k].2)),
    decreases edges.len(),
{
    let rest = out_edges_spec(edges.drop_last(), a);
    if k == edges.len() - 1 {
        assert(out_edges_spec(edges, a)[0] == (edges[k].1, edges[k].2));
    } else {
        lemma_out_edges_complete(edges.drop_last(), a, k);
        let j = choose|j: int| 0 <= j < rest.len() && rest[j] == (edges[k].1, edges[k].2);
        if edges.last().0 == a {
            assert(out_edges_spec(edges, a)[j + 1] == rest[j]);
        } else {
            assert(out_edges_spec(edges, a)[j] == rest[j]);
        }
    }
}

pub proof fn lemma_out_edges_sound(edges: Seq<(usize, usize, CollectionEdge)>, a: usize, j: int)
    requires
        0 <= j < out_edges_spec(edges, a).len(),
    ensures
        exists|k: int|
            0 <= k < edges.len() && (#[trigger] edges[k]).0 == a && edges[k].1 == out_edges_spec(
                edges,
                a,
            )[j].0 && edges[k].2 == out_edges_spec(edges, a)[j].1,
    decreases edges.len(),
{
    let e = edges.last();
    let rest = out_edges_spec(edges.drop_last(), a);
    if e.0 == a && j == 0 {
        assert(edges[edges.len() - 1] == e);
    } else {
        let jj = if e.0 == a { j - 1 } else { j };
        assert(out_edges_spec(edges, a)[j] == rest[jj]);
        lemma_out_edges_sound(edges.drop_last(), a, jj);
        let k = choose|k: int|
            0 <= k < edges.drop_last().len() && (#[trigger] edges.drop_last()[k]).0 == a
                && edges.drop_last()[k].1 == rest[jj].0 && edges.drop_last()[k].2 == rest[jj].1;
        assert(edges[k] == edges.drop_last()[k]);
    }
}

proof fn lemma_reachable_step(
    edges: Seq<(usize, usize, CollectionEdge)>,
    s: usize,
    u: usize,
    v: usize,
)
    requires
        reachable(edges, s, u),
        has_prop_edge(edges, u, v),
    ensures
        reachable(edges, s, v),
{
    let p = choose|p: Seq<usize>| #[trigger] is_path(edges, p) && p[0] == s && p.last() == u;
    let q = p.push(v);
    assert forall|i: int| 0 <= i < q.len() - 1 implies #[trigger] has_prop_edge(
        edges,
        q[i],
        q[i + 1],
    ) by {
        if i < p.len() - 1 {
            assert(q[i] == p[i] && q[i + 1] == p[i + 1]);
            assert(has_prop_edge(edges, p[i], p[i + 1]));
        }
    }
    assert(is_path(edges, q));
}

proof fn lemma_reachable_self(edges: Seq<(usize, usize, CollectionEdge)>, s: usize)
    ensures
        reachable(edges, s, s),
{
    assert(is_path(edges, seq![s]));
}

/// A set of nodes closed under visibility edges holds every node that a path
/// from one of its members reaches.
proof fn lemma_closed_path(edges: Seq<(usize, usize, CollectionEdge)>, disc: Seq<bool>, p: Seq<usize>)
    requires
        is_path(edges, p),
        p[0] < disc.len(),
        disc[p[0] as int],
        forall|u: usize, v: usize|
            #![trigger has_prop_edge(edges, u, v), disc[u as int]]
            u < disc.len() && disc[u as int] && has_prop_edge(edges, u, v) ==> v < disc.len()
                && disc[v as int],
    ensures
        p.last() < disc.len(),
        disc[p.last() as int],
    decreases p.len(),
{
    if p.len() > 1 {
        let q = p.drop_last();
        assert forall|i: int| 0 <= i < q.len() - 1 implies #[trigger] has_prop_edge(
            edges,
            q[i],
            q[i + 1],
        ) by {
            assert(q[i] == p[i] && q[i + 1] == p[i + 1]);
            assert(has_prop_edge(edges, p[i], p[i + 1]));
        }
        lemma_closed_path(edges, disc, q);
        let i = p.len() - 2;
        assert(has_prop_edge(edges, p[i], p[i + 1]));
    }
}

/// A sequence of distinct numbers below `n` has at most `n` elements.
proof fn lemma_distinct_below(s: Seq<usize>, n: nat)
    requires
        s.no_duplicates(),
        forall|i: int| 0 <= i < s.len() ==> (#[trigger] s[i]) < n,
    ensures
        s.len() <= n,
{
    let t = s.map_values(|x: usize| x as int);
    assert forall|i: int, j: int| 0 <= i < t.len() && 0 <= j < t.len() && i != j implies t[i]
        != t[j] by {
        assert(s[i] != s[j]);
    }
    lemma_distinct_ints(t, n as int);
}

/// `w` stands somewhere in `queue`.
#[verifier::opaque]
pub open spec fn in_queue(queue: Seq<usize>, w: int) -> bool {
    exists|q: int| 0 <= q < queue.len() && queue[q] == w
}

/// The discovered flags and the queue after enqueueing, in edge-insertion order,
/// the unseen targets of the propagating edges `outs[j..]` (`outs` lists the most
/// recently added edge first).
pub open spec fn enqueue_spec(
    disc: Seq<bool>,
    queue: Seq<usize>,
    outs: Seq<(usize, CollectionEdge)>,
    j: int,
) -> (Seq<bool>, Seq<usize>)
    decreases outs.len() - j,
{
    if j < 0 || j >= outs.len() {
        (disc, queue)
    } else {
        let (d1, q1) = enqueue_spec(disc, queue, outs, j + 1);
        let (v, k) = outs[j];
        if propagates(k) && !d1[v as int] {
            (d1.update(v as int, true), q1.push(v))
        } else {
            (d1, q1)
        }
    }
}

/// The breadth-first search from `start` over `n` nodes after `k` queued nodes
/// have been processed: the discovered flags and the queue.
pub open spec fn bfs(edges: Seq<(usize, usize, CollectionEdge)>, n: nat, start: usize, k: nat) -> (
    Seq<bool>,
    Seq<usize>,
)
    decreases k,
{
    if k == 0 {
        (Seq::new(n, |i: int| i == start), seq![start])
    } else {
        let (d, q) = bfs(edges, n, start, (k - 1) as nat);
        if k - 1 < q.len() {
            enqueue_spec(d, q, out_edges_spec(edges, q[k - 1]), 0)
        } else {
            (d, q)
        }
    }
}

/// The entries of the first `k` queued nodes, in queue order.
pub open spec fn entries_upto(
    dv: Seq<DeclarationWrapper>,
    nodes: Seq<CollectionNode>,
    queue: Seq<usize>,
    k: int,
) -> Seq<(String, DeclarationId)>
    decreases k,
{
    if k <= 0 {
        Seq::empty()
    } else {
        entries_upto(dv, nodes, queue, k - 1) + match node_entry(dv, nodes[queue[k - 1] as int]) {
            Some(Ok(x)) => seq![x],
            _ => Seq::empty(),
        }
    }
}

/// The search from `start` ends after `k` processed nodes, its queue then holding
/// exactly `k` nodes.
pub open spec fn bfs_ends_at(edges: Seq<(usize, usize, CollectionEdge)>, n: nat, start: usize, k: nat) -> bool {
    &&& bfs(edges, n, start, k).1.len() == k
    &&& forall|j: nat| j < k ==> (#[trigger] bfs(edges, n, start, j)).1.len() > j
}

/// The listing of the search: the entries of the queued nodes in queue order.
pub open spec fn bfs_listing(
    edges: Seq<(usize, usize, CollectionEdge)>,
    dv: Seq<DeclarationWrapper>,
    nodes: Seq<CollectionNode>,
    start: usize,
    k: nat,
) -> Seq<(String, DeclarationId)> {
    entries_upto(dv, nodes, bfs(edges, nodes.len(), start, k).1, k as int)
}

proof fn lemma_entries_prefix(
    dv: Seq<DeclarationWrapper>,
    nodes: Seq<CollectionNode>,
    q1: Seq<usize>,
    q2: Seq<usize>,
    k: int,
)
    requires
        k <= q1.len() <= q2.len(),
        forall|q: int| 0 <= q < q1.len() ==> (#[trigger] q2[q]) == q1[q],
    ensures
        entries_upto(dv, nodes, q1, k) == entries_upto(dv, nodes, q2, k),
    decreases k,
{
    if k > 0 {
        lemma_entries_prefix(dv, nodes, q1, q2, k - 1);
        assert(q2[k - 1] == q1[k - 1]);
    }
}

/// The bookkeeping of the traversal: `queue` holds each discovered node once,
/// every one of them reachable from `start`, and `disc` flags exactly those.
#[verifier::opaque]
pub open spec fn frontier_ok(
    edges: Seq<(usize, usize, CollectionEdge)>,
    start: usize,
    n: nat,
    disc: Seq<bool>,
    queue: Seq<usize>,
) -> bool {
    &&& disc.len() == n
    &&& queue.len() <= n
    &&& queue.len() > 0 && queue[0] == start
    &&& queue.no_duplicates()
    &&& forall|q: int| 0 <= q < queue.len() ==> (#[trigger] queue[q]) < n && disc[queue[q] as int]
    &&& forall|q: int| 0 <= q < queue.len() ==> reachable(edges, start, #[trigger] queue[q])
    &&& forall|w: int| 0 <= w < n && #[trigger] disc[w] ==> in_queue(queue, w)
}

/// Discovers the targets of the edges in `outs` that let visibility through, in
/// the order the edges were added.
fn enqueue_targets(
    disc: &mut Vec<bool>,
    queue: &mut Vec<usize>,
    outs: &Vec<(usize, CollectionEdge)>,
    Ghost(edges): Ghost<Seq<(usize, usize, CollectionEdge)>>,
    Ghost(start): Ghost<usize>,
    Ghost(n): Ghost<nat>,
    u: usize,
)
    requires
        frontier_ok(edges, start, n, old(disc)@, old(queue)@),
        reachable(edges, start, u),
        outs@ == out_edges_spec(edges, u),
        forall|jj: int| 0 <= jj < outs@.len() ==> (#[trigger] outs@[jj]).0 < n,
    ensures
        frontier_ok(edges, start, n, final(disc)@, final(queue)@),
        final(queue)@.len() >= old(queue)@.len(),
        forall|q: int| 0 <= q < old(queue)@.len() ==> (#[trigger] final(queue)@[q]) == old(queue)@[q],
        forall|w: int| 0 <= w < n && old(disc)@[w] ==> #[trigger] final(disc)@[w],
        forall|jj: int|
            0 <= jj < outs@.len() && propagates((#[trigger] outs@[jj]).1) ==> final(disc)@[outs@[jj].0 as int],
        (final(disc)@, final(queue)@) == enqueue_spec(old(disc)@, old(queue)@, outs@, 0),
{
    let ghost q_in = queue@;
    let ghost d_in = disc@;
    reveal(frontier_ok);
    let mut j: usize = outs.len();
    while j > 0
        invariant
            frontier_ok(edges, start, n, disc@, queue@),
            reachable(edges, start, u),
            outs@ == out_edges_spec(edges, u),
            forall|jj: int| 0 <= jj < outs@.len() ==> (#[trigger] outs@[jj]).0 < n,
            j <= outs@.len(),
            queue@.len() >= q_in.len(),
            forall|q: int| 0 <= q < q_in.len() ==> (#[trigger] queue@[q]) == q_in[q],
            forall|w: int| 0 <= w < n && d_in[w] ==> #[trigger] disc@[w],
            (disc@, queue@) == enqueue_spec(d_in, q_in, outs@, j as int),
            d_in == old(disc)@,
            q_in == old(queue)@,
            forall|jj: int|
                j <= jj < outs@.len() && propagates((#[trigger] outs@[jj]).1) ==> disc@[outs@[jj].0 as int],
        decreases j,
    {
        reveal(frontier_ok);
        j = j - 1;
        let (v, kind) = outs[j];
        if kind.is_propagating() && !disc[v] {
            let ghost q0 = queue@;
            let ghost d0 = disc@;
            proof {
                lemma_out_edges_sound(edges, u, j as int);
                let k = choose|k: int|
                    0 <= k < edges.len() && (#[trigger] edges[k]).0 == u && edges[k].1
                        == out_edges_spec(edges, u)[j as int].0 && edges[k].2 == out_edges_spec(
                        edges,
                        u,
                    )[j as int].1;
                assert(has_prop_edge(edges, u, v));
                lemma_reachable_step(edges, start, u, v);
                let nq = queue@.push(v);
                assert forall|a: int, b: int| 0 <= a < b < nq.len() implies nq[a] != nq[b] by {
                    if b == nq.len() - 1 {
                        assert(disc@[nq[a] as int]);
                    } else {
                        assert(q0[a] != q0[b]);
                    }
                }
                assert forall|q: int| 0 <= q < nq.len() implies (#[trigger] nq[q]) < n by {}
                lemma_distinct_below(nq, n);
            }
            disc.set(v, true);
            queue.push(v);
            proof {
                assert forall|w: int| 0 <= w < n && #[trigger] disc@[w] implies in_queue(queue@, w) by {
                    reveal(in_queue);
                    if w != v {
                        assert(d0[w]);
                        assert(in_queue(q0, w));
                        let q = choose|q: int| 0 <= q < q0.len() && q0[q] == w;
                        assert(queue@[q] == w);
                    } else {
                        assert(queue@[queue@.len() - 1] == w);
                    }
                }
                assert forall|q: int| 0 <= q < queue@.len() implies (#[trigger] queue@[q]) < n
                    && disc@[queue@[q] as int] by {
                    if q < q0.len() {
                        assert(queue@[q] == q0[q]);
                    }
                }
                assert forall|q: int| 0 <= q < queue@.len() implies reachable(
                    edges,
                    start,
                    #[trigger] queue@[q],
                ) by {
                    if q < q0.len() {
                        assert(queue@[q] == q0[q]);
                    }
                }
                assert forall|jj: int|
                    j <= jj < outs@.len() && propagates((#[trigger] outs@[jj]).1) implies disc@[outs@[jj].0 as int] by {
                    if jj == j {
                        assert(outs@[jj].0 == v);
                    } else {
                        assert(d0[outs@[jj].0 as int]);
                    }
                }
                assert(queue@[0] == start);
            }
        }
    }
}

/// The targets of the edges that leave a node are nodes of the graph.
proof fn lemma_out_targets(ctx: &CollectionContext, u: usize)
    requires
        ctx.wf(),
    ensures
        forall|jj: int|
            0 <= jj < out_edges_spec(ctx.edges_view(), u).len() ==> (#[trigger] out_edges_spec(
                ctx.edges_view(),
                u,
            )[jj]).0 < ctx.nodes@.len(),
{
    let edges = ctx.edges_view();
    assert forall|jj: int|
        0 <= jj < out_edges_spec(edges, u).len() implies (#[trigger] out_edges_spec(
            edges,
            u,
        )[jj]).0 < ctx.nodes@.len() by {
        lemma_out_edges_sound(edges, u, jj);
        let k = choose|k: int|
            0 <= k < edges.len() && (#[trigger] edges[k]).0 == u && edges[k].1 == out_edges_spec(
                edges,
                u,
            )[jj].0 && edges[k].2 == out_edges_spec(edges, u)[jj].1;
    }
}

/// Once every discovered node has been processed, the discovered nodes are
/// exactly those reachable from `start`.
proof fn lemma_all_reached(
    edges: Seq<(usize, usize, CollectionEdge)>,
    start: usize,
    n: nat,
    disc: Seq<bool>,
    queue: Seq<usize>,
    t: usize,
)
    requires
        frontier_ok(edges, start, n, disc, queue),
        forall|q: int, k: int|
            0 <= q < queue.len() && 0 <= k < edges.len() && (#[trigger] edges[k]).0
                == #[trigger] queue[q] && propagates(edges[k].2) ==> disc[edges[k].1 as int],
        forall|k: int| 0 <= k < edges.len() ==> (#[trigger] edges[k]).1 < n,
        reachable(edges, start, t),
    ensures
        exists|q: int| 0 <= q < queue.len() && queue[q] == t,
{
    reveal(frontier_ok);
    assert forall|a: usize, b: usize|
        #![trigger has_prop_edge(edges, a, b), disc[a as int]]
        a < disc.len() && disc[a as int] && has_prop_edge(edges, a, b) implies b < disc.len()
            && disc[b as int] by {
        reveal(in_queue);
        assert(in_queue(queue, a as int));
        let q = choose|q: int| 0 <= q < queue.len() && queue[q] == a;
        let k = choose|k: int|
            0 <= k < edges.len() && (#[trigger] edges[k]).0 == a && edges[k].1 == b && propagates(
                edges[k].2,
            );
        assert(edges[k].0 == queue[q]);
    }
    let p = choose|p: Seq<usize>| #[trigger] is_path(edges, p) && p[0] == start && p.last() == t;
    assert(disc[queue[0] as int]);
    lemma_closed_path(edges, disc, p);
    assert(in_queue(queue, t as int));
    reveal(in_queue);
}

/// Every edge that lets visibility through and leaves one of the first `head`
/// queued nodes leads to a discovered node.
#[verifier::opaque]
pub open spec fn closed_upto(
    edges: Seq<(usize, usize, CollectionEdge)>,
    disc: Seq<bool>,
    queue: Seq<usize>,
    head: int,
) -> bool {
    forall|q: int, k: int|
        0 <= q < head && 0 <= k < edges.len() && (#[trigger] edges[k]).0 == #[trigger] queue[q]
            && propagates(edges[k].2) ==> disc[edges[k].1 as int]
}

/// `x` is the entry of one of the first `head` queued nodes.
pub open spec fn found_in_queue(
    dv: Seq<DeclarationWrapper>,
    nodes: Seq<CollectionNode>,
    queue: Seq<usize>,
    head: int,
    x: (String, DeclarationId),
) -> bool {
    exists|q: int|
        0 <= q < head && node_entry(dv, nodes[queue[q] as int]) == Some(
            Ok::<(String, DeclarationId), DeclarationError>(x),
        )
}

/// Each entry of `out` is that of one of the first `head` queued nodes.
#[verifier::opaque]
pub open spec fn out_sound(
    dv: Seq<DeclarationWrapper>,
    nodes: Seq<CollectionNode>,
    queue: Seq<usize>,
    head: int,
    out: Seq<(String, DeclarationId)>,
) -> bool {
    forall|j: int| 0 <= j < out.len() ==> found_in_queue(dv, nodes, queue, head, #[trigger] out[j])
}

/// The entry of each of the first `head` queued nodes is in `out`.
#[verifier::opaque]
pub open spec fn out_complete(
    dv: Seq<DeclarationWrapper>,
    nodes: Seq<CollectionNode>,
    queue: Seq<usize>,
    head: int,
    out: Seq<(String, DeclarationId)>,
) -> bool {
    forall|q: int|
        0 <= q < head ==> listed(out, node_entry(dv, nodes[#[trigger] queue[q] as int]))
}

/// An entry is listed in `out`: nothing to list, or a found declaration that `out` holds.
pub open spec fn listed(
    out: Seq<(String, DeclarationId)>,
    e: Option<Result<(String, DeclarationId), DeclarationError>>,
) -> bool {
    match e {
        None => true,
        Some(Ok(x)) => out.contains(x),
        Some(Err(_)) => false,
    }
}

/// `x` is the entry of a node that `start` reaches.
pub open spec fn visible_at(
    edges: Seq<(usize, usize, CollectionEdge)>,
    dv: Seq<DeclarationWrapper>,
    nodes: Seq<CollectionNode>,
    start: usize,
    x: (String, DeclarationId),
) -> bool {
    exists|t: usize|
        t < nodes.len() && reachable(edges, start, t) && node_entry(dv, nodes[t as int]) == Some(
            Ok::<(String, DeclarationId), DeclarationError>(x),
        )
}

/// Looking up the declaration of a node that `start` reaches fails with `e`.
pub open spec fn fails_at(
    edges: Seq<(usize, usize, CollectionEdge)>,
    dv: Seq<DeclarationWrapper>,
    nodes: Seq<CollectionNode>,
    start: usize,
    e: DeclarationError,
) -> bool {
    exists|t: usize|
        t < nodes.len() && reachable(edges, start, t) && node_entry(dv, nodes[t as int]) == Some(
            Err::<(String, DeclarationId), DeclarationError>(e),
        )
}

/// `out[j]` is the entry of node `src[j]`, distinct nodes for distinct entries,
/// all of them reachable from `start`.
pub open spec fn listed_once(
    edges: Seq<(usize, usize, CollectionEdge)>,
    dv: Seq<DeclarationWrapper>,
    nodes: Seq<CollectionNode>,
    start: usize,
    out: Seq<(String, DeclarationId)>,
    src: Seq<usize>,
) -> bool {
    &&& src.len() == out.len()
    &&& src.no_duplicates()
    &&& forall|j: int|
        0 <= j < src.len() ==> (#[trigger] src[j]) < nodes.len() && reachable(edges, start, src[j])
            && node_entry(dv, nodes[src[j] as int]) == Some(
            Ok::<(String, DeclarationId), DeclarationError>(out[j]),
        )
}

/// `out[j]` is the entry of the queued node at position `pos[j]`, positions
/// increasing and below `head`.
#[verifier::opaque]
pub open spec fn sourced(
    dv: Seq<DeclarationWrapper>,
    nodes: Seq<CollectionNode>,
    queue: Seq<usize>,
    head: int,
    out: Seq<(String, DeclarationId)>,
    pos: Seq<int>,
) -> bool {
    &&& pos.len() == out.len()
    &&& forall|j: int|
        0 <= j < pos.len() ==> 0 <= #[trigger] pos[j] < head && node_entry(dv, nodes[queue[pos[j]] as int])
            == Some(Ok::<(String, DeclarationId), DeclarationError>(out[j]))
    &&& forall|j: int, k: int| 0 <= j < k < pos.len() ==> #[trigger] pos[j] < #[trigger] pos[k]
}

proof fn lemma_step_sourced(
    dv: Seq<DeclarationWrapper>,
    nodes: Seq<CollectionNode>,
    q0: Seq<usize>,
    queue: Seq<usize>,
    head: int,
    out0: Seq<(String, DeclarationId)>,
    out: Seq<(String, DeclarationId)>,
    pos0: Seq<int>,
) -> (pos: Seq<int>)
    requires
        0 < head <= q0.len() <= queue.len(),
        sourced(dv, nodes, q0, head - 1, out0, pos0),
        forall|q: int| 0 <= q < q0.len() ==> (#[trigger] queue[q]) == q0[q],
        node_entry(dv, nodes[q0[head - 1] as int]) is None ==> out == out0,
        node_entry(dv, nodes[q0[head - 1] as int]) matches Some(Ok(x)) ==> out == out0.push(x),
        !(node_entry(dv, nodes[q0[head - 1] as int]) matches Some(Err(_))),
    ensures
        sourced(dv, nodes, queue, head, out, pos),
{
    reveal(sourced);
    let pos = if out.len() == out0.len() { pos0 } else { pos0.push(head - 1) };
    assert forall|j: int|
        0 <= j < pos.len() implies 0 <= #[trigger] pos[j] < head && node_entry(dv, nodes[queue[pos[j]] as int])
            == Some(Ok::<(String, DeclarationId), DeclarationError>(out[j])) by {
        if j < pos0.len() {
            assert(pos[j] == pos0[j]);
            assert(queue[pos0[j]] == q0[pos0[j]]);
            if out.len() != out0.len() {
                assert(out[j] == out0[j]);
            }
        }
    }
    assert forall|j: int, k: int| 0 <= j < k < pos.len() implies #[trigger] pos[j] < #[trigger] pos[k] by {
        if k < pos0.len() {
            assert(pos[j] == pos0[j] && pos[k] == pos0[k]);
        } else {
            assert(pos[j] == pos0[j]);
        }
    }
    pos
}

proof fn lemma_finish_once(
    edges: Seq<(usize, usize, CollectionEdge)>,
    dv: Seq<DeclarationWrapper>,
    nodes: Seq<CollectionNode>,
    start: usize,
    disc: Seq<bool>,
    queue: Seq<usize>,
    head: int,
    out: Seq<(String, DeclarationId)>,
    pos: Seq<int>,
)
    requires
        frontier_ok(edges, start, nodes.len(), disc, queue),
        0 <= head <= queue.len(),
        sourced(dv, nodes, queue, head, out, pos),
    ensures
        exists|src: Seq<usize>| #[trigger] listed_once(edges, dv, nodes, start, out, src),
{
    reveal(sourced);
    let src = Seq::new(pos.len(), |j: int| queue[pos[j]]);
    assert forall|j: int| 0 <= j < src.len() implies (#[trigger] src[j]) < nodes.len() && reachable(edges, start, src[j])
        && node_entry(dv, nodes[src[j] as int]) == Some(
            Ok::<(String, DeclarationId), DeclarationError>(out[j]),
        ) by {
        assert(0 <= pos[j] < head);
        lemma_frontier_facts(edges, start, nodes.len(), disc, queue, pos[j]);
    }
    assert forall|j: int, k: int| 0 <= j < src.len() && 0 <= k < src.len() && j != k implies src[j] != src[k] by {
        reveal(frontier_ok);
        assert(pos[j] != pos[k]) by {
            if j < k {
                assert(pos[j] < pos[k]);
            } else {
                assert(pos[k] < pos[j]);
            }
        }
        assert(0 <= pos[j] < head && 0 <= pos[k] < head);
    }
    assert(listed_once(edges, dv, nodes, start, out, src));
}

proof fn lemma_frontier_facts(
    edges: Seq<(usize, usize, CollectionEdge)>,
    start: usize,
    n: nat,
    disc: Seq<bool>,
    queue: Seq<usize>,
    q: int,
)
    requires
        frontier_ok(edges, start, n, disc, queue),
        0 <= q < queue.len(),
    ensures
        disc.len() == n,
        queue.len() <= n,
        queue[q] < n,
        reachable(edges, start, queue[q]),
        queue[0] == start,
{
    reveal(frontier_ok);
}

proof fn lemma_step_closed(
    edges: Seq<(usize, usize, CollectionEdge)>,
    n: nat,
    d0: Seq<bool>,
    q0: Seq<usize>,
    disc: Seq<bool>,
    queue: Seq<usize>,
    head: int,
    outs: Seq<(usize, CollectionEdge)>,
)
    requires
        0 < head <= q0.len() <= queue.len(),
        d0.len() == n,
        closed_upto(edges, d0, q0, head - 1),
        outs == out_edges_spec(edges, q0[head - 1]),
        forall|jj: int|
            0 <= jj < outs.len() && propagates((#[trigger] outs[jj]).1) ==> disc[outs[jj].0 as int],
        forall|q: int| 0 <= q < q0.len() ==> (#[trigger] queue[q]) == q0[q],
        forall|w: int| 0 <= w < n && d0[w] ==> #[trigger] disc[w],
        forall|k: int| 0 <= k < edges.len() ==> (#[trigger] edges[k]).1 < n,
    ensures
        closed_upto(edges, disc, queue, head),
{
    reveal(closed_upto);
    let u = q0[head - 1];
    assert forall|q: int, k: int|
        0 <= q < head && 0 <= k < edges.len() && (#[trigger] edges[k]).0 == #[trigger] queue[q]
            && propagates(edges[k].2) implies disc[edges[k].1 as int] by {
        assert(queue[q] == q0[q]);
        if q == head - 1 {
            lemma_out_edges_complete(edges, u, k);
            let jj = choose|jj: int| 0 <= jj < outs.len() && outs[jj] == (edges[k].1, edges[k].2);
            assert(propagates(outs[jj].1));
        } else {
            assert(d0[edges[k].1 as int]);
        }
    }
}

proof fn lemma_step_out_complete(
    dv: Seq<DeclarationWrapper>,
    nodes: Seq<CollectionNode>,
    q0: Seq<usize>,
    queue: Seq<usize>,
    head: int,
    out0: Seq<(String, DeclarationId)>,
    out: Seq<(String, DeclarationId)>,
)
    requires
        0 < head <= q0.len() <= queue.len(),
        out_complete(dv, nodes, q0, head - 1, out0),
        forall|q: int| 0 <= q < q0.len() ==> (#[trigger] queue[q]) == q0[q],
        node_entry(dv, nodes[q0[head - 1] as int]) is None ==> out == out0,
        node_entry(dv, nodes[q0[head - 1] as int]) matches Some(Ok(x)) ==> out == out0.push(x),
        !(node_entry(dv, nodes[q0[head - 1] as int]) matches Some(Err(_))),
    ensures
        out_complete(dv, nodes, queue, head, out),
{
    reveal(out_complete);
    assert forall|q: int| 0 <= q < head implies listed(
        out,
        node_entry(dv, nodes[#[trigger] queue[q] as int]),
    ) by {
        assert(queue[q] == q0[q]);
        if q == head - 1 {
            if let Some(Ok(x)) = node_entry(dv, nodes[q0[q] as int]) {
                assert(out[out.len() - 1] == x);
            }
        } else {
            assert(listed(out0, node_entry(dv, nodes[q0[q] as int])));
            if let Some(Ok(x)) = node_entry(dv, nodes[q0[q] as int]) {
                let jo = choose|jo: int| 0 <= jo < out0.len() && out0[jo] == x;
                assert(out[jo] == out0[jo]);
            }
        }
    }
}

proof fn lemma_step_out_sound(
    dv: Seq<DeclarationWrapper>,
    nodes: Seq<CollectionNode>,
    q0: Seq<usize>,
    queue: Seq<usize>,
    head: int,
    out0: Seq<(String, DeclarationId)>,
    out: Seq<(String, DeclarationId)>,
)
    requires
        0 < head <= q0.len() <= queue.len(),
        out_sound(dv, nodes, q0, head - 1, out0),
        forall|q: int| 0 <= q < q0.len() ==> (#[trigger] queue[q]) == q0[q],
        node_entry(dv, nodes[q0[head - 1] as int]) is None ==> out == out0,
        node_entry(dv, nodes[q0[head - 1] as int]) matches Some(Ok(x)) ==> out == out0.push(x),
        !(node_entry(dv, nodes[q0[head - 1] as int]) matches Some(Err(_))),
    ensures
        out_sound(dv, nodes, queue, head, out),
{
    reveal(out_sound);
    assert forall|jo: int| 0 <= jo < out.len() implies found_in_queue(
        dv,
        nodes,
        queue,
        head,
        #[trigger] out[jo],
    ) by {
        if jo < out0.len() {
            assert(out[jo] == out0[jo]);
            assert(found_in_queue(dv, nodes, q0, head - 1, out0[jo]));
            let q = choose|q: int|
                0 <= q < head - 1 && node_entry(dv, nodes[q0[q] as int]) == Some(
                    Ok::<(String, DeclarationId), DeclarationError>(out0[jo]),
                );
            assert(queue[q] == q0[q]);
        } else {
            assert(queue[head - 1] == q0[head - 1]);
            assert(node_entry(dv, nodes[queue[head - 1] as int]) == Some(
                Ok::<(String, DeclarationId), DeclarationError>(out[jo])));
        }
    }
}

proof fn lemma_finish(
    edges: Seq<(usize, usize, CollectionEdge)>,
    dv: Seq<DeclarationWrapper>,
    nodes: Seq<CollectionNode>,
    start: usize,
    disc: Seq<bool>,
    queue: Seq<usize>,
    out: Seq<(String, DeclarationId)>,
)
    requires
        frontier_ok(edges, start, nodes.len(), disc, queue),
        closed_upto(edges, disc, queue, queue.len() as int),
        out_sound(dv, nodes, queue, queue.len() as int, out),
        out_complete(dv, nodes, queue, queue.len() as int, out),
        forall|k: int| 0 <= k < edges.len() ==> (#[trigger] edges[k]).1 < nodes.len(),
    ensures
        forall|j: int| 0 <= j < out.len() ==> visible_at(edges, dv, nodes, start, #[trigger] out[j]),
        forall|t: usize|
            t < nodes.len() && reachable(edges, start, t) ==> listed(
                out,
                node_entry(dv, #[trigger] nodes[t as int]),
            ),
{
    reveal(closed_upto);
    reveal(out_complete);
    assert forall|t: usize| t < nodes.len() && reachable(edges, start, t) implies listed(
        out,
        node_entry(dv, #[trigger] nodes[t as int]),
    ) by {
        lemma_all_reached(edges, start, nodes.len(), disc, queue, t);
        let q = choose|q: int| 0 <= q < queue.len() && queue[q] == t;
        assert(listed(out, node_entry(dv, nodes[queue[q] as int])));
    }
    lemma_finish_sound(edges, dv, nodes, start, disc, queue, out);
}

proof fn lemma_finish_sound(
    edges: Seq<(usize, usize, CollectionEdge)>,
    dv: Seq<DeclarationWrapper>,
    nodes: Seq<CollectionNode>,
    start: usize,
    disc: Seq<bool>,
    queue: Seq<usize>,
    out: Seq<(String, DeclarationId)>,
)
    requires
        frontier_ok(edges, start, nodes.len(), disc, queue),
        out_sound(dv, nodes, queue, queue.len() as int, out),
    ensures
        forall|j: int| 0 <= j < out.len() ==> visible_at(edges, dv, nodes, start, #[trigger] out[j]),
{
    reveal(out_sound);
    assert forall|j: int| 0 <= j < out.len() implies visible_at(
        edges,
        dv,
        nodes,
        start,
        #[trigger] out[j],
    ) by {
        assert(found_in_queue(dv, nodes, queue, queue.len() as int, out[j]));
        let q = choose|q: int|
            0 <= q < queue.len() && node_entry(dv, nodes[queue[q] as int]) == Some(
                Ok::<(String, DeclarationId), DeclarationError>(out[j]),
            );
        lemma_frontier_facts(edges, start, nodes.len(), disc, queue, q);
        let t = queue[q];
        assert(t < nodes.len() && reachable(edges, start, t) && node_entry(dv, nodes[t as int])
            == Some(Ok::<(String, DeclarationId), DeclarationError>(out[j])));
    }
}

/// A node that no visibility edge enters is visible from no other node: program
/// and file edges alone never make a declaration visible.
pub proof fn visibility_firewall(edges: Seq<(usize, usize, CollectionEdge)>, start: usize, t: usize)
    requires
        t != start,
        forall|k: int| 0 <= k < edges.len() && (#[trigger] edges[k]).1 == t ==> !propagates(edges[k].2),
    ensures
        !reachable(edges, start, t),
{
    if reachable(edges, start, t) {
        let p = choose|p: Seq<usize>| #[trigger] is_path(edges, p) && p[0] == start && p.last() == t;
        let i = p.len() - 2;
        assert(has_prop_edge(edges, p[i], p[i + 1]));
    }
}

/// A declaration inside a scope that another scope shares is visible from that
/// other scope.
pub proof fn shared_scope_visibility(
    edges: Seq<(usize, usize, CollectionEdge)>,
    scope: usize,
    shared: usize,
    inner: usize,
    k1: int,
    k2: int,
)
    requires
        0 <= k1 < edges.len(),
        0 <= k2 < edges.len(),
        edges[k1] == (scope, shared, CollectionEdge::SharedScope),
        edges[k2] == (shared, inner, CollectionEdge::DeclarationContents),
    ensures
        reachable(edges, scope, inner),
{
    assert(has_prop_edge(edges, scope, shared));
    assert(has_prop_edge(edges, shared, inner));
    lemma_reachable_self(edges, scope);
    lemma_reachable_step(edges, scope, scope, shared);
    lemma_reachable_step(edges, scope, shared, inner);
}

/// The declarations visible from `start`: those at the nodes that `start` reaches
/// along edges that let visibility through, `start` included, taken breadth first
/// and, within a node, in the order its edges were added. A declaration that
/// cannot be looked up fails the whole traversal.
#[verifier::rlimit(50)]
pub fn visible_declarations(
    ctx: &CollectionContext,
    decls: &DeclarationEngine,
    start: CollectionIndex,
) -> (r: Result<Vec<(String, DeclarationId)>, DeclarationError>)
    requires
        ctx.wf(),
        start.index < ctx.nodes@.len(),
    ensures
        r matches Ok(v) ==> forall|j: int|
            0 <= j < v@.len() ==> visible_at(
                ctx.edges_view(),
                decls.view(),
                ctx.nodes@,
                start.index,
                #[trigger] v@[j],
            ),
        r matches Ok(v) ==> forall|t: usize|
            t < ctx.nodes@.len() && reachable(ctx.edges_view(), start.index, t) ==> listed(
                v@,
                node_entry(decls.view(), #[trigger] ctx.nodes@[t as int]),
            ),
        r matches Ok(v) ==> v@.len() <= ctx.nodes@.len(),
        r is Ok ==> exists|k: nat|
            #[trigger] bfs_ends_at(ctx.edges_view(), ctx.nodes@.len(), start.index, k) && r->Ok_0@
                == bfs_listing(ctx.edges_view(), decls.view(), ctx.nodes@, start.index, k),
        r is Ok ==> exists|src: Seq<usize>| #[trigger] listed_once(
            ctx.edges_view(),
            decls.view(),
            ctx.nodes@,
            start.index,
            r->Ok_0@,
            src,
        ),
        r matches Err(e) ==> fails_at(ctx.edges_view(), decls.view(), ctx.nodes@, start.index, e),
{
    let ghost edges = ctx.edges_view();
    let ghost dv = decls.view();
    let n = ctx.nodes.len();
    let mut disc: Vec<bool> = Vec::new();
    let mut i: usize = 0;
    while i < n
        invariant
            i <= n,
            disc@.len() == i,
            forall|k: int| 0 <= k < i ==> !(#[trigger] disc@[k]),
        decreases n - i,
    {
        disc.push(false);
        i = i + 1;
    }
    disc.set(start.index, true);
    let mut queue: Vec<usize> = Vec::new();
    queue.push(start.index);
    proof {
        lemma_reachable_self(edges, start.index);
        reveal(frontier_ok);
        reveal(in_queue);
        assert forall|u: int| 0 <= u < n && #[trigger] disc@[u] implies in_queue(queue@, u) by {
            assert(u == start.index);
            assert(queue@[0] == u);
        }
        assert(frontier_ok(edges, start.index, n as nat, disc@, queue@));
        reveal(closed_upto);
        reveal(out_sound);
        reveal(out_complete);
        reveal(sourced);
        assert(disc@ =~= Seq::new(n as nat, |i: int| i == start.index));
        assert(queue@ =~= seq![start.index]);
    }
    let ghost mut pos: Seq<int> = Seq::empty();
    assert(Seq::<(String, DeclarationId)>::empty() =~= entries_upto(dv, ctx.nodes@, queue@, 0));
    let mut head: usize = 0;
    let mut out: Vec<(String, DeclarationId)> = Vec::new();
    while head < queue.len()
        invariant
            ctx.wf(),
            n == ctx.nodes@.len(),
            edges == ctx.edges_view(),
            dv == decls.view(),
            frontier_ok(edges, start.index, n as nat, disc@, queue@),
            head <= queue@.len(),
            out@.len() <= head,
            closed_upto(edges, disc@, queue@, head as int),
            out_sound(dv, ctx.nodes@, queue@, head as int, out@),
            out_complete(dv, ctx.nodes@, queue@, head as int, out@),
            sourced(dv, ctx.nodes@, queue@, head as int, out@, pos),
            (disc@, queue@) == bfs(edges, n as nat, start.index, head as nat),
            forall|j: nat| j < head ==> (#[trigger] bfs(edges, n as nat, start.index, j)).1.len() > j,
            out@ == entries_upto(dv, ctx.nodes@, queue@, head as int),
        decreases n - head, n - queue@.len(),
    {
        proof {
            lemma_frontier_facts(edges, start.index, n as nat, disc@, queue@, head as int);
        }
        let u = queue[head];
        let ghost out0 = out@;
        match entry_of(decls, &ctx.nodes[u]) {
            None => {},
            Some(Err(e)) => {
                assert(node_entry(dv, ctx.nodes@[u as int]) == Some(
                    Err::<(String, DeclarationId), DeclarationError>(e)));
                return Err(e);
            },
            Some(Ok(x)) => {
                out.push(x);
            },
        }
        head = head + 1;
        let outs = ctx.out_edges(CollectionIndex { index: u });
        let ghost q0 = queue@;
        let ghost d0 = disc@;
        proof {
            lemma_out_targets(ctx, u);
            lemma_frontier_facts(edges, start.index, n as nat, disc@, queue@, 0);
        }
        enqueue_targets(&mut disc, &mut queue, &outs, Ghost(edges), Ghost(start.index), Ghost(n as nat), u);
        proof {
            lemma_step_closed(edges, n as nat, d0, q0, disc@, queue@, head as int, outs@);
            lemma_step_out_sound(dv, ctx.nodes@, q0, queue@, head as int, out0, out@);
            lemma_step_out_complete(dv, ctx.nodes@, q0, queue@, head as int, out0, out@);
            pos = lemma_step_sourced(dv, ctx.nodes@, q0, queue@, head as int, out0, out@, pos);
            assert(bfs(edges, n as nat, start.index, head as nat) == enqueue_spec(d0, q0, outs@, 0));
            assert((disc@, queue@) == enqueue_spec(d0, q0, outs@, 0));
            assert((disc@, queue@) == bfs(edges, n as nat, start.index, head as nat));
            assert forall|j: nat| j < head implies (#[trigger] bfs(edges, n as nat, start.index, j)).1.len() > j by {
                if j == head - 1 {
                    assert(bfs(edges, n as nat, start.index, j) == (d0, q0));
                }
            }
            assert(out@ =~= entries_upto(dv, ctx.nodes@, q0, head as int));
            lemma_entries_prefix(dv, ctx.nodes@, q0, queue@, head as int);
            lemma_frontier_facts(edges, start.index, n as nat, disc@, queue@, 0);
        }
    }
    proof {
        lemma_finish(edges, dv, ctx.nodes@, start.index, disc@, queue@, out@);
        lemma_finish_once(edges, dv, ctx.nodes@, start.index, disc@, queue@, head as int, out@, pos);
        lemma_frontier_facts(edges, start.index, n as nat, disc@, queue@, 0);
    }
    let ghost src = choose|src: Seq<usize>| #[trigger] listed_once(edges, dv, ctx.nodes@, start.index, out@, src);
    let ghost out_v = out@;
    let ghost k = head as nat;
    proof {
        assert(bfs_ends_at(edges, n as nat, start.index, k));
        assert(out_v == bfs_listing(edges, dv, ctx.nodes@, start.index, k));
    }
    let res: Result<Vec<(String, DeclarationId)>, DeclarationError> = Ok(out);
    proof {
        assert(res->Ok_0@ == out_v);
        assert(listed_once(ctx.edges_view(), decls.view(), ctx.nodes@, start.index, res->Ok_0@, src));
        assert(bfs_ends_at(ctx.edges_view(), ctx.nodes@.len(), start.index, k) && res->Ok_0@
            == bfs_listing(ctx.edges_view(), decls.view(), ctx.nodes@, start.index, k));
    }
    res
}

} // verus!
