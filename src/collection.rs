use vstd::prelude::*;
use petgraph::graph::NodeIndex;
use petgraph::visit::EdgeRef;
use petgraph::Direction;
use crate::type_system::{DeclarationId, TypeId};
use crate::typed::{node_rel, TyNode, TypeMapping};

verus! {

#[verifier::external_type_specification]
#[verifier::external_body]
#[verifier::reject_recursive_types(N)]
#[verifier::reject_recursive_types(E)]
#[verifier::reject_recursive_types(Ty)]
#[verifier::reject_recursive_types(Ix)]
pub struct ExGraph<N, E, Ty, Ix>(petgraph::Graph<N, E, Ty, Ix>);

#[verifier::external_type_specification]
#[verifier::external_body]
pub struct ExDirected(petgraph::Directed);

/// How two nodes of the collection graph relate.
#[derive(Clone, Copy, PartialEq, Eq, Structural, Debug)]
pub enum CollectionEdge {
    /// The program to one of its files.
    ApplicationContents,
    /// A file to one of its top-level nodes.
    FileContents,
    /// The declarations of one scope are visible in another.
    SharedScope,
    /// A composite node to one of its children.
    NodeContents,
    /// A declaration to one of its inner declarations.
    DeclarationContents,
    /// A scope to a scope nested in it.
    ScopedChild,
}

/// Whether visibility flows along an edge of this kind. Program and file edges
/// do not: they keep compilation units apart.
pub open spec fn propagates(e: CollectionEdge) -> bool {
    !(e is ApplicationContents || e is FileContents)
}

impl CollectionEdge {
    pub fn is_propagating(&self) -> (r: bool)
        ensures
            r == propagates(*self),
    {
        match self {
            CollectionEdge::ApplicationContents => false,
            CollectionEdge::FileContents => false,
            CollectionEdge::SharedScope => true,
            CollectionEdge::NodeContents => true,
            CollectionEdge::DeclarationContents => true,
            CollectionEdge::ScopedChild => true,
        }
    }
}

/// The number of nodes of an edge store.
pub uninterp spec fn store_node_count(g: petgraph::Graph<(), CollectionEdge>) -> nat;

/// The edges of an edge store, (source, target, kind), in the order they were added.
pub uninterp spec fn store_edges(g: petgraph::Graph<(), CollectionEdge>) -> Seq<(usize, usize, CollectionEdge)>;

/// The edges that leave `a`, as (target, kind), the most recently added first.
pub open spec fn out_edges_spec(edges: Seq<(usize, usize, CollectionEdge)>, a: usize) -> Seq<
    (usize, CollectionEdge),
>
    decreases edges.len(),
{
    if edges.len() == 0 {
        Seq::empty()
    } else {
        let e = edges.last();
        let rest = out_edges_spec(edges.drop_last(), a);
        if e.0 == a {
            seq![(e.1, e.2)] + rest
        } else {
            rest
        }
    }
}

/// Relies on petgraph's `Graph::new`: a graph with no nodes and no edges.
#[verifier::external_body]
fn store_new() -> (r: petgraph::Graph<(), CollectionEdge>)
    ensures
        store_node_count(r) == 0,
        store_edges(r) == Seq::<(usize, usize, CollectionEdge)>::empty(),
{
    petgraph::Graph::new()
}

/// Relies on petgraph's `Graph::add_node`: the new node's index is the former
/// node count; edges are untouched. It panics only at the `u32` index limit.
#[verifier::external_body]
fn store_add_node(g: &mut petgraph::Graph<(), CollectionEdge>) -> (r: usize)
    requires
        store_node_count(*old(g)) < u32::MAX,
    ensures
        r == store_node_count(*old(g)),
        store_node_count(*final(g)) == store_node_count(*old(g)) + 1,
        store_edges(*final(g)) == store_edges(*old(g)),
{
    g.add_node(()).index()
}

/// Relies on petgraph's `Graph::add_edge`: the edge is appended; it panics only
/// on an unknown node or at the `u32` index limit.
#[verifier::external_body]
fn store_add_edge(g: &mut petgraph::Graph<(), CollectionEdge>, a: usize, b: usize, kind: CollectionEdge)
    requires
        a < store_node_count(*old(g)),
        b < store_node_count(*old(g)),
        store_edges(*old(g)).len() < u32::MAX,
    ensures
        store_node_count(*final(g)) == store_node_count(*old(g)),
        store_edges(*final(g)) == store_edges(*old(g)).push((a, b, kind)),
{
    g.add_edge(NodeIndex::new(a), NodeIndex::new(b), kind);
}

/// Relies on petgraph's `Graph::edges_directed` with `Outgoing`: on a directed
/// graph it walks the edges that leave `a`, the most recently added first.
#[verifier::external_body]
fn store_out_edges(g: &petgraph::Graph<(), CollectionEdge>, a: usize) -> (r: Vec<(usize, CollectionEdge)>)
    requires
        a < store_node_count(*g),
    ensures
        r@ == out_edges_spec(store_edges(*g), a),
{
    g.edges_directed(NodeIndex::new(a), Direction::Outgoing).map(|e| (e.target().index(), *e.weight())).collect()
}

/// Handle of a node of the collection graph.
#[derive(Clone, Copy, PartialEq, Eq, Structural, Debug, Hash)]
pub struct CollectionIndex {
    pub index: usize,
}

/// A node of the collection graph.
#[derive(Debug)]
pub enum CollectionNode {
    Application,
    File { name: String },
    Node(TyNode),
    /// A generic declaration with the instances made of it so far, each under
    /// the type arguments it was made for.
    Instances { generic: DeclarationId, instances: Vec<(Vec<TypeId>, DeclarationId)> },
}

/// The program: one graph node per file.
pub struct TyApplication {
    pub files: Vec<CollectionIndex>,
}

/// A file: its top-level graph nodes.
pub struct TyFile {
    pub name: String,
    pub nodes: Vec<CollectionIndex>,
}

/// Some handle of `at` is node `k`.
pub open spec fn in_list(at: Seq<CollectionIndex>, k: int) -> bool {
    exists|j: int| 0 <= j < at.len() && (#[trigger] at[j]).index == k
}

/// `b` is `a` with the type handles of a syntax node substituted by `f`; any other
/// kind of node stays as it is.
pub open spec fn substituted(a: CollectionNode, b: CollectionNode, f: spec_fn(TypeId) -> TypeId) -> bool {
    match a {
        CollectionNode::Node(n) => b matches CollectionNode::Node(n2) && node_rel(n, n2, f),
        _ => b == a,
    }
}

/// Node `k` is reached from one of `files` by a file edge.
pub open spec fn in_files(edges: Seq<(usize, usize, CollectionEdge)>, files: Seq<CollectionIndex>, k: int) -> bool {
    exists|e: int|
        0 <= e < edges.len() && (#[trigger] edges[e]).1 == k && edges[e].2 == CollectionEdge::FileContents
            && in_list(files, edges[e].0 as int)
}

impl TyFile {
    /// Substitutes the type handles of the file's top-level syntax nodes by `m`,
    /// each node once.
    pub fn copy_types(&self, ctx: &mut CollectionContext, m: &TypeMapping)
        requires
            old(ctx).wf(),
            forall|i: int| 0 <= i < self.nodes@.len() ==> (#[trigger] self.nodes@[i]).index < old(ctx).nodes@.len(),
        ensures
            final(ctx).wf(),
            final(ctx).edges_view() == old(ctx).edges_view(),
            final(ctx).nodes@.len() == old(ctx).nodes@.len(),
            forall|k: int|
                0 <= k < old(ctx).nodes@.len() && in_list(self.nodes@, k) ==> substituted(
                    old(ctx).nodes@[k],
                    #[trigger] final(ctx).nodes@[k],
                    m.as_fn(),
                ),
            forall|k: int|
                0 <= k < old(ctx).nodes@.len() && !in_list(self.nodes@, k) ==> #[trigger] final(ctx).nodes@[k]
                    == old(ctx).nodes@[k],
    {
        copy_types_all(&self.nodes, ctx, m);
    }
}

impl TyApplication {
    /// Substitutes by `m` the type handles of the syntax nodes that the files
    /// hold by file edges, each node once.
    pub fn copy_types(&self, ctx: &mut CollectionContext, m: &TypeMapping)
        requires
            old(ctx).wf(),
            forall|i: int| 0 <= i < self.files@.len() ==> (#[trigger] self.files@[i]).index < old(ctx).nodes@.len(),
        ensures
            final(ctx).wf(),
            final(ctx).edges_view() == old(ctx).edges_view(),
            final(ctx).nodes@.len() == old(ctx).nodes@.len(),
            forall|k: int|
                0 <= k < old(ctx).nodes@.len() && in_files(old(ctx).edges_view(), self.files@, k) ==> substituted(
                    old(ctx).nodes@[k],
                    #[trigger] final(ctx).nodes@[k],
                    m.as_fn(),
                ),
            forall|k: int|
                0 <= k < old(ctx).nodes@.len() && !in_files(old(ctx).edges_view(), self.files@, k) ==> #[trigger] final(ctx).nodes@[k]
                    == old(ctx).nodes@[k],
    {
        let ghost edges = ctx.edges_view();
        let mut targets: Vec<CollectionIndex> = Vec::new();
        let mut j: usize = 0;
        while j < self.files.len()
            invariant
                ctx.wf(),
                edges == ctx.edges_view(),
                j <= self.files@.len(),
                forall|i: int| 0 <= i < self.files@.len() ==> (#[trigger] self.files@[i]).index < ctx.nodes@.len(),
                forall|k: int| in_list(targets@, k) ==> in_files(edges, self.files@, k),
                forall|k: int| 0 <= k < targets@.len() ==> (#[trigger] targets@[k]).index < ctx.nodes@.len(),
                forall|e: int|
                    0 <= e < edges.len() && (#[trigger] edges[e]).2 == CollectionEdge::FileContents
                        && in_list(self.files@.subrange(0, j as int), edges[e].0 as int) ==> in_list(targets@, edges[e].1 as int),
            decreases self.files.len() - j,
        {
            let f = self.files[j];
            let outs = ctx.out_edges(f);
            let ghost t0 = targets@;
            let mut q: usize = 0;
            while q < outs.len()
                invariant
                    ctx.wf(),
                    edges == ctx.edges_view(),
                    j < self.files@.len(),
                    f == self.files@[j as int],
                    f.index < ctx.nodes@.len(),
                    outs@ == crate::collection::out_edges_spec(edges, f.index),
                    q <= outs@.len(),
                    t0.is_prefix_of(targets@),
                    forall|k: int| in_list(targets@, k) ==> in_files(edges, self.files@, k),
                    forall|k: int| 0 <= k < targets@.len() ==> (#[trigger] targets@[k]).index < ctx.nodes@.len(),
                    forall|qq: int|
                        0 <= qq < q && (#[trigger] outs@[qq]).1 == CollectionEdge::FileContents ==> in_list(targets@, outs@[qq].0 as int),
                decreases outs.len() - q,
            {
                let (t, kind) = outs[q];
                proof {
                    crate::visibility::lemma_out_edges_sound(edges, f.index, q as int);
                }
                if kind == CollectionEdge::FileContents {
                    let ghost before = targets@;
                    targets.push(CollectionIndex { index: t });
                    proof {
                        let e = choose|e: int|
                            0 <= e < edges.len() && (#[trigger] edges[e]).0 == f.index && edges[e].1 == outs@[q as int].0
                                && edges[e].2 == outs@[q as int].1;
                        assert(self.files@[j as int].index == f.index);
                        assert(in_list(self.files@, edges[e].0 as int));
                        assert(in_files(edges, self.files@, t as int));
                        assert forall|k: int| in_list(targets@, k) implies in_files(edges, self.files@, k) by {
                            let jj = choose|jj: int| 0 <= jj < targets@.len() && (#[trigger] targets@[jj]).index == k;
                            if jj < before.len() {
                                assert(before[jj] == targets@[jj]);
                                assert(in_list(before, k));
                            }
                        }
                        assert forall|qq: int|
                            0 <= qq < q + 1 && (#[trigger] outs@[qq]).1 == CollectionEdge::FileContents implies in_list(targets@, outs@[qq].0 as int) by {
                            if qq < q {
                                let jj = choose|jj: int| 0 <= jj < before.len() && (#[trigger] before[jj]).index == outs@[qq].0 as int;
                                assert(targets@[jj] == before[jj]);
                            } else {
                                assert(targets@[targets@.len() - 1].index == t);
                            }
                        }
                        assert(t0 =~= targets@.subrange(0, t0.len() as int)) by {
                            assert(t0 =~= before.subrange(0, t0.len() as int));
                        }
                    }
                }
                q = q + 1;
            }
            proof {
                assert forall|e: int|
                    0 <= e < edges.len() && (#[trigger] edges[e]).2 == CollectionEdge::FileContents
                        && in_list(self.files@.subrange(0, j + 1), edges[e].0 as int) implies in_list(targets@, edges[e].1 as int) by {
                    let i = choose|i: int| 0 <= i < j + 1 && (#[trigger] self.files@.subrange(0, j + 1)[i]).index == edges[e].0 as int;
                    if i < j {
                        assert(self.files@.subrange(0, j as int)[i] == self.files@.subrange(0, j + 1)[i]);
                        assert(in_list(self.files@.subrange(0, j as int), edges[e].0 as int));
                        assert(in_list(t0, edges[e].1 as int));
                        let jj = choose|jj: int| 0 <= jj < t0.len() && (#[trigger] t0[jj]).index == edges[e].1 as int;
                        assert(targets@[jj] == t0[jj]);
                    } else {
                        crate::visibility::lemma_out_edges_complete(edges, f.index, e);
                        let qq = choose|qq: int| 0 <= qq < outs@.len() && outs@[qq] == (edges[e].1, edges[e].2);
                        assert(outs@[qq].1 == CollectionEdge::FileContents);
                    }
                }
            }
            j = j + 1;
        }
        proof {
            assert(self.files@.subrange(0, self.files@.len() as int) =~= self.files@);
            assert forall|k: int| in_files(edges, self.files@, k) implies in_list(targets@, k) by {
                let e = choose|e: int|
                    0 <= e < edges.len() && (#[trigger] edges[e]).1 == k && edges[e].2 == CollectionEdge::FileContents
                        && in_list(self.files@, edges[e].0 as int);
            }
        }
        copy_types_all(&targets, ctx, m);
    }
}

fn copy_types_all(at: &Vec<CollectionIndex>, ctx: &mut CollectionContext, m: &TypeMapping)
    requires
        old(ctx).wf(),
        forall|i: int| 0 <= i < at@.len() ==> (#[trigger] at@[i]).index < old(ctx).nodes@.len(),
    ensures
        final(ctx).wf(),
        final(ctx).edges_view() == old(ctx).edges_view(),
        final(ctx).nodes@.len() == old(ctx).nodes@.len(),
        forall|k: int|
            0 <= k < old(ctx).nodes@.len() && in_list(at@, k) ==> substituted(
                old(ctx).nodes@[k],
                #[trigger] final(ctx).nodes@[k],
                m.as_fn(),
            ),
        forall|k: int|
            0 <= k < old(ctx).nodes@.len() && !in_list(at@, k) ==> #[trigger] final(ctx).nodes@[k]
                == old(ctx).nodes@[k],
{
    let mut i: usize = 0;
    while i < at.len()
        invariant
            i <= at@.len(),
            ctx.wf(),
            ctx.edges_view() == old(ctx).edges_view(),
            ctx.nodes@.len() == old(ctx).nodes@.len(),
            forall|j: int| 0 <= j < at@.len() ==> (#[trigger] at@[j]).index < old(ctx).nodes@.len(),
            forall|k: int|
                0 <= k < old(ctx).nodes@.len() && in_list(at@.subrange(0, i as int), k) ==> substituted(
                    old(ctx).nodes@[k],
                    #[trigger] ctx.nodes@[k],
                    m.as_fn(),
                ),
            forall|k: int|
                0 <= k < old(ctx).nodes@.len() && !in_list(at@.subrange(0, i as int), k) ==> #[trigger] ctx.nodes@[k]
                    == old(ctx).nodes@[k],
        decreases at.len() - i,
    {
        let mut seen = false;
        let mut j: usize = 0;
        while j < i
            invariant
                j <= i < at@.len(),
                seen == in_list(at@.subrange(0, j as int), at@[i as int].index as int),
            decreases i - j,
        {
            proof {
                assert forall|k: int| in_list(at@.subrange(0, j + 1), k) == (in_list(at@.subrange(0, j as int), k) || at@[j as int].index == k) by {
                    if in_list(at@.subrange(0, j + 1), k) {
                        let jj = choose|jj: int| 0 <= jj < j + 1 && (#[trigger] at@.subrange(0, j + 1)[jj]).index == k;
                        if jj < j {
                            assert(at@.subrange(0, j as int)[jj] == at@.subrange(0, j + 1)[jj]);
                        }
                    }
                    if in_list(at@.subrange(0, j as int), k) {
                        let jj = choose|jj: int| 0 <= jj < j && (#[trigger] at@.subrange(0, j as int)[jj]).index == k;
                        assert(at@.subrange(0, j as int)[jj] == at@.subrange(0, j + 1)[jj]);
                    }
                    if at@[j as int].index == k {
                        assert(at@.subrange(0, j + 1)[j as int] == at@[j as int]);
                    }
                }
            }
            if at[j].index == at[i].index {
                seen = true;
            }
            j = j + 1;
        }
        let ghost before = ctx.nodes@;
        proof {
            assert forall|k: int| in_list(at@.subrange(0, i + 1), k) == (in_list(at@.subrange(0, i as int), k) || at@[i as int].index == k) by {
                if in_list(at@.subrange(0, i + 1), k) {
                    let jj = choose|jj: int| 0 <= jj < i + 1 && (#[trigger] at@.subrange(0, i + 1)[jj]).index == k;
                    if jj < i {
                        assert(at@.subrange(0, i as int)[jj] == at@.subrange(0, i + 1)[jj]);
                    }
                }
                if in_list(at@.subrange(0, i as int), k) {
                    let jj = choose|jj: int| 0 <= jj < i && (#[trigger] at@.subrange(0, i as int)[jj]).index == k;
                    assert(at@.subrange(0, i as int)[jj] == at@.subrange(0, i + 1)[jj]);
                }
                if at@[i as int].index == k {
                    assert(at@.subrange(0, i + 1)[i as int] == at@[i as int]);
                }
            }
        }
        if !seen {
            ctx.copy_types_at(at[i], m);
            proof {
                assert forall|k: int|
                    0 <= k < old(ctx).nodes@.len() && in_list(at@.subrange(0, i + 1), k) implies substituted(
                        old(ctx).nodes@[k],
                        #[trigger] ctx.nodes@[k],
                        m.as_fn(),
                    ) by {
                    if k != at@[i as int].index {
                        assert(ctx.nodes@[k] == before[k]);
                    } else {
                        assert(before[k] == old(ctx).nodes@[k]);
                    }
                }
            }
        }
        i = i + 1;
    }
    proof {
        assert(at@.subrange(0, at@.len() as int) =~= at@);
    }
}

/// The collection graph: nodes in an arena, edges in petgraph's graph, which
/// numbers its nodes as the arena does.
pub struct CollectionContext {
    pub nodes: Vec<CollectionNode>,
    pub edges: petgraph::Graph<(), CollectionEdge>,
}

impl CollectionContext {
    pub open spec fn edges_view(&self) -> Seq<(usize, usize, CollectionEdge)> {
        store_edges(self.edges)
    }

    pub open spec fn wf(&self) -> bool {
        &&& store_node_count(self.edges) == self.nodes@.len()
        &&& forall|k: int|
            0 <= k < self.edges_view().len() ==> (#[trigger] self.edges_view()[k]).0
                < self.nodes@.len() && self.edges_view()[k].1 < self.nodes@.len()
    }

    pub fn new() -> (r: CollectionContext)
        ensures
            r.wf(),
            r.nodes@.len() == 0,
            r.edges_view().len() == 0,
    {
        CollectionContext { nodes: Vec::new(), edges: store_new() }
    }

    pub fn add_node(&mut self, node: CollectionNode) -> (r: CollectionIndex)
        requires
            old(self).wf(),
            old(self).nodes@.len() < u32::MAX,
        ensures
            final(self).wf(),
            r.index == old(self).nodes@.len(),
            final(self).nodes@ == old(self).nodes@.push(node),
            final(self).edges_view() == old(self).edges_view(),
    {
        let i = store_add_node(&mut self.edges);
        self.nodes.push(node);
        assert forall|k: int| 0 <= k < self.edges_view().len() implies (
        #[trigger] self.edges_view()[k]).0 < self.nodes@.len() && self.edges_view()[k].1
            < self.nodes@.len() by {
            assert(old(self).edges_view()[k] == self.edges_view()[k]);
        }
        CollectionIndex { index: i }
    }

    /// The edges that leave `from`, as (target, kind), the most recently added first.
    pub fn out_edges(&self, from: CollectionIndex) -> (r: Vec<(usize, CollectionEdge)>)
        requires
            self.wf(),
            from.index < self.nodes@.len(),
        ensures
            r@ == out_edges_spec(self.edges_view(), from.index),
    {
        store_out_edges(&self.edges, from.index)
    }

    /// Substitutes the type handles of the syntax node at `at` by `m`, in place;
    /// other kinds of node are left as they are.
    pub fn copy_types_at(&mut self, at: CollectionIndex, m: &TypeMapping)
        requires
            old(self).wf(),
            at.index < old(self).nodes@.len(),
        ensures
            final(self).wf(),
            final(self).edges_view() == old(self).edges_view(),
            final(self).nodes@.len() == old(self).nodes@.len(),
            forall|i: int|
                0 <= i < old(self).nodes@.len() && i != at.index ==> #[trigger] final(self).nodes@[i]
                    == old(self).nodes@[i],
            old(self).nodes@[at.index as int] matches CollectionNode::Node(n) ==> (final(self).nodes@[at.index as int] matches CollectionNode::Node(n2) && node_rel(n, n2, m.as_fn())),
            !(old(self).nodes@[at.index as int] is Node) ==> final(self).nodes@ == old(self).nodes@,
    {
        let copied = match &self.nodes[at.index] {
            CollectionNode::Node(n) => Some(n.copy_types(m)),
            _ => None,
        };
        if let Some(n) = copied {
            self.nodes.set(at.index, CollectionNode::Node(n));
            assert forall|k: int| 0 <= k < self.edges_view().len() implies (
            #[trigger] self.edges_view()[k]).0 < self.nodes@.len() && self.edges_view()[k].1
                < self.nodes@.len() by {
                assert(old(self).edges_view()[k] == self.edges_view()[k]);
            }
        }
    }

    pub fn add_edge(&mut self, from: CollectionIndex, to: CollectionIndex, kind: CollectionEdge)
        requires
            old(self).wf(),
            from.index < old(self).nodes@.len(),
            to.index < old(self).nodes@.len(),
            old(self).edges_view().len() < u32::MAX,
        ensures
            final(self).wf(),
            final(self).nodes@ == old(self).nodes@,
            final(self).edges_view() == old(self).edges_view().push((from.index, to.index, kind)),
    {
        store_add_edge(&mut self.edges, from.index, to.index, kind);
        assert(forall|k: int| 0 <= k < old(self).edges_view().len() ==> self.edges_view()[k] == old(self).edges_view()[k]);
    }
}

} // verus!
