//! Subgraphs: what can be reached from a node in a number of hops.
use crate::clock;
use crate::knowledge_graph::graph;
use crate::knowledge_graph::graph::GraphView;
use crate::knowledge_graph::graph::KnowledgeGraph;
use crate::knowledge_graph::queries;
use crate::knowledge_graph::rows::EdgeView;
use crate::knowledge_graph::rows::ErrorView;
use crate::knowledge_graph::rows::GraphError;
use crate::knowledge_graph::rows::KnowledgeEdge;
use crate::knowledge_graph::rows::KnowledgeNode;
use crate::knowledge_graph::rows::NodeView;
use crate::lists;
use crate::ordering;
use crate::render;
use crate::text;
use vstd::prelude::*;

verus! {

/// Maximum allowed subgraph traversal depth.
pub const MAX_SUBGRAPH_DEPTH: usize = 100;

/// Whether an edge joins two identifiers, in either direction.
pub open spec fn joins(e: EdgeView, a: Seq<char>, b: Seq<char>) -> bool {
    (e.from_id == a && e.to_id == b) || (e.to_id == a && e.from_id == b)
}

/// Whether two identifiers are joined by an edge.
pub open spec fn adjacent(edges: Seq<EdgeView>, a: Seq<char>, b: Seq<char>) -> bool {
    exists|i: int| 0 <= i < edges.len() && joins(#[trigger] edges[i], a, b)
}

/// Whether `b` can be reached from `a` along at most `depth` edges, taken in either direction.
pub open spec fn within(edges: Seq<EdgeView>, a: Seq<char>, b: Seq<char>, depth: nat) -> bool
    decreases depth,
{
    if depth == 0 {
        a == b
    } else {
        within(edges, a, b, (depth - 1) as nat) || exists|m: Seq<char>|
            within(edges, a, m, (depth - 1) as nat) && #[trigger] adjacent(edges, m, b)
    }
}

/// The depth that is searched: at most `MAX_SUBGRAPH_DEPTH`.
pub open spec fn searched_depth(depth: nat) -> nat {
    if depth <= MAX_SUBGRAPH_DEPTH {
        depth
    } else {
        MAX_SUBGRAPH_DEPTH as nat
    }
}

impl GraphView {
    /// Whether a node is in the subgraph around a root.
    pub open spec fn in_subgraph(self, root: Seq<char>, depth: nat, id: Seq<char>) -> bool {
        graph::has_node(self.nodes, id) && within(self.edges, root, id, searched_depth(depth))
    }

    /// The positions of the nodes of the subgraph around a root, in the order of the table.
    pub open spec fn subgraph_positions(self, root: Seq<char>, depth: nat) -> Seq<int> {
        Seq::new(self.nodes.len(), |i: int| i).filter(
            |i: int| self.in_subgraph(root, depth, self.nodes[i].id),
        )
    }

    /// The nodes of the subgraph around a root and the edges between them.
    pub open spec fn subgraph(self, root: Seq<char>, depth: nat, now: Seq<char>) -> (
        Seq<NodeView>,
        Seq<EdgeView>,
    ) {
        (
            queries::nodes_at(self.nodes, self.subgraph_positions(root, depth), now),
            self.edges.filter(
                |e: EdgeView|
                    self.in_subgraph(root, depth, e.from_id) && self.in_subgraph(
                        root,
                        depth,
                        e.to_id,
                    ),
            ),
        )
    }
}

/// Whether an identifier is in a list of those within some depth, or next to one of them by one of
/// the first `n` edges.
spec fn grown(edges: Seq<EdgeView>, known: Seq<Seq<char>>, n: int, b: Seq<char>) -> bool {
    known.contains(b) || exists|m: Seq<char>|
        known.contains(m) && #[trigger] adjacent(edges.take(n), m, b)
}

proof fn lemma_adjacent_take(edges: Seq<EdgeView>, n: int, m: Seq<char>, b: Seq<char>)
    requires
        0 <= n < edges.len(),
    ensures
        adjacent(edges.take(n + 1), m, b) <==> adjacent(edges.take(n), m, b) || joins(
            edges[n],
            m,
            b,
        ),
{
    let less = edges.take(n);
    let more = edges.take(n + 1);
    if adjacent(less, m, b) {
        let i = choose|i: int| 0 <= i < less.len() && joins(#[trigger] less[i], m, b);
        assert(joins(more[i], m, b));
    }
    if joins(edges[n], m, b) {
        assert(joins(more[n], m, b));
    }
    if adjacent(more, m, b) {
        let i = choose|i: int| 0 <= i < more.len() && joins(#[trigger] more[i], m, b);
        if i < n {
            assert(joins(less[i], m, b));
        }
    }
}

/// One more edge adds its far end where its near end was known.
proof fn lemma_grown_step(edges: Seq<EdgeView>, known: Seq<Seq<char>>, n: int)
    requires
        0 <= n < edges.len(),
    ensures
        forall|b: Seq<char>| #[trigger]
            grown(edges, known, n + 1, b) <==> grown(edges, known, n, b) || (known.contains(
                edges[n].from_id,
            ) && b == edges[n].to_id) || (known.contains(edges[n].to_id) && b == edges[n].from_id),
{
    assert forall|b: Seq<char>| #[trigger]
        grown(edges, known, n + 1, b) <==> grown(edges, known, n, b) || (known.contains(
            edges[n].from_id,
        ) && b == edges[n].to_id) || (known.contains(edges[n].to_id) && b == edges[n].from_id) by {
        if grown(edges, known, n + 1, b) && !known.contains(b) {
            let m = choose|m: Seq<char>|
                known.contains(m) && #[trigger] adjacent(edges.take(n + 1), m, b);
            lemma_adjacent_take(edges, n, m, b);
        }
        if grown(edges, known, n, b) && !known.contains(b) {
            let m = choose|m: Seq<char>|
                known.contains(m) && #[trigger] adjacent(edges.take(n), m, b);
            lemma_adjacent_take(edges, n, m, b);
            assert(adjacent(edges.take(n + 1), m, b));
        }
        if known.contains(edges[n].from_id) && b == edges[n].to_id {
            lemma_adjacent_take(edges, n, edges[n].from_id, b);
            assert(adjacent(edges.take(n + 1), edges[n].from_id, b));
        }
        if known.contains(edges[n].to_id) && b == edges[n].from_id {
            lemma_adjacent_take(edges, n, edges[n].to_id, b);
            assert(adjacent(edges.take(n + 1), edges[n].to_id, b));
        }
    }
}

/// Once a hop reaches nothing new, no further hop does.
proof fn lemma_within_settles(edges: Seq<EdgeView>, a: Seq<char>, d: nat, depth: nat)
    requires
        d <= depth,
        forall|b: Seq<char>| #[trigger] within(edges, a, b, d + 1) ==> within(edges, a, b, d),
    ensures
        forall|b: Seq<char>| #[trigger] within(edges, a, b, depth) <==> within(edges, a, b, d),
    decreases depth - d,
{
    if d < depth {
        let less = (depth - 1) as nat;
        lemma_within_settles(edges, a, d, less);
        assert forall|b: Seq<char>| #[trigger] within(edges, a, b, depth) <==> within(
            edges,
            a,
            b,
            d,
        ) by {
            assert(within(edges, a, b, less) <==> within(edges, a, b, d));
            if within(edges, a, b, depth) && !within(edges, a, b, less) {
                let m = choose|m: Seq<char>|
                    within(edges, a, m, less) && #[trigger] adjacent(edges, m, b);
                assert(within(edges, a, m, d));
                assert(within(edges, a, b, d + 1));
            }
        }
    }
}

/// Add a text to a list unless it is there.
fn add_new(list: &mut Vec<String>, s: &str)
    ensures
        forall|b: Seq<char>| #[trigger]
            final(list).deep_view().contains(b) <==> old(list).deep_view().contains(b) || b == s@,
        final(list).deep_view() == old(list).deep_view() || final(list).deep_view() == old(
            list,
        ).deep_view().push(s@),
{
    let ghost before = list.deep_view();
    if !render::list_contains(list, s) {
        list.push(s.to_owned());
        proof {
            assert(list.deep_view() =~= before.push(s@));
            assert forall|b: Seq<char>| #[trigger] list.deep_view().contains(b) <==> before.contains(
                b,
            ) || b == s@ by {
                if before.contains(b) {
                    let i = choose|i: int| 0 <= i < before.len() && before[i] == b;
                    assert(before.push(s@)[i] == b);
                }
                if b == s@ {
                    assert(before.push(s@)[before.len() as int] == b);
                }
            }
        }
    }
}

impl KnowledgeGraph {
    /// The identifiers within one hop more than those of a list.
    fn expand(&self, known: &Vec<String>) -> (r: Vec<String>)
        ensures
            forall|b: Seq<char>| #[trigger]
                r.deep_view().contains(b) <==> known.deep_view().contains(b) || exists|
                    m: Seq<char>,
                |
                    known.deep_view().contains(m) && #[trigger] adjacent(
                        self.deep_view().edges,
                        m,
                        b,
                    ),
            r@.len() == known@.len() ==> r.deep_view() == known.deep_view(),
    {
        let ghost edges = self.deep_view().edges;
        let ghost base = known.deep_view();
        let mut out = text::copy_texts(known);
        let mut i: usize = 0;
        proof {
            assert(out.deep_view().take(base.len() as int) =~= base);
            assert forall|b: Seq<char>| #[trigger] out.deep_view().contains(b) <==> grown(
                edges,
                base,
                0,
                b,
            ) by {
                if grown(edges, base, 0, b) && !base.contains(b) {
                    let m = choose|m: Seq<char>|
                        base.contains(m) && #[trigger] adjacent(edges.take(0), m, b);
                }
            }
        }
        while i < self.edges.len()
            invariant
                i <= self.edges@.len(),
                edges == self.deep_view().edges,
                base == known.deep_view(),
                forall|b: Seq<char>| #[trigger]
                    out.deep_view().contains(b) <==> grown(edges, base, i as int, b),
                out.deep_view().len() >= base.len(),
                out.deep_view().take(base.len() as int) == base,
            decreases self.edges@.len() - i,
        {
            let ghost first = out.deep_view();
            proof {
                lemma_grown_step(edges, base, i as int);
                assert(edges[i as int] == self.edges@[i as int].deep_view());
            }
            let e = &self.edges[i];
            if render::list_contains(known, e.from_id.as_str()) {
                add_new(&mut out, e.to_id.as_str());
            }
            if render::list_contains(known, e.to_id.as_str()) {
                add_new(&mut out, e.from_id.as_str());
            }
            assert(out.deep_view().take(first.len() as int) =~= first);
            assert(out.deep_view().take(base.len() as int) =~= first.take(base.len() as int));
            i += 1;
        }
        proof {
            if out@.len() == known@.len() {
                assert(out.deep_view().take(base.len() as int) =~= out.deep_view());
            }
            assert(edges.take(edges.len() as int) =~= edges);
            assert forall|b: Seq<char>| #[trigger] out.deep_view().contains(b) implies base.contains(
                b,
            ) || exists|m: Seq<char>| base.contains(m) && #[trigger] adjacent(edges, m, b) by {
                assert(grown(edges, base, i as int, b));
            }
            assert forall|b: Seq<char>|
                (base.contains(b) || exists|m: Seq<char>|
                    base.contains(m) && #[trigger] adjacent(
                        edges,
                        m,
                        b,
                    )) implies #[trigger] out.deep_view().contains(b) by {
                assert(grown(edges, base, i as int, b));
            }
        }
        out
    }

    /// The identifiers within a number of hops.
    fn reach(&self, root: &str, depth: usize) -> (r: Vec<String>)
        ensures
            forall|b: Seq<char>| #[trigger]
                r.deep_view().contains(b) <==> within(
                    self.deep_view().edges,
                    root@,
                    b,
                    depth as nat,
                ),
    {
        let ghost edges = self.deep_view().edges;
        let mut out: Vec<String> = Vec::new();
        out.push(root.to_owned());
        proof {
            assert(out.deep_view() =~= seq![root@]);
            assert(seq![root@][0] == root@);
        }
        let mut d: usize = 0;
        while d < depth
            invariant
                d <= depth,
                edges == self.deep_view().edges,
                forall|b: Seq<char>| #[trigger]
                    out.deep_view().contains(b) <==> within(edges, root@, b, d as nat),
            decreases depth - d,
        {
            let ghost before = out.deep_view();
            let next = self.expand(&out);
            proof {
                assert forall|b: Seq<char>| #[trigger] next.deep_view().contains(b) <==> within(
                    edges,
                    root@,
                    b,
                    (d + 1) as nat,
                ) by {
                    if next.deep_view().contains(b) && !before.contains(b) {
                        let m = choose|m: Seq<char>|
                            before.contains(m) && #[trigger] adjacent(edges, m, b);
                        assert(within(edges, root@, m, d as nat));
                    }
                    if before.contains(b) {
                        assert(within(edges, root@, b, d as nat));
                    }
                    if within(edges, root@, b, (d + 1) as nat) {
                        if !within(edges, root@, b, d as nat) {
                            let m = choose|m: Seq<char>|
                                within(edges, root@, m, d as nat) && #[trigger] adjacent(
                                    edges,
                                    m,
                                    b,
                                );
                            assert(before.contains(m));
                        } else {
                            assert(before.contains(b));
                        }
                    }
                }
            }
            if next.len() == out.len() {
                proof {
                    assert forall|b: Seq<char>| #[trigger]
                        within(edges, root@, b, (d + 1) as nat) implies within(
                        edges,
                        root@,
                        b,
                        d as nat,
                    ) by {
                        assert(next.deep_view().contains(b));
                    }
                    lemma_within_settles(edges, root@, d as nat, depth as nat);
                }
                return out;
            }
            out = next;
            d += 1;
        }
        out
    }

    /// Extract a subgraph starting from `root_id` up to `depth` hops, along edges in either
    /// direction.
    ///
    /// `depth` must be at least 1; at most [`MAX_SUBGRAPH_DEPTH`] hops are taken.
    pub fn get_subgraph(&self, root_id: &str, depth: usize) -> (r: Result<
        (Vec<KnowledgeNode>, Vec<KnowledgeEdge>),
        GraphError,
    >)
        ensures
            depth == 0 ==> (r matches Err(e) && e.deep_view() == ErrorView::ZeroDepth),
            depth > 0 ==> exists|now: Seq<char>|
                clock::is_stamp(now) && r is Ok && (
                    r->Ok_0.0.deep_view(),
                    r->Ok_0.1.deep_view(),
                ) == #[trigger] self.deep_view().subgraph(root_id@, depth as nat, now),
    {
        if depth == 0 {
            return Err(GraphError::ZeroDepth);
        }
        let now = clock::now_rfc3339();
        let ghost g = self.deep_view();
        let hops: usize = if depth <= MAX_SUBGRAPH_DEPTH { depth } else { MAX_SUBGRAPH_DEPTH };
        let reached = self.reach(root_id, hops);
        let ghost all = Seq::new(g.nodes.len(), |i: int| i);
        let ghost keep = |i: int| g.in_subgraph(root_id@, depth as nat, g.nodes[i].id);
        let mut found: Vec<usize> = Vec::new();
        let mut i: usize = 0;
        proof {
            lists::lemma_filter_empty(all, keep);
            assert(ordering::as_positions(found@) =~= all.take(0).filter(keep));
        }
        while i < self.nodes.len()
            invariant
                i <= self.nodes@.len(),
                g == self.deep_view(),
                all == Seq::new(g.nodes.len(), |i: int| i),
                keep == |i: int| g.in_subgraph(root_id@, depth as nat, g.nodes[i].id),
                hops == searched_depth(depth as nat),
                forall|b: Seq<char>| #[trigger]
                    reached.deep_view().contains(b) <==> within(
                        g.edges,
                        root_id@,
                        b,
                        hops as nat,
                    ),
                forall|k: int| 0 <= k < found@.len() ==> #[trigger] found@[k] < self.nodes@.len(),
                ordering::as_positions(found@) == all.take(i as int).filter(keep),
            decreases self.nodes@.len() - i,
        {
            let ghost before = ordering::as_positions(found@);
            proof {
                lists::lemma_filter_take(all, keep, i as int);
                assert(g.nodes[i as int] == self.nodes@[i as int].deep_view());
                assert(graph::has_node(g.nodes, g.nodes[i as int].id));
            }
            if render::list_contains(&reached, self.nodes[i].id.as_str()) {
                found.push(i);
                assert(ordering::as_positions(found@) =~= before.push(i as int));
            }
            i += 1;
        }
        assert(all.take(all.len() as int) =~= all);
        let nodes = self.collect_nodes(&found, now.as_str());
        let ghost keep_edge = |e: EdgeView|
            g.in_subgraph(root_id@, depth as nat, e.from_id) && g.in_subgraph(
                root_id@,
                depth as nat,
                e.to_id,
            );
        let mut edges: Vec<KnowledgeEdge> = Vec::new();
        let mut j: usize = 0;
        proof {
            lists::lemma_filter_empty(g.edges, keep_edge);
            assert(edges.deep_view() =~= g.edges.take(0).filter(keep_edge));
        }
        while j < self.edges.len()
            invariant
                j <= self.edges@.len(),
                g == self.deep_view(),
                keep_edge == |e: EdgeView|
                    g.in_subgraph(root_id@, depth as nat, e.from_id) && g.in_subgraph(
                        root_id@,
                        depth as nat,
                        e.to_id,
                    ),
                hops == searched_depth(depth as nat),
                forall|b: Seq<char>| #[trigger]
                    reached.deep_view().contains(b) <==> within(
                        g.edges,
                        root_id@,
                        b,
                        hops as nat,
                    ),
                edges.deep_view() == g.edges.take(j as int).filter(keep_edge),
            decreases self.edges@.len() - j,
        {
            let ghost before = edges.deep_view();
            proof {
                lists::lemma_filter_take(g.edges, keep_edge, j as int);
                assert(g.edges[j as int] == self.edges@[j as int].deep_view());
                graph::lemma_lookup(g.nodes, g.edges[j as int].from_id);
                graph::lemma_lookup(g.nodes, g.edges[j as int].to_id);
            }
            let e = &self.edges[j];
            if render::list_contains(&reached, e.from_id.as_str()) && render::list_contains(
                &reached,
                e.to_id.as_str(),
            ) && self.position_of(e.from_id.as_str()).is_some() && self.position_of(
                e.to_id.as_str(),
            ).is_some() {
                edges.push(e.clone());
                assert(edges.deep_view() =~= before.push(g.edges[j as int]));
            }
            j += 1;
        }
        assert(g.edges.take(g.edges.len() as int) =~= g.edges);
        assert((nodes.deep_view(), edges.deep_view()) == g.subgraph(
            root_id@,
            depth as nat,
            now@,
        ));
        Ok((nodes, edges))
    }
}

} // verus!
