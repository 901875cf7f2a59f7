//! Experts and statistics.
use crate::clock;
use crate::knowledge_graph::graph::KnowledgeGraph;
use crate::knowledge_graph::queries;
use crate::knowledge_graph::rows;
use crate::knowledge_graph::rows::GraphStats;
use crate::knowledge_graph::rows::NodeRowView;
use crate::knowledge_graph::rows::ResultView;
use crate::knowledge_graph::rows::SearchResult;
use crate::lists;
use crate::ordering;
use crate::scores::Score;
use crate::text;
use vstd::prelude::*;

verus! {

impl KnowledgeGraph {
    /// How many edges say that an expert authored a node with all of the tags.
    fn count_authored(&self, tags: &Vec<String>, expert: &str) -> (r: usize)
        ensures
            r == queries::authored(
                self.deep_view().nodes,
                self.deep_view().edges,
                tags.deep_view(),
                expert@,
            ),
            r <= self.edges@.len(),
    {
        let ghost nodes = self.deep_view().nodes;
        let ghost edges = self.deep_view().edges;
        let mut count: usize = 0;
        let mut i: usize = 0;
        assert(edges.take(0) =~= Seq::empty());
        while i < self.edges.len()
            invariant
                i <= self.edges@.len(),
                nodes == self.deep_view().nodes,
                edges == self.deep_view().edges,
                count <= i,
                count == queries::authored(
                    nodes,
                    edges.take(i as int),
                    tags.deep_view(),
                    expert@,
                ),
            decreases self.edges@.len() - i,
        {
            proof {
                assert(edges.take(i + 1).drop_last() =~= edges.take(i as int));
                assert(edges.take(i + 1).last() == self.edges@[i as int].deep_view());
            }
            let e = &self.edges[i];
            if text::same(e.to_id.as_str(), expert) && text::same(
                e.relation.as_str(),
                "authored_by",
            ) {
                match self.position_of(e.from_id.as_str()) {
                    Some(p) => {
                        assert(nodes[p as int] == self.nodes@[p as int].deep_view());
                        if queries::carries_tags(&self.nodes[p], tags) {
                            count += 1;
                        }
                    },
                    None => {},
                }
            }
            i += 1;
        }
        assert(edges.take(edges.len() as int) =~= edges);
        count
    }

    /// Find experts associated with the given tags via `authored_by` edges.
    pub fn find_experts(&self, tags: &Vec<String>) -> (r: Vec<SearchResult>)
        ensures
            exists|now: Seq<char>|
                clock::is_stamp(now) && r.deep_view() == #[trigger] self.deep_view().experts(
                    tags.deep_view(),
                    now,
                ),
    {
        let now = clock::now_rfc3339();
        let ghost g = self.deep_view();
        let ghost all = Seq::new(g.nodes.len(), |i: int| i);
        let ghost keep = |i: int|
            g.nodes[i].node_type == "expert"@ && queries::authored(
                g.nodes,
                g.edges,
                tags.deep_view(),
                g.nodes[i].id,
            ) > 0;
        let ghost count = |i: int|
            queries::authored(g.nodes, g.edges, tags.deep_view(), g.nodes[i].id) as u128;
        let mut found: Vec<usize> = Vec::new();
        let mut counts: Vec<u128> = Vec::new();
        let mut i: usize = 0;
        proof {
            lists::lemma_filter_empty(all, keep);
            assert(ordering::as_positions(found@) =~= all.take(0).filter(keep));
            assert(counts@ =~= all.take(0).filter(keep).map_values(count));
        }
        while i < self.nodes.len()
            invariant
                i <= self.nodes@.len(),
                g == self.deep_view(),
                all == Seq::new(g.nodes.len(), |i: int| i),
                keep == |i: int|
                    g.nodes[i].node_type == "expert"@ && queries::authored(
                        g.nodes,
                        g.edges,
                        tags.deep_view(),
                        g.nodes[i].id,
                    ) > 0,
                count == |i: int|
                    queries::authored(g.nodes, g.edges, tags.deep_view(), g.nodes[i].id) as u128,
                forall|k: int| 0 <= k < found@.len() ==> #[trigger] found@[k] < self.nodes@.len(),
                forall|k: int| 0 <= k < counts@.len() ==> #[trigger] counts@[k] <= usize::MAX,
                ordering::as_positions(found@) == all.take(i as int).filter(keep),
                counts@ == all.take(i as int).filter(keep).map_values(count),
            decreases self.nodes@.len() - i,
        {
            let ghost kept = all.take(i as int).filter(keep);
            let ghost before = ordering::as_positions(found@);
            let ghost scored = counts@;
            proof {
                lists::lemma_filter_take(all, keep, i as int);
                assert(g.nodes[i as int] == self.nodes@[i as int].deep_view());
            }
            if text::same(self.nodes[i].node_type.as_str(), "expert") {
                let n: usize = self.count_authored(tags, self.nodes[i].id.as_str());
                if n > 0 {
                    found.push(i);
                    counts.push(n as u128);
                    proof {
                        assert(ordering::as_positions(found@) =~= before.push(i as int));
                        assert(counts@ =~= scored.push(count(i as int)));
                        assert(kept.push(i as int).map_values(count) =~= kept.map_values(
                            count,
                        ).push(count(i as int)));
                    }
                }
            }
            i += 1;
        }
        assert(all.take(all.len() as int) =~= all);
        assert(ordering::as_positions(found@) == g.authors(tags.deep_view()));
        let order = ordering::largest_first(&counts);
        let ghost whole = g.experts(tags.deep_view(), now@);
        let mut out: Vec<SearchResult> = Vec::new();
        let mut j: usize = 0;
        proof {
            assert(found@.len() == counts@.len()) by {
                assert(ordering::as_positions(found@).len() == counts@.len());
            }
            assert(g.authors(tags.deep_view()).map_values(count) =~= counts@);
            assert(whole.len() == order@.len()) by {
                assert(ordering::as_positions(order@).len() == order@.len());
            }
        }
        while j < order.len()
            invariant
                j <= order@.len(),
                g == self.deep_view(),
                order@.len() == found@.len() == counts@.len() == whole.len(),
                whole == g.experts(tags.deep_view(), now@),
                ordering::as_positions(found@) == g.authors(tags.deep_view()),
                count == |i: int|
                    queries::authored(g.nodes, g.edges, tags.deep_view(), g.nodes[i].id) as u128,
                counts@ == g.authors(tags.deep_view()).map_values(count),
                ordering::as_positions(order@) == ordering::ordered(
                    counts@.len(),
                    ordering::larger_number(counts@),
                ),
                forall|k: int| 0 <= k < found@.len() ==> #[trigger] found@[k] < self.nodes@.len(),
                forall|k: int| 0 <= k < counts@.len() ==> #[trigger] counts@[k] <= usize::MAX,
                forall|k: int| 0 <= k < order@.len() ==> #[trigger] order@[k] < counts@.len(),
                out.deep_view() == whole.take(j as int),
            decreases order@.len() - j,
        {
            let ghost before = out.deep_view();
            let k: usize = order[j];
            let p: usize = found[k];
            let node = rows::row_to_node(&self.nodes[p], now.as_str());
            let score = Score::Count(counts[k] as u64);
            let ghost item = ResultView { node: node.deep_view(), score };
            proof {
                assert(g.nodes[p as int] == self.nodes@[p as int].deep_view());
                assert(ordering::as_positions(order@)[j as int] == k);
                assert(ordering::as_positions(found@)[k as int] == p);
                assert(whole[j as int] == item);
            }
            out.push(SearchResult { node, score });
            assert(out.deep_view() =~= before.push(item));
            j += 1;
            assert(out.deep_view() =~= whole.take(j as int));
        }
        assert(whole.take(whole.len() as int) =~= whole);
        out
    }

    /// Return summary statistics for the graph: nodes and edges, nodes by type, and the ten most
    /// frequent tags.
    pub fn stats(&self) -> (r: GraphStats)
        ensures
            r.total_nodes == self.deep_view().nodes.len(),
            r.total_edges == self.deep_view().edges.len(),
            lists::tally_view(r.nodes_by_type@) == lists::tallied(
                self.deep_view().nodes.map_values(|row: NodeRowView| row.node_type),
            ),
            lists::tally_view(r.top_tags@) == queries::most_frequent(
                lists::tallied(queries::all_tags(self.deep_view().nodes)),
                10,
            ),
    {
        let ghost all = self.deep_view().nodes;
        let mut types: Vec<String> = Vec::new();
        let mut tags: Vec<String> = Vec::new();
        let mut i: usize = 0;
        proof {
            assert(all.take(0) =~= Seq::empty());
            assert(types.deep_view() =~= all.take(0).map_values(|row: NodeRowView| row.node_type));
            assert(tags.deep_view() =~= queries::all_tags(all.take(0)));
        }
        while i < self.nodes.len()
            invariant
                i <= self.nodes@.len(),
                all == self.deep_view().nodes,
                types.deep_view() == all.take(i as int).map_values(
                    |row: NodeRowView| row.node_type,
                ),
                tags.deep_view() == queries::all_tags(all.take(i as int)),
            decreases self.nodes@.len() - i,
        {
            let ghost t = types.deep_view();
            let ghost g = tags.deep_view();
            proof {
                assert(all.take(i + 1).drop_last() =~= all.take(i as int));
                assert(all.take(i + 1).last() == self.nodes@[i as int].deep_view());
            }
            types.push(self.nodes[i].node_type.clone());
            assert(types.deep_view() =~= t.push(all[i as int].node_type));
            let mut own = rows::read_tags(self.nodes[i].tags.as_str());
            let ghost o = own.deep_view();
            tags.append(&mut own);
            assert(tags.deep_view() =~= g + o);
            i += 1;
            assert(types.deep_view() =~= all.take(i as int).map_values(
                |row: NodeRowView| row.node_type,
            ));
        }
        assert(all.take(all.len() as int) =~= all);
        let nodes_by_type = lists::tally(&types);
        let counts = lists::tally(&tags);
        let top_tags = top_entries(&counts, 10);
        GraphStats {
            total_nodes: self.nodes.len(),
            total_edges: self.edges.len(),
            nodes_by_type,
            top_tags,
        }
    }
}

/// The entries of a tally, the most frequent first, at most `n` of them.
fn top_entries(tally: &Vec<(String, usize)>, n: usize) -> (r: Vec<(String, usize)>)
    ensures
        lists::tally_view(r@) == queries::most_frequent(lists::tally_view(tally@), n as nat),
{
    let ghost all = lists::tally_view(tally@);
    let ghost numbers = all.map_values(|p: (Seq<char>, nat)| p.1 as u128);
    let mut keys: Vec<u128> = Vec::new();
    let mut i: usize = 0;
    while i < tally.len()
        invariant
            i <= tally@.len(),
            all == lists::tally_view(tally@),
            numbers == all.map_values(|p: (Seq<char>, nat)| p.1 as u128),
            keys@ == numbers.take(i as int),
        decreases tally@.len() - i,
    {
        let ghost before = keys@;
        keys.push(tally[i].1 as u128);
        proof {
            assert(all[i as int] == (tally@[i as int].0@, tally@[i as int].1 as nat));
            assert(keys@ =~= before.push(numbers[i as int]));
        }
        i += 1;
        assert(keys@ =~= numbers.take(i as int));
    }
    assert(keys@ =~= numbers);
    let order = ordering::largest_first(&keys);
    let m: usize = if order.len() <= n { order.len() } else { n };
    let ghost sorted = ordering::ordered(all.len(), ordering::larger_number(numbers)).map_values(
        |i: int| all[i],
    );
    let ghost whole = queries::most_frequent(all, n as nat);
    proof {
        assert(ordering::as_positions(order@).map_values(|i: int| all[i]) =~= sorted);
        assert(whole == lists::limited(sorted, n as nat));
    }
    let mut out: Vec<(String, usize)> = Vec::new();
    let mut j: usize = 0;
    while j < m
        invariant
            j <= m <= order@.len(),
            m == whole.len(),
            order@.len() == tally@.len(),
            all == lists::tally_view(tally@),
            sorted == ordering::as_positions(order@).map_values(|i: int| all[i]),
            whole == lists::limited(sorted, n as nat),
            forall|k: int| 0 <= k < order@.len() ==> #[trigger] order@[k] < tally@.len(),
            lists::tally_view(out@) == whole.take(j as int),
        decreases m - j,
    {
        let ghost before = lists::tally_view(out@);
        let p: usize = order[j];
        let name = tally[p].0.clone();
        let count: usize = tally[p].1;
        out.push((name, count));
        proof {
            assert(ordering::as_positions(order@)[j as int] == p);
            assert(sorted[j as int] == all[p as int]);
            assert(all[p as int] == (tally@[p as int].0@, tally@[p as int].1 as nat));
            assert(lists::tally_view(out@) =~= before.push(all[p as int]));
        }
        j += 1;
        assert(lists::tally_view(out@) =~= whole.take(j as int));
    }
    assert(whole.take(whole.len() as int) =~= whole);
    out
}

} // verus!
