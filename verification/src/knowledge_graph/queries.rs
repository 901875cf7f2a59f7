//! Reading the graph.
use crate::clock;
use crate::knowledge_graph::graph;
use crate::knowledge_graph::graph::GraphView;
use crate::knowledge_graph::graph::KnowledgeGraph;
use crate::knowledge_graph::rows;
use crate::knowledge_graph::rows::EdgeView;
use crate::knowledge_graph::rows::EventView;
use crate::knowledge_graph::rows::KnowledgeNode;
use crate::knowledge_graph::rows::NodeRowView;
use crate::knowledge_graph::rows::NodeView;
use crate::knowledge_graph::rows::ResultView;
use crate::letters;
use crate::lists;
use crate::ordering;
use crate::render;
use crate::scores::Score;
use crate::text;
use vstd::prelude::*;

verus! {

// ---------------------------------------------------------------------------
// What the queries answer
// ---------------------------------------------------------------------------

/// The positions of the nodes, the most recently updated first.
pub open spec fn recency(nodes: Seq<NodeRowView>) -> Seq<int> {
    ordering::ordered(
        nodes.len(),
        ordering::later_text(nodes.map_values(|r: NodeRowView| r.updated_at)),
    )
}

/// The nodes at positions.
pub open spec fn nodes_at(
    nodes: Seq<NodeRowView>,
    positions: Seq<int>,
    now: Seq<char>,
) -> Seq<NodeView> {
    positions.map_values(|i: int| rows::node_of(nodes[i], now))
}

/// Whether a node has all of the tags.
pub open spec fn has_tags(row: NodeRowView, tags: Seq<Seq<char>>) -> bool {
    forall|i: int|
        0 <= i < tags.len() ==> rows::tags_in(row.tags).contains(#[trigger] tags[i])
}

/// Whether the synthesis of a node is missing or older than its last update.
pub open spec fn is_stale(row: NodeRowView) -> bool {
    match row.synthesis_at {
        Some(t) => text::text_less(t, row.updated_at),
        None => true,
    }
}

/// The events of a node, the latest first.
pub open spec fn timeline(events: Seq<EventView>, node_id: Seq<char>) -> Seq<EventView> {
    let own = events.filter(|e: EventView| e.node_id == node_id);
    ordering::ordered(
        own.len(),
        ordering::later_text(own.map_values(|e: EventView| e.created_at)),
    ).map_values(|i: int| own[i])
}

/// How many edges say that an expert authored a node with all of the tags.
pub open spec fn authored(
    nodes: Seq<NodeRowView>,
    edges: Seq<EdgeView>,
    tags: Seq<Seq<char>>,
    expert: Seq<char>,
) -> nat
    decreases edges.len(),
{
    if edges.len() == 0 {
        0
    } else {
        authored(nodes, edges.drop_last(), tags, expert) + if is_authorship(
            nodes,
            edges.last(),
            tags,
            expert,
        ) {
            1nat
        } else {
            0
        }
    }
}

/// Whether an edge says that an expert authored a node with all of the tags.
pub open spec fn is_authorship(
    nodes: Seq<NodeRowView>,
    edge: EdgeView,
    tags: Seq<Seq<char>>,
    expert: Seq<char>,
) -> bool {
    &&& edge.to_id == expert
    &&& edge.relation == "authored_by"@
    &&& graph::lookup(nodes, edge.from_id) matches Some(row)
    &&& has_tags(row, tags)
}

/// A word of a search, without its quotation marks and in quotation marks.
pub open spec fn quoted(word: Seq<char>) -> Seq<char> {
    seq!['"'] + word.filter(|c: char| c != '"') + seq!['"']
}

/// The full-text query for a search: each of its words in quotation marks.
pub open spec fn search_text(query: Seq<char>) -> Seq<char> {
    render::joined(letters::words(query).map_values(|w: Seq<char>| quoted(w)), " "@)
}

/// The tags of all nodes, one after another.
pub open spec fn all_tags(nodes: Seq<NodeRowView>) -> Seq<Seq<char>>
    decreases nodes.len(),
{
    if nodes.len() == 0 {
        Seq::empty()
    } else {
        all_tags(nodes.drop_last()) + rows::tags_in(nodes.last().tags)
    }
}

/// A tally, the most frequent first, at most `n` of its entries.
pub open spec fn most_frequent(tally: Seq<(Seq<char>, nat)>, n: nat) -> Seq<(Seq<char>, nat)> {
    lists::limited(
        ordering::ordered(
            tally.len(),
            ordering::larger_number(tally.map_values(|p: (Seq<char>, nat)| p.1 as u128)),
        ).map_values(|i: int| tally[i]),
        n,
    )
}

impl GraphView {
    /// The node with an identifier.
    pub open spec fn node(self, id: Seq<char>, now: Seq<char>) -> Option<NodeView> {
        match graph::lookup(self.nodes, id) {
            Some(row) => Some(rows::node_of(row, now)),
            None => None,
        }
    }

    /// The nodes with all of the tags, the most recently updated first.
    pub open spec fn tagged(self, tags: Seq<Seq<char>>, now: Seq<char>) -> Seq<NodeView> {
        nodes_at(
            self.nodes,
            recency(self.nodes).filter(|i: int| has_tags(self.nodes[i], tags)),
            now,
        )
    }

    /// The stale nodes, the most recently updated first, at most `limit` of them.
    pub open spec fn stale(self, limit: nat, now: Seq<char>) -> Seq<NodeView> {
        nodes_at(
            self.nodes,
            lists::limited(recency(self.nodes).filter(|i: int| is_stale(self.nodes[i])), limit),
            now,
        )
    }

    /// Titles and types of the nodes, the most recently updated first, at most `limit` of them.
    pub open spec fn entity_slugs(self, limit: nat) -> Seq<(Seq<char>, Seq<char>)> {
        lists::limited(recency(self.nodes), limit).map_values(
            |i: int| (self.nodes[i].title, self.nodes[i].node_type),
        )
    }

    /// The nodes at the other ends of a node's edges, outgoing ones first, with the relations.
    pub open spec fn related(self, id: Seq<char>, now: Seq<char>) -> Seq<(NodeView, Seq<char>)> {
        self.edges.filter(|e: EdgeView| e.from_id == id).map_values(
            |e: EdgeView| (self.node(e.to_id, now)->0, e.relation),
        ) + self.edges.filter(|e: EdgeView| e.to_id == id).map_values(
            |e: EdgeView| (self.node(e.from_id, now)->0, e.relation),
        )
    }

    /// A node with its latest events, at most `limit` of them.
    pub open spec fn with_timeline(self, id: Seq<char>, limit: nat, now: Seq<char>) -> Option<
        (NodeView, Seq<EventView>),
    > {
        match self.node(id, now) {
            Some(node) => Some(
                (
                    node,
                    lists::limited(timeline(self.events, id), limit).map_values(
                        |e: EventView| rows::event_of(e, now),
                    ),
                ),
            ),
            None => None,
        }
    }

    /// The positions of the experts who authored nodes with all of the tags.
    pub open spec fn authors(self, tags: Seq<Seq<char>>) -> Seq<int> {
        Seq::new(self.nodes.len(), |i: int| i).filter(
            |i: int|
                self.nodes[i].node_type == "expert"@ && authored(
                    self.nodes,
                    self.edges,
                    tags,
                    self.nodes[i].id,
                ) > 0,
        )
    }

    /// The experts who authored nodes with all of the tags, those with the most such nodes first.
    pub open spec fn experts(self, tags: Seq<Seq<char>>, now: Seq<char>) -> Seq<ResultView> {
        let found = self.authors(tags);
        let counts = found.map_values(
            |i: int| authored(self.nodes, self.edges, tags, self.nodes[i].id) as u128,
        );
        ordering::ordered(found.len(), ordering::larger_number(counts)).map_values(
            |k: int|
                ResultView {
                    node: rows::node_of(self.nodes[found[k]], now),
                    score: Score::Count(counts[k] as u64),
                },
        )
    }

    /// The result for a hit of a full-text search: the node, and its rank negated.
    pub open spec fn hit(self, hit: (Seq<char>, u64), now: Seq<char>) -> ResultView {
        ResultView {
            node: self.node(hit.0, now)->0,
            score: Score::Double(hit.1 ^ 0x8000_0000_0000_0000),
        }
    }

    /// The nodes that a full-text search found, best match first, at most `limit` of them. `hits`
    /// are the identifiers that it found and the bit patterns of their ranks, best match first.
    pub open spec fn similar(
        self,
        query: Seq<char>,
        limit: nat,
        hits: Seq<(Seq<char>, u64)>,
        now: Seq<char>,
    ) -> Seq<ResultView> {
        if letters::words(query).len() == 0 {
            Seq::empty()
        } else {
            lists::limited(
                hits.filter(|h: (Seq<char>, u64)| graph::has_node(self.nodes, h.0)),
                limit,
            ).map_values(|h: (Seq<char>, u64)| self.hit(h, now))
        }
    }
}

// ---------------------------------------------------------------------------
// The queries
// ---------------------------------------------------------------------------

/// Whether a node has all of the tags.
pub fn carries_tags(row: &rows::NodeRow, tags: &Vec<String>) -> (r: bool)
    ensures
        r == has_tags(row.deep_view(), tags.deep_view()),
{
    let own = rows::read_tags(row.tags.as_str());
    let ghost all = tags.deep_view();
    let mut i: usize = 0;
    while i < tags.len()
        invariant
            i <= tags@.len(),
            all == tags.deep_view(),
            own.deep_view() == rows::tags_in(row.deep_view().tags),
            forall|k: int| 0 <= k < i ==> own.deep_view().contains(#[trigger] all[k]),
        decreases tags@.len() - i,
    {
        assert(all[i as int] == tags@[i as int]@);
        if !render::list_contains(&own, tags[i].as_str()) {
            return false;
        }
        i += 1;
    }
    true
}

/// Whether the synthesis of a node is missing or older than its last update.
fn needs_synthesis(row: &rows::NodeRow) -> (r: bool)
    ensures
        r == is_stale(row.deep_view()),
{
    match &row.synthesis_at {
        Some(t) => text::comes_before(t.as_str(), row.updated_at.as_str()),
        None => true,
    }
}

impl KnowledgeGraph {
    /// The positions of the nodes, the most recently updated first.
    fn by_recency(&self) -> (r: Vec<usize>)
        ensures
            ordering::as_positions(r@) == recency(self.deep_view().nodes),
            r@.len() == self.nodes@.len(),
            forall|i: int| 0 <= i < r@.len() ==> #[trigger] r@[i] < self.nodes@.len(),
    {
        let ghost all = self.deep_view().nodes;
        let mut keys: Vec<String> = Vec::new();
        let mut i: usize = 0;
        while i < self.nodes.len()
            invariant
                i <= self.nodes@.len(),
                all == self.deep_view().nodes,
                keys@.len() == i,
                keys.deep_view() == all.take(i as int).map_values(|r: NodeRowView| r.updated_at),
            decreases self.nodes@.len() - i,
        {
            let ghost before = keys.deep_view();
            keys.push(self.nodes[i].updated_at.clone());
            assert(keys.deep_view() =~= before.push(all[i as int].updated_at));
            i += 1;
            assert(keys.deep_view() =~= all.take(i as int).map_values(
                |r: NodeRowView| r.updated_at,
            ));
        }
        assert(all.take(all.len() as int) =~= all);
        ordering::latest_first(&keys)
    }

    /// The nodes at positions.
    pub fn collect_nodes(&self, positions: &Vec<usize>, now: &str) -> (r: Vec<KnowledgeNode>)
        requires
            forall|i: int|
                0 <= i < positions@.len() ==> #[trigger] positions@[i] < self.nodes@.len(),
        ensures
            r.deep_view() == nodes_at(
                self.deep_view().nodes,
                ordering::as_positions(positions@),
                now@,
            ),
    {
        let ghost all = self.deep_view().nodes;
        let ghost whole = nodes_at(all, ordering::as_positions(positions@), now@);
        let mut out: Vec<KnowledgeNode> = Vec::new();
        let mut i: usize = 0;
        while i < positions.len()
            invariant
                i <= positions@.len(),
                all == self.deep_view().nodes,
                whole == nodes_at(all, ordering::as_positions(positions@), now@),
                forall|k: int|
                    0 <= k < positions@.len() ==> #[trigger] positions@[k] < self.nodes@.len(),
                out.deep_view() == whole.take(i as int),
            decreases positions@.len() - i,
        {
            let ghost before = out.deep_view();
            let p: usize = positions[i];
            let node = rows::row_to_node(&self.nodes[p], now);
            let ghost made = node.deep_view();
            assert(made == whole[i as int]);
            out.push(node);
            assert(out.deep_view() =~= before.push(made));
            i += 1;
            assert(out.deep_view() =~= whole.take(i as int));
        }
        assert(whole.take(whole.len() as int) =~= whole);
        out
    }

    /// Retrieve a node by id.
    pub fn get_node(&self, id: &str) -> (r: Option<KnowledgeNode>)
        ensures
            exists|now: Seq<char>|
                clock::is_stamp(now) && r.deep_view() == #[trigger] self.deep_view().node(id@, now),
    {
        let now = clock::now_rfc3339();
        match self.position_of(id) {
            Some(i) => {
                let node = rows::row_to_node(&self.nodes[i], now.as_str());
                assert(self.deep_view().nodes[i as int] == self.nodes@[i as int].deep_view());
                assert(Some(node.deep_view()) == self.deep_view().node(id@, now@));
                Some(node)
            },
            None => {
                assert(self.deep_view().node(id@, now@) is None);
                None
            },
        }
    }

    /// Query nodes by tags (all listed tags must be present).
    pub fn query_by_tags(&self, tags: &Vec<String>) -> (r: Vec<KnowledgeNode>)
        ensures
            exists|now: Seq<char>|
                clock::is_stamp(now) && r.deep_view() == #[trigger] self.deep_view().tagged(
                    tags.deep_view(),
                    now,
                ),
    {
        let ghost all = self.deep_view().nodes;
        let ghost order = recency(all);
        let ghost keep = |i: int| has_tags(all[i], tags.deep_view());
        let recent = self.by_recency();
        let mut found: Vec<usize> = Vec::new();
        let mut i: usize = 0;
        proof {
            lists::lemma_filter_empty(order, keep);
            assert(ordering::as_positions(found@) =~= order.take(0).filter(keep));
        }
        while i < recent.len()
            invariant
                i <= recent@.len(),
                all == self.deep_view().nodes,
                order == ordering::as_positions(recent@),
                keep == (|i: int| has_tags(all[i], tags.deep_view())),
                forall|k: int| 0 <= k < recent@.len() ==> #[trigger] recent@[k] < self.nodes@.len(),
                forall|k: int| 0 <= k < found@.len() ==> #[trigger] found@[k] < self.nodes@.len(),
                ordering::as_positions(found@) == order.take(i as int).filter(keep),
            decreases recent@.len() - i,
        {
            let p: usize = recent[i];
            let ghost before = ordering::as_positions(found@);
            proof {
                lists::lemma_filter_take(order, keep, i as int);
                assert(order[i as int] == p);
                assert(all[p as int] == self.nodes@[p as int].deep_view());
            }
            if carries_tags(&self.nodes[p], tags) {
                found.push(p);
                assert(ordering::as_positions(found@) =~= before.push(p as int));
            }
            i += 1;
        }
        assert(order.take(order.len() as int) =~= order);
        let now = clock::now_rfc3339();
        let out = self.collect_nodes(&found, now.as_str());
        assert(out.deep_view() == self.deep_view().tagged(tags.deep_view(), now@));
        out
    }

    /// Returns stale nodes (never synthesized, or updated since).
    /// Ordered by the time of update, most recently active first.
    pub fn list_stale_nodes(&self, limit: usize) -> (r: Vec<KnowledgeNode>)
        ensures
            exists|now: Seq<char>|
                clock::is_stamp(now) && r.deep_view() == #[trigger] self.deep_view().stale(
                    limit as nat,
                    now,
                ),
    {
        let ghost all = self.deep_view().nodes;
        let ghost order = recency(all);
        let ghost keep = |i: int| is_stale(all[i]);
        let recent = self.by_recency();
        let mut found: Vec<usize> = Vec::new();
        let mut i: usize = 0;
        proof {
            lists::lemma_filter_empty(order, keep);
            assert(ordering::as_positions(found@) =~= order.take(0).filter(keep));
        }
        while i < recent.len()
            invariant
                i <= recent@.len(),
                all == self.deep_view().nodes,
                order == ordering::as_positions(recent@),
                keep == (|i: int| is_stale(all[i])),
                forall|k: int| 0 <= k < recent@.len() ==> #[trigger] recent@[k] < self.nodes@.len(),
                forall|k: int| 0 <= k < found@.len() ==> #[trigger] found@[k] < self.nodes@.len(),
                ordering::as_positions(found@) == order.take(i as int).filter(keep),
            decreases recent@.len() - i,
        {
            let p: usize = recent[i];
            let ghost before = ordering::as_positions(found@);
            proof {
                lists::lemma_filter_take(order, keep, i as int);
                assert(order[i as int] == p);
                assert(all[p as int] == self.nodes@[p as int].deep_view());
            }
            if needs_synthesis(&self.nodes[p]) {
                found.push(p);
                assert(ordering::as_positions(found@) =~= before.push(p as int));
            }
            i += 1;
        }
        assert(order.take(order.len() as int) =~= order);
        let ghost whole = ordering::as_positions(found@);
        if found.len() > limit {
            found.truncate(limit);
            assert(ordering::as_positions(found@) =~= whole.take(limit as int));
        }
        assert(ordering::as_positions(found@) == lists::limited(whole, limit as nat));
        let now = clock::now_rfc3339();
        let out = self.collect_nodes(&found, now.as_str());
        assert(out.deep_view() == self.deep_view().stale(limit as nat, now@));
        out
    }

    /// Returns [(title, node_type)], the most recently updated first.
    /// Used by consolidation to provide entity context in the extraction prompt.
    pub fn list_entity_slugs(&self, limit: usize) -> (r: Vec<(String, String)>)
        ensures
            r.deep_view() == self.deep_view().entity_slugs(limit as nat),
    {
        let ghost all = self.deep_view().nodes;
        let recent = self.by_recency();
        let n: usize = if recent.len() <= limit { recent.len() } else { limit };
        let ghost whole = self.deep_view().entity_slugs(limit as nat);
        let mut out: Vec<(String, String)> = Vec::new();
        let mut i: usize = 0;
        while i < n
            invariant
                i <= n <= recent@.len(),
                n == whole.len(),
                all == self.deep_view().nodes,
                ordering::as_positions(recent@) == recency(all),
                whole == self.deep_view().entity_slugs(limit as nat),
                forall|k: int| 0 <= k < recent@.len() ==> #[trigger] recent@[k] < self.nodes@.len(),
                out.deep_view() == whole.take(i as int),
            decreases n - i,
        {
            let ghost before = out.deep_view();
            let p: usize = recent[i];
            proof {
                assert(ordering::as_positions(recent@)[i as int] == p);
                assert(lists::limited(recency(all), limit as nat)[i as int] == p);
                assert(all[p as int] == self.nodes@[p as int].deep_view());
                assert(whole[i as int] == (all[p as int].title, all[p as int].node_type));
            }
            out.push((self.nodes[p].title.clone(), self.nodes[p].node_type.clone()));
            assert(out.deep_view() =~= before.push(whole[i as int]));
            i += 1;
            assert(out.deep_view() =~= whole.take(i as int));
        }
        assert(whole.take(whole.len() as int) =~= whole);
        out
    }
}

} // verus!
