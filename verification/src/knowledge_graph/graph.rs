//! The tables of the graph and the changes to them.
use crate::knowledge_graph::names;
use crate::knowledge_graph::rows::EdgeView;
use crate::knowledge_graph::rows::ErrorView;
use crate::knowledge_graph::rows::EventView;
use crate::knowledge_graph::rows::GraphError;
use crate::knowledge_graph::rows::KnowledgeEdge;
use crate::knowledge_graph::rows::NodeEvent;
use crate::knowledge_graph::rows::NodeRow;
use crate::knowledge_graph::rows::NodeRowView;
use crate::render;
use crate::text;
use vstd::prelude::*;

verus! {

/// The tables of a knowledge graph.
#[derive(Debug)]
pub struct KnowledgeGraph {
    pub nodes: Vec<NodeRow>,
    pub edges: Vec<KnowledgeEdge>,
    pub events: Vec<NodeEvent>,
    pub max_nodes: usize,
}

/// What the tables hold.
#[verifier::ext_equal]
pub ghost struct GraphView {
    pub nodes: Seq<NodeRowView>,
    pub edges: Seq<EdgeView>,
    pub events: Seq<EventView>,
    pub max_nodes: nat,
}

impl DeepView for KnowledgeGraph {
    type V = GraphView;

    open spec fn deep_view(&self) -> GraphView {
        GraphView {
            nodes: self.nodes.deep_view(),
            edges: self.edges.deep_view(),
            events: self.events.deep_view(),
            max_nodes: self.max_nodes as nat,
        }
    }
}

// ---------------------------------------------------------------------------
// Keys and references
// ---------------------------------------------------------------------------

/// The first node with an identifier.
pub open spec fn lookup(nodes: Seq<NodeRowView>, id: Seq<char>) -> Option<NodeRowView>
    decreases nodes.len(),
{
    if nodes.len() == 0 {
        None
    } else if lookup(nodes.drop_last(), id) is Some {
        lookup(nodes.drop_last(), id)
    } else if nodes.last().id == id {
        Some(nodes.last())
    } else {
        None
    }
}

/// Whether a node with an identifier exists.
pub open spec fn has_node(nodes: Seq<NodeRowView>, id: Seq<char>) -> bool {
    exists|i: int| 0 <= i < nodes.len() && (#[trigger] nodes[i]).id == id
}

/// Whether an event with an identifier exists.
pub open spec fn has_event(events: Seq<EventView>, id: Seq<char>) -> bool {
    exists|i: int| 0 <= i < events.len() && (#[trigger] events[i]).id == id
}

impl GraphView {
    /// The keys of the tables are unique, and edges and events refer to nodes that exist.
    pub open spec fn wf(self) -> bool {
        &&& forall|i: int, j: int|
            0 <= i < j < self.nodes.len() ==> (#[trigger] self.nodes[i]).id != (
            #[trigger] self.nodes[j]).id
        &&& forall|i: int, j: int|
            0 <= i < j < self.edges.len() ==> #[trigger] self.edges[i] != #[trigger] self.edges[j]
        &&& forall|i: int|
            0 <= i < self.edges.len() ==> has_node(self.nodes, (#[trigger] self.edges[i]).from_id)
                && has_node(self.nodes, self.edges[i].to_id)
        &&& forall|i: int, j: int|
            0 <= i < j < self.events.len() ==> (#[trigger] self.events[i]).id != (
            #[trigger] self.events[j]).id
        &&& forall|i: int|
            0 <= i < self.events.len() ==> has_node(self.nodes, (#[trigger] self.events[i]).node_id)
    }
}

/// A node is found exactly if one with that identifier exists, and what is found has it.
pub proof fn lemma_lookup(nodes: Seq<NodeRowView>, id: Seq<char>)
    ensures
        lookup(nodes, id) is Some <==> has_node(nodes, id),
        lookup(nodes, id) matches Some(row) ==> row.id == id && nodes.contains(row),
    decreases nodes.len(),
{
    if nodes.len() > 0 {
        let front = nodes.drop_last();
        lemma_lookup(front, id);
        if has_node(front, id) {
            let i = choose|i: int| 0 <= i < front.len() && (#[trigger] front[i]).id == id;
            assert(nodes[i].id == id);
            let row = lookup(front, id)->0;
            let k = choose|k: int| 0 <= k < front.len() && front[k] == row;
            assert(nodes[k] == row);
        } else {
            if nodes.last().id == id {
                assert(nodes[nodes.len() - 1].id == id);
                assert(nodes.contains(nodes[nodes.len() - 1]));
            }
            if has_node(nodes, id) {
                let i = choose|i: int| 0 <= i < nodes.len() && (#[trigger] nodes[i]).id == id;
                if i < front.len() {
                    assert(front[i].id == id);
                }
            }
        }
    }
}

/// Looking up the identifier of a row finds that row, where identifiers are unique.
pub proof fn lemma_lookup_at(nodes: Seq<NodeRowView>, i: int)
    requires
        0 <= i < nodes.len(),
        forall|k: int| 0 <= k < i ==> (#[trigger] nodes[k]).id != nodes[i].id,
    ensures
        lookup(nodes, nodes[i].id) == Some(nodes[i]),
    decreases nodes.len(),
{
    let front = nodes.drop_last();
    if i < front.len() {
        assert forall|k: int| 0 <= k < i implies (#[trigger] front[k]).id != front[i].id by {
            assert(front[k] == nodes[k]);
        }
        lemma_lookup_at(front, i);
    } else {
        lemma_lookup(front, nodes[i].id);
        if has_node(front, nodes[i].id) {
            let k = choose|k: int| 0 <= k < front.len() && (#[trigger] front[k]).id == nodes[i].id;
            assert(nodes[k].id == nodes[i].id);
        }
    }
}

/// A new row leaves the others where they are.
proof fn lemma_has_node_push(nodes: Seq<NodeRowView>, row: NodeRowView)
    ensures
        forall|id: Seq<char>| #[trigger] has_node(nodes, id) ==> has_node(nodes.push(row), id),
        has_node(nodes.push(row), row.id),
{
    assert forall|id: Seq<char>| #[trigger] has_node(nodes, id) implies has_node(
        nodes.push(row),
        id,
    ) by {
        let i = choose|i: int| 0 <= i < nodes.len() && (#[trigger] nodes[i]).id == id;
        assert(nodes.push(row)[i].id == id);
    }
    assert(nodes.push(row)[nodes.len() as int].id == row.id);
}

// ---------------------------------------------------------------------------
// What the changes do
// ---------------------------------------------------------------------------

/// The first tag that holds a comma.
pub open spec fn comma_tag(tags: Seq<Seq<char>>) -> Option<Seq<char>>
    decreases tags.len(),
{
    if tags.len() == 0 {
        None
    } else if comma_tag(tags.drop_last()) is Some {
        comma_tag(tags.drop_last())
    } else if tags.last().contains(',') {
        Some(tags.last())
    } else {
        None
    }
}

/// A row for a new node.
pub open spec fn new_row(
    id: Seq<char>,
    now: Seq<char>,
    node_type: Seq<char>,
    title: Seq<char>,
    content: Seq<char>,
    tags: Seq<Seq<char>>,
    source_project: Option<Seq<char>>,
) -> NodeRowView {
    NodeRowView {
        id,
        node_type: names::slug(node_type),
        title,
        content,
        tags: render::joined(tags, ","@),
        created_at: now,
        updated_at: now,
        source_project,
        synthesis: None,
        synthesis_at: None,
        embedding: None,
    }
}

impl GraphView {
    /// A row is added to the node table, unless its identifier is taken.
    pub open spec fn row_added(self, row: NodeRowView) -> Result<GraphView, ErrorView> {
        if has_node(self.nodes, row.id) {
            Err(ErrorView::DuplicateId(row.id))
        } else {
            Ok(GraphView { nodes: self.nodes.push(row), ..self })
        }
    }

    /// A node is added, unless the graph is full, a tag holds a comma or the identifier is taken.
    pub open spec fn node_added(self, row: NodeRowView, tags: Seq<Seq<char>>) -> Result<
        GraphView,
        ErrorView,
    > {
        if self.nodes.len() >= self.max_nodes {
            Err(ErrorView::NodeLimitReached { count: self.nodes.len(), max: self.max_nodes })
        } else if comma_tag(tags) is Some {
            Err(ErrorView::TagContainsComma(comma_tag(tags)->0))
        } else {
            self.row_added(row)
        }
    }

    /// An edge is added, unless it is there or one of its ends does not exist.
    pub open spec fn edge_added(self, edge: EdgeView) -> Result<GraphView, ErrorView> {
        if !has_node(self.nodes, edge.from_id) {
            Err(ErrorView::SourceNotFound(edge.from_id))
        } else if !has_node(self.nodes, edge.to_id) {
            Err(ErrorView::TargetNotFound(edge.to_id))
        } else if self.edges.contains(edge) {
            Ok(self)
        } else {
            Ok(GraphView { edges: self.edges.push(edge), ..self })
        }
    }

    /// An event is written to the event table, unless its node does not exist or its identifier
    /// is taken.
    pub open spec fn event_written(self, event: EventView) -> Result<GraphView, ErrorView> {
        if !has_node(self.nodes, event.node_id) {
            Err(ErrorView::UnknownNode(event.node_id))
        } else if has_event(self.events, event.id) {
            Err(ErrorView::DuplicateId(event.id))
        } else {
            Ok(GraphView { events: self.events.push(event), ..self })
        }
    }

    /// An event is added to its node's timeline. The node was updated at the time of the event,
    /// and is stale from then on.
    pub open spec fn event_added(self, event: EventView) -> Result<GraphView, ErrorView> {
        match self.event_written(event) {
            Ok(g) => Ok(
                GraphView { nodes: staled(g.nodes, event.node_id, event.created_at), ..g },
            ),
            Err(e) => Err(e),
        }
    }

    /// The synthesis of a node is replaced; nothing happens if the node does not exist.
    pub open spec fn synthesis_updated(
        self,
        node_id: Seq<char>,
        synthesis: Seq<char>,
        now: Seq<char>,
        embedding: Option<Seq<u8>>,
    ) -> GraphView {
        GraphView { nodes: synthesized(self.nodes, node_id, synthesis, now, embedding), ..self }
    }
}

/// The rows with that of one node marked stale and updated.
pub open spec fn staled(nodes: Seq<NodeRowView>, id: Seq<char>, stamp: Seq<char>) -> Seq<
    NodeRowView,
> {
    nodes.map_values(
        |row: NodeRowView|
            if row.id == id {
                NodeRowView { synthesis_at: None, updated_at: stamp, ..row }
            } else {
                row
            },
    )
}

/// The rows with the synthesis of one node replaced.
pub open spec fn synthesized(
    nodes: Seq<NodeRowView>,
    id: Seq<char>,
    synthesis: Seq<char>,
    now: Seq<char>,
    embedding: Option<Seq<u8>>,
) -> Seq<NodeRowView> {
    nodes.map_values(
        |row: NodeRowView|
            if row.id == id {
                NodeRowView {
                    synthesis: Some(synthesis),
                    synthesis_at: Some(now),
                    embedding,
                    ..row
                }
            } else {
                row
            },
    )
}

/// The bytes of 32-bit words, the least significant byte of each first.
pub open spec fn little_endian(words: Seq<u32>) -> Seq<u8>
    decreases words.len(),
{
    if words.len() == 0 {
        Seq::empty()
    } else {
        little_endian(words.drop_last()) + vstd::bytes::spec_u32_to_le_bytes(words.last())
    }
}

/// The stored form of an embedding.
pub open spec fn embedding_bytes(embedding: Option<Vec<u32>>) -> Option<Seq<u8>> {
    match embedding {
        Some(words) => Some(little_endian(words@)),
        None => None,
    }
}

/// The bytes of 32-bit words, the least significant byte of each first.
pub fn to_little_endian(words: &Vec<u32>) -> (r: Vec<u8>)
    ensures
        r@ == little_endian(words@),
{
    let mut out: Vec<u8> = Vec::new();
    let mut i: usize = 0;
    assert(words@.take(0) =~= Seq::empty());
    while i < words.len()
        invariant
            i <= words@.len(),
            out@ == little_endian(words@.take(i as int)),
        decreases words@.len() - i,
    {
        assert(words@.take(i + 1).drop_last() =~= words@.take(i as int));
        let mut part = vstd::bytes::u32_to_le_bytes(words[i]);
        out.append(&mut part);
        i += 1;
    }
    assert(words@.take(words@.len() as int) =~= words@);
    out
}

/// The first tag that holds a comma.
pub fn find_comma_tag(tags: &Vec<String>) -> (r: Option<String>)
    ensures
        r.deep_view() == comma_tag(tags.deep_view()),
{
    let ghost all = tags.deep_view();
    let mut i: usize = 0;
    assert(all.take(0) =~= Seq::empty());
    while i < tags.len()
        invariant
            i <= tags@.len(),
            all == tags.deep_view(),
            comma_tag(all.take(i as int)) is None,
        decreases tags@.len() - i,
    {
        proof {
            assert(all.take(i + 1).drop_last() =~= all.take(i as int));
            assert(all.take(i + 1).last() == tags@[i as int]@);
        }
        if render::contains_char(tags[i].as_str(), ',') {
            proof {
                lemma_comma_tag_stays(all, i + 1);
            }
            return Some(tags[i].clone());
        }
        i += 1;
    }
    assert(all.take(all.len() as int) =~= all);
    None
}

proof fn lemma_comma_tag_stays(tags: Seq<Seq<char>>, n: int)
    requires
        0 <= n <= tags.len(),
        comma_tag(tags.take(n)) is Some,
    ensures
        comma_tag(tags) == comma_tag(tags.take(n)),
    decreases tags.len(),
{
    if n == tags.len() {
        assert(tags.take(n) =~= tags);
    } else {
        assert(tags.drop_last().take(n) =~= tags.take(n));
        lemma_comma_tag_stays(tags.drop_last(), n);
    }
}

// ---------------------------------------------------------------------------
// The changes
// ---------------------------------------------------------------------------

impl KnowledgeGraph {
    /// An empty graph that holds at most `max_nodes` nodes.
    pub fn new(max_nodes: usize) -> (r: KnowledgeGraph)
        ensures
            r.deep_view() == (GraphView {
                nodes: Seq::empty(),
                edges: Seq::empty(),
                events: Seq::empty(),
                max_nodes: max_nodes as nat,
            }),
            r.deep_view().wf(),
    {
        let r = KnowledgeGraph {
            nodes: Vec::new(),
            edges: Vec::new(),
            events: Vec::new(),
            max_nodes,
        };
        assert(r.nodes.deep_view() =~= Seq::empty());
        assert(r.edges.deep_view() =~= Seq::empty());
        assert(r.events.deep_view() =~= Seq::empty());
        r
    }

    /// Where the first node with an identifier stands.
    pub fn position_of(&self, id: &str) -> (r: Option<usize>)
        ensures
            match r {
                Some(i) => i < self.nodes@.len() && self.deep_view().nodes[i as int].id == id@ && (
                forall|k: int|
                    0 <= k < i ==> (#[trigger] self.deep_view().nodes[k]).id != id@) && lookup(
                    self.deep_view().nodes,
                    id@,
                ) == Some(self.deep_view().nodes[i as int]),
                None => !has_node(self.deep_view().nodes, id@) && lookup(
                    self.deep_view().nodes,
                    id@,
                ) is None,
            },
    {
        let ghost all = self.deep_view().nodes;
        let mut i: usize = 0;
        while i < self.nodes.len()
            invariant
                i <= self.nodes@.len(),
                all == self.deep_view().nodes,
                forall|k: int| 0 <= k < i ==> (#[trigger] all[k]).id != id@,
            decreases self.nodes@.len() - i,
        {
            assert(all[i as int] == self.nodes@[i as int].deep_view());
            if text::same(self.nodes[i].id.as_str(), id) {
                proof {
                    lemma_lookup_at(all, i as int);
                }
                return Some(i);
            }
            i += 1;
        }
        proof {
            lemma_lookup(all, id@);
        }
        None
    }

    /// Whether an event with an identifier exists.
    fn knows_event(&self, id: &str) -> (r: bool)
        ensures
            r == has_event(self.deep_view().events, id@),
    {
        let ghost all = self.deep_view().events;
        let mut i: usize = 0;
        while i < self.events.len()
            invariant
                i <= self.events@.len(),
                all == self.deep_view().events,
                forall|k: int| 0 <= k < i ==> (#[trigger] all[k]).id != id@,
            decreases self.events@.len() - i,
        {
            assert(all[i as int] == self.events@[i as int].deep_view());
            if text::same(self.events[i].id.as_str(), id) {
                return true;
            }
            i += 1;
        }
        false
    }

    /// Whether an edge is in the table.
    fn knows_edge(&self, edge: &KnowledgeEdge) -> (r: bool)
        ensures
            r == self.deep_view().edges.contains(edge.deep_view()),
    {
        let ghost all = self.deep_view().edges;
        let mut i: usize = 0;
        while i < self.edges.len()
            invariant
                i <= self.edges@.len(),
                all == self.deep_view().edges,
                forall|k: int| 0 <= k < i ==> #[trigger] all[k] != edge.deep_view(),
            decreases self.edges@.len() - i,
        {
            assert(all[i as int] == self.edges@[i as int].deep_view());
            let e = &self.edges[i];
            if text::same(e.from_id.as_str(), edge.from_id.as_str()) && text::same(
                e.to_id.as_str(),
                edge.to_id.as_str(),
            ) && text::same(e.relation.as_str(), edge.relation.as_str()) {
                assert(all[i as int] == edge.deep_view());
                return true;
            }
            i += 1;
        }
        false
    }

    /// Add a row to the node table as it is, as when the tables are read from a store.
    pub fn restore_node(&mut self, row: NodeRow) -> (r: Result<(), GraphError>)
        requires
            old(self).deep_view().wf(),
        ensures
            final(self).deep_view().wf(),
            match old(self).deep_view().row_added(row.deep_view()) {
                Ok(g) => r is Ok && final(self).deep_view() == g,
                Err(e) => r matches Err(x) && x.deep_view() == e && final(self).deep_view() == old(
                    self,
                ).deep_view(),
            },
    {
        let ghost before = self.deep_view();
        if self.position_of(row.id.as_str()).is_some() {
            proof {
                lemma_lookup(before.nodes, row.id@);
            }
            return Err(GraphError::DuplicateId(row.id));
        }
        let ghost added = row.deep_view();
        self.nodes.push(row);
        proof {
            assert(self.nodes.deep_view() =~= before.nodes.push(added));
            lemma_has_node_push(before.nodes, added);
        }
        Ok(())
    }

    /// Add an edge to the table as it is, as when the tables are read from a store.
    pub fn restore_edge(&mut self, edge: KnowledgeEdge) -> (r: Result<(), GraphError>)
        requires
            old(self).deep_view().wf(),
        ensures
            final(self).deep_view().wf(),
            match old(self).deep_view().edge_added(edge.deep_view()) {
                Ok(g) => r is Ok && final(self).deep_view() == g,
                Err(e) => r matches Err(x) && x.deep_view() == e && final(self).deep_view() == old(
                    self,
                ).deep_view(),
            },
    {
        let ghost before = self.deep_view();
        proof {
            lemma_lookup(before.nodes, edge.from_id@);
            lemma_lookup(before.nodes, edge.to_id@);
        }
        if self.position_of(edge.from_id.as_str()).is_none() {
            return Err(GraphError::SourceNotFound(edge.from_id));
        }
        if self.position_of(edge.to_id.as_str()).is_none() {
            return Err(GraphError::TargetNotFound(edge.to_id));
        }
        if self.knows_edge(&edge) {
            return Ok(());
        }
        let ghost added = edge.deep_view();
        self.edges.push(edge);
        assert(self.edges.deep_view() =~= before.edges.push(added));
        Ok(())
    }

    /// Add an event to the table as it is, as when the tables are read from a store.
    pub fn restore_event(&mut self, event: NodeEvent) -> (r: Result<(), GraphError>)
        requires
            old(self).deep_view().wf(),
        ensures
            final(self).deep_view().wf(),
            match old(self).deep_view().event_written(event.deep_view()) {
                Ok(g) => r is Ok && final(self).deep_view() == g,
                Err(e) => r matches Err(x) && x.deep_view() == e && final(self).deep_view() == old(
                    self,
                ).deep_view(),
            },
    {
        let ghost before = self.deep_view();
        proof {
            lemma_lookup(before.nodes, event.node_id@);
        }
        if self.position_of(event.node_id.as_str()).is_none() {
            return Err(GraphError::UnknownNode(event.node_id));
        }
        if self.knows_event(event.id.as_str()) {
            return Err(GraphError::DuplicateId(event.id));
        }
        let ghost added = event.deep_view();
        self.events.push(event);
        assert(self.events.deep_view() =~= before.events.push(added));
        Ok(())
    }
}

} // verus!
