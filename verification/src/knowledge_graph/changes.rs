//! Adding nodes, edges, events and syntheses.
use crate::clock;
use crate::knowledge_graph::graph;
use crate::knowledge_graph::graph::GraphView;
use crate::knowledge_graph::graph::KnowledgeGraph;
use crate::knowledge_graph::names;
use crate::knowledge_graph::rows::EdgeView;
use crate::knowledge_graph::rows::ErrorView;
use crate::knowledge_graph::rows::EventView;
use crate::knowledge_graph::rows::GraphError;
use crate::knowledge_graph::rows::KnowledgeEdge;
use crate::knowledge_graph::rows::NodeEvent;
use crate::knowledge_graph::rows::NodeRow;
use crate::knowledge_graph::rows::NodeRowView;
use crate::render;
use crate::text;
use vstd::prelude::*;

verus! {

/// Whether a change went as planned: the graph became what was planned, or it stayed as it was and
/// the planned refusal was given.
pub open spec fn went<T>(
    before: GraphView,
    planned: Result<GraphView, ErrorView>,
    after: GraphView,
    answer: Result<T, GraphError>,
) -> bool {
    match planned {
        Ok(g) => answer is Ok && after == g,
        Err(e) => answer matches Err(x) && x.deep_view() == e && after == before,
    }
}

/// The first node with a title.
pub open spec fn titled(nodes: Seq<NodeRowView>, title: Seq<char>) -> Option<NodeRowView>
    decreases nodes.len(),
{
    if nodes.len() == 0 {
        None
    } else if titled(nodes.drop_last(), title) is Some {
        titled(nodes.drop_last(), title)
    } else if nodes.last().title == title {
        Some(nodes.last())
    } else {
        None
    }
}

/// The first node whose title, normalized, is a slug.
pub open spec fn slugged(nodes: Seq<NodeRowView>, slug: Seq<char>) -> Option<NodeRowView>
    decreases nodes.len(),
{
    if nodes.len() == 0 {
        None
    } else if slugged(nodes.drop_last(), slug) is Some {
        slugged(nodes.drop_last(), slug)
    } else if names::slug(nodes.last().title) == slug {
        Some(nodes.last())
    } else {
        None
    }
}

/// The node that a normalized slug stands for: the first one with the slug for its title, or else
/// the first one whose title is another spelling of the slug.
pub open spec fn named(nodes: Seq<NodeRowView>, slug: Seq<char>) -> Option<NodeRowView> {
    match titled(nodes, slug) {
        Some(row) => Some(row),
        None => slugged(nodes, slug),
    }
}

/// What looking for a slug comes to: the graph, the identifier of the node that the slug stands
/// for, and whether it was created, with the given title.
pub open spec fn found_or_created(
    g: GraphView,
    slug: Seq<char>,
    node_type: Seq<char>,
    title: Seq<char>,
    content: Seq<char>,
    id: Seq<char>,
    now: Seq<char>,
) -> Result<(GraphView, Seq<char>, bool), ErrorView> {
    match named(g.nodes, names::slug(slug)) {
        Some(row) => Ok((g, row.id, false)),
        None => match g.node_added(
            graph::new_row(
                id,
                now,
                names::slug(node_type),
                title,
                content,
                Seq::empty(),
                None,
            ),
            Seq::empty(),
        ) {
            Ok(after) => Ok((after, id, true)),
            Err(e) => Err(e),
        },
    }
}

/// Whether looking for a slug went as planned: the graph and the answer are those planned, or the
/// graph stayed as it was and the planned refusal was given.
pub open spec fn found_as(
    before: GraphView,
    planned: Result<(GraphView, Seq<char>, bool), ErrorView>,
    after: GraphView,
    answer: Result<(String, bool), GraphError>,
) -> bool {
    match planned {
        Ok((g, id, created)) => answer matches Ok(found) && found.0@ == id && found.1 == created
            && after == g,
        Err(e) => answer matches Err(x) && x.deep_view() == e && after == before,
    }
}

/// Equal slugs are the same entity: once a slug was found, or created with a title that is the slug
/// or another spelling of it, looking for it again, however it is written, gives the same node,
/// creates none and leaves the graph as it is.
pub proof fn law_same_slug_is_the_same_node(
    g: GraphView,
    slug: Seq<char>,
    again: Seq<char>,
    node_type: Seq<char>,
    other_type: Seq<char>,
    title: Seq<char>,
    other_title: Seq<char>,
    content: Seq<char>,
    other_content: Seq<char>,
    id: Seq<char>,
    other_id: Seq<char>,
    now: Seq<char>,
    later: Seq<char>,
)
    requires
        names::slug(again) == names::slug(slug),
        found_or_created(g, slug, node_type, title, content, id, now) matches Ok(found) && (
        found.2 ==> title == names::slug(slug) || names::slug(title) == names::slug(slug)),
    ensures
        ({
            let (after, found, created) = found_or_created(
                g,
                slug,
                node_type,
                title,
                content,
                id,
                now,
            )->Ok_0;
            found_or_created(
                after,
                again,
                other_type,
                other_title,
                other_content,
                other_id,
                later,
            ) == Ok::<(GraphView, Seq<char>, bool), ErrorView>((after, found, false))
        }),
{
    if named(g.nodes, names::slug(slug)) is None {
        let after = found_or_created(g, slug, node_type, title, content, id, now)->Ok_0.0;
        assert(after.nodes.drop_last() =~= g.nodes);
    }
}

proof fn lemma_titled_stays(nodes: Seq<NodeRowView>, n: int, title: Seq<char>)
    requires
        0 <= n <= nodes.len(),
        titled(nodes.take(n), title) is Some,
    ensures
        titled(nodes, title) == titled(nodes.take(n), title),
    decreases nodes.len(),
{
    if n == nodes.len() {
        assert(nodes.take(n) =~= nodes);
    } else {
        assert(nodes.drop_last().take(n) =~= nodes.take(n));
        lemma_titled_stays(nodes.drop_last(), n, title);
    }
}

proof fn lemma_slugged_stays(nodes: Seq<NodeRowView>, n: int, slug: Seq<char>)
    requires
        0 <= n <= nodes.len(),
        slugged(nodes.take(n), slug) is Some,
    ensures
        slugged(nodes, slug) == slugged(nodes.take(n), slug),
    decreases nodes.len(),
{
    if n == nodes.len() {
        assert(nodes.take(n) =~= nodes);
    } else {
        assert(nodes.drop_last().take(n) =~= nodes.take(n));
        lemma_slugged_stays(nodes.drop_last(), n, slug);
    }
}

/// Marking the only row with an identifier stale is marking that row.
proof fn lemma_staled_is_update(nodes: Seq<NodeRowView>, i: int, stamp: Seq<char>)
    requires
        0 <= i < nodes.len(),
        forall|a: int, b: int|
            0 <= a < b < nodes.len() ==> (#[trigger] nodes[a]).id != (#[trigger] nodes[b]).id,
    ensures
        graph::staled(nodes, nodes[i].id, stamp) == nodes.update(
            i,
            (NodeRowView { synthesis_at: None, updated_at: stamp, ..nodes[i] }),
        ),
{
    assert(graph::staled(nodes, nodes[i].id, stamp) =~= nodes.update(
        i,
        (NodeRowView { synthesis_at: None, updated_at: stamp, ..nodes[i] }),
    ));
}

/// Replacing the synthesis of the only row with an identifier is replacing that of this row.
proof fn lemma_synthesized_is_update(
    nodes: Seq<NodeRowView>,
    i: int,
    synthesis: Seq<char>,
    now: Seq<char>,
    embedding: Option<Seq<u8>>,
)
    requires
        0 <= i < nodes.len(),
        forall|a: int, b: int|
            0 <= a < b < nodes.len() ==> (#[trigger] nodes[a]).id != (#[trigger] nodes[b]).id,
    ensures
        graph::synthesized(nodes, nodes[i].id, synthesis, now, embedding) == nodes.update(
            i,
            (NodeRowView {
                synthesis: Some(synthesis),
                synthesis_at: Some(now),
                embedding,
                ..nodes[i]
            }),
        ),
{
    assert(graph::synthesized(nodes, nodes[i].id, synthesis, now, embedding) =~= nodes.update(
        i,
        (NodeRowView { synthesis: Some(synthesis), synthesis_at: Some(now), embedding, ..nodes[i] }),
    ));
}

/// Changing rows without their identifiers leaves the graph well-formed.
pub proof fn lemma_wf_same_ids(g: GraphView, nodes: Seq<NodeRowView>)
    requires
        g.wf(),
        nodes.len() == g.nodes.len(),
        forall|i: int| 0 <= i < nodes.len() ==> (#[trigger] nodes[i]).id == g.nodes[i].id,
    ensures
        (GraphView { nodes, ..g }).wf(),
{
    assert forall|id: Seq<char>| #[trigger] graph::has_node(g.nodes, id) implies graph::has_node(
        nodes,
        id,
    ) by {
        let k = choose|k: int| 0 <= k < g.nodes.len() && (#[trigger] g.nodes[k]).id == id;
        assert(nodes[k].id == id);
    }
    assert forall|i: int, j: int| 0 <= i < j < nodes.len() implies (#[trigger] nodes[i]).id != (
    #[trigger] nodes[j]).id by {
        assert(g.nodes[i].id != g.nodes[j].id);
    }
}

impl KnowledgeGraph {
    /// Add a node under a given identifier and time.
    pub fn add_node_with(
        &mut self,
        id: String,
        now: &str,
        node_type: &str,
        title: &str,
        content: &str,
        tags: &Vec<String>,
        source_project: Option<String>,
    ) -> (r: Result<String, GraphError>)
        requires
            old(self).deep_view().wf(),
        ensures
            final(self).deep_view().wf(),
            went(
                old(self).deep_view(),
                old(self).deep_view().node_added(
                    graph::new_row(
                        id@,
                        now@,
                        node_type@,
                        title@,
                        content@,
                        tags.deep_view(),
                        source_project.deep_view(),
                    ),
                    tags.deep_view(),
                ),
                final(self).deep_view(),
                r,
            ),
            r matches Ok(given) ==> given@ == id@,
    {
        let count: usize = self.nodes.len();
        if count >= self.max_nodes {
            return Err(GraphError::NodeLimitReached { count, max: self.max_nodes });
        }
        match graph::find_comma_tag(tags) {
            Some(tag) => {
                return Err(GraphError::TagContainsComma(tag));
            },
            None => {},
        }
        let given = id.clone();
        let row = NodeRow {
            id,
            node_type: names::normalize_type(node_type),
            title: title.to_owned(),
            content: content.to_owned(),
            tags: render::join(tags, ","),
            created_at: now.to_owned(),
            updated_at: now.to_owned(),
            source_project,
            synthesis: None,
            synthesis_at: None,
            embedding: None,
        };
        match self.restore_node(row) {
            Ok(()) => Ok(given),
            Err(e) => Err(e),
        }
    }

    /// Add a node to the graph. Returns the generated node id.
    /// `node_type` is normalized to lowercase + underscores automatically.
    pub fn add_node(
        &mut self,
        node_type: &str,
        title: &str,
        content: &str,
        tags: &Vec<String>,
        source_project: Option<String>,
    ) -> (r: Result<String, GraphError>)
        requires
            old(self).deep_view().wf(),
        ensures
            final(self).deep_view().wf(),
            exists|id: Seq<char>, now: Seq<char>|
                {
                    &&& clock::is_identifier(id)
                    &&& clock::is_stamp(now)
                    &&& went(
                        old(self).deep_view(),
                        old(self).deep_view().node_added(
                            #[trigger] graph::new_row(
                                id,
                                now,
                                node_type@,
                                title@,
                                content@,
                                tags.deep_view(),
                                source_project.deep_view(),
                            ),
                            tags.deep_view(),
                        ),
                        final(self).deep_view(),
                        r,
                    )
                    &&& r matches Ok(given) ==> given@ == id
                },
    {
        let now = clock::now_rfc3339();
        self.add_node_with(
            clock::new_id(),
            now.as_str(),
            node_type,
            title,
            content,
            tags,
            source_project,
        )
    }

    /// Add a directed edge between two nodes. An edge that exists is left as it is.
    /// `relation` is normalized to lowercase + underscores automatically.
    pub fn add_edge(&mut self, from_id: &str, to_id: &str, relation: &str) -> (r: Result<
        (),
        GraphError,
    >)
        requires
            old(self).deep_view().wf(),
        ensures
            final(self).deep_view().wf(),
            went(
                old(self).deep_view(),
                old(self).deep_view().edge_added(
                    (EdgeView {
                        from_id: from_id@,
                        to_id: to_id@,
                        relation: names::slug(relation@),
                    }),
                ),
                final(self).deep_view(),
                r,
            ),
    {
        self.restore_edge(
            KnowledgeEdge {
                from_id: from_id.to_owned(),
                to_id: to_id.to_owned(),
                relation: names::normalize_type(relation),
            },
        )
    }

    /// Append an event under a given identifier and time.
    pub fn add_event_with(
        &mut self,
        id: String,
        now: &str,
        node_id: &str,
        content: &str,
        source_message_id: Option<String>,
        session_id: Option<String>,
    ) -> (r: Result<String, GraphError>)
        requires
            old(self).deep_view().wf(),
        ensures
            final(self).deep_view().wf(),
            went(
                old(self).deep_view(),
                old(self).deep_view().event_added(
                    (EventView {
                        id: id@,
                        node_id: node_id@,
                        content: content@,
                        source_message_id: source_message_id.deep_view(),
                        session_id: session_id.deep_view(),
                        created_at: now@,
                    }),
                ),
                final(self).deep_view(),
                r,
            ),
            r matches Ok(given) ==> given@ == id@,
    {
        let given = id.clone();
        let event = NodeEvent {
            id,
            node_id: node_id.to_owned(),
            content: content.to_owned(),
            source_message_id,
            session_id,
            created_at: now.to_owned(),
        };
        match self.restore_event(event) {
            Ok(()) => {},
            Err(e) => {
                return Err(e);
            },
        }
        let ghost written = self.deep_view();
        match self.position_of(node_id) {
            Some(i) => {
                self.nodes[i].synthesis_at = None;
                self.nodes[i].updated_at = now.to_owned();
                proof {
                    lemma_staled_is_update(written.nodes, i as int, now@);
                    assert(self.nodes.deep_view() =~= graph::staled(
                        written.nodes,
                        node_id@,
                        now@,
                    ));
                    lemma_wf_same_ids(written, self.nodes.deep_view());
                }
            },
            None => {},
        }
        Ok(given)
    }

    /// Append an event to an entity's timeline. Returns the event id.
    /// Automatically marks the node stale, and updated at the time of the event.
    pub fn add_event(
        &mut self,
        node_id: &str,
        content: &str,
        source_message_id: Option<String>,
        session_id: Option<String>,
    ) -> (r: Result<String, GraphError>)
        requires
            old(self).deep_view().wf(),
        ensures
            final(self).deep_view().wf(),
            exists|id: Seq<char>, now: Seq<char>|
                {
                    &&& #[trigger] clock::is_identifier(id)
                    &&& #[trigger] clock::is_stamp(now)
                    &&& went(
                        old(self).deep_view(),
                        old(self).deep_view().event_added(
                            (EventView {
                                id,
                                node_id: node_id@,
                                content: content@,
                                source_message_id: source_message_id.deep_view(),
                                session_id: session_id.deep_view(),
                                created_at: now,
                            }),
                        ),
                        final(self).deep_view(),
                        r,
                    )
                    &&& r matches Ok(given) ==> given@ == id
                },
    {
        let now = clock::now_rfc3339();
        self.add_event_with(
            clock::new_id(),
            now.as_str(),
            node_id,
            content,
            source_message_id,
            session_id,
        )
    }

    /// Update synthesis text and embedding at a given time. The embedding is given by the bit
    /// patterns of its single-precision numbers.
    pub fn update_synthesis_with(
        &mut self,
        now: &str,
        node_id: &str,
        synthesis: &str,
        embedding: Option<Vec<u32>>,
    )
        requires
            old(self).deep_view().wf(),
        ensures
            final(self).deep_view().wf(),
            final(self).deep_view() == old(self).deep_view().synthesis_updated(
                node_id@,
                synthesis@,
                now@,
                graph::embedding_bytes(embedding),
            ),
    {
        let ghost before = self.deep_view();
        let blob: Option<Vec<u8>> = match &embedding {
            Some(words) => Some(graph::to_little_endian(words)),
            None => None,
        };
        let ghost bytes = blob.deep_view();
        proof {
            if blob is Some {
                assert(blob->0.deep_view() =~= blob->0@);
            }
        }
        match self.position_of(node_id) {
            Some(i) => {
                self.nodes[i].synthesis = Some(synthesis.to_owned());
                self.nodes[i].synthesis_at = Some(now.to_owned());
                self.nodes[i].embedding = blob;
                proof {
                    lemma_synthesized_is_update(before.nodes, i as int, synthesis@, now@, bytes);
                    assert(self.nodes.deep_view() =~= graph::synthesized(
                        before.nodes,
                        node_id@,
                        synthesis@,
                        now@,
                        bytes,
                    ));
                    lemma_wf_same_ids(before, self.nodes.deep_view());
                }
            },
            None => {
                proof {
                    assert(graph::synthesized(before.nodes, node_id@, synthesis@, now@, bytes)
                        =~= before.nodes);
                }
            },
        }
    }

    /// Update synthesis text and embedding after the dream cycle.
    pub fn update_synthesis(
        &mut self,
        node_id: &str,
        synthesis: &str,
        embedding: Option<Vec<u32>>,
    )
        requires
            old(self).deep_view().wf(),
        ensures
            final(self).deep_view().wf(),
            exists|now: Seq<char>|
                {
                    &&& #[trigger] old(self).deep_view().synthesis_updated(
                        node_id@,
                        synthesis@,
                        now,
                        graph::embedding_bytes(embedding),
                    ) == final(self).deep_view()
                    &&& clock::is_stamp(now)
                },
    {
        let now = clock::now_rfc3339();
        self.update_synthesis_with(now.as_str(), node_id, synthesis, embedding);
    }

    /// The identifier of the first node with a title.
    fn find_titled(&self, title: &str) -> (r: Option<String>)
        ensures
            match r {
                Some(id) => titled(self.deep_view().nodes, title@) matches Some(row) && id@
                    == row.id,
                None => titled(self.deep_view().nodes, title@) is None,
            },
    {
        let ghost all = self.deep_view().nodes;
        let mut i: usize = 0;
        assert(all.take(0) =~= Seq::empty());
        while i < self.nodes.len()
            invariant
                i <= self.nodes@.len(),
                all == self.deep_view().nodes,
                titled(all.take(i as int), title@) is None,
            decreases self.nodes@.len() - i,
        {
            proof {
                assert(all.take(i + 1).drop_last() =~= all.take(i as int));
                assert(all.take(i + 1).last() == self.nodes@[i as int].deep_view());
            }
            if text::same(self.nodes[i].title.as_str(), title) {
                proof {
                    lemma_titled_stays(all, i + 1, title@);
                }
                return Some(self.nodes[i].id.clone());
            }
            i += 1;
        }
        assert(all.take(all.len() as int) =~= all);
        None
    }

    /// The identifier of the first node whose title, normalized, is a slug.
    fn find_slugged(&self, slug: &str) -> (r: Option<String>)
        ensures
            match r {
                Some(id) => slugged(self.deep_view().nodes, slug@) matches Some(row) && id@
                    == row.id,
                None => slugged(self.deep_view().nodes, slug@) is None,
            },
    {
        let ghost all = self.deep_view().nodes;
        let mut i: usize = 0;
        assert(all.take(0) =~= Seq::empty());
        while i < self.nodes.len()
            invariant
                i <= self.nodes@.len(),
                all == self.deep_view().nodes,
                slugged(all.take(i as int), slug@) is None,
            decreases self.nodes@.len() - i,
        {
            proof {
                assert(all.take(i + 1).drop_last() =~= all.take(i as int));
                assert(all.take(i + 1).last() == self.nodes@[i as int].deep_view());
            }
            let normalized = names::normalize_slug(self.nodes[i].title.as_str());
            if text::same(normalized.as_str(), slug) {
                proof {
                    lemma_slugged_stays(all, i + 1, slug@);
                }
                return Some(self.nodes[i].id.clone());
            }
            i += 1;
        }
        assert(all.take(all.len() as int) =~= all);
        None
    }

    /// Find the node that a slug stands for, or create one with the given title under a given
    /// identifier and time. A node with the normalized slug for its title is found first, then one
    /// whose title is another spelling of the slug. Returns the node's identifier and whether it
    /// was created.
    pub fn find_or_create_by_slug_with(
        &mut self,
        id: String,
        now: &str,
        slug: &str,
        node_type: &str,
        title: &str,
        initial_content: &str,
    ) -> (r: Result<(String, bool), GraphError>)
        requires
            old(self).deep_view().wf(),
        ensures
            final(self).deep_view().wf(),
            found_as(
                old(self).deep_view(),
                found_or_created(
                    old(self).deep_view(),
                    slug@,
                    node_type@,
                    title@,
                    initial_content@,
                    id@,
                    now@,
                ),
                final(self).deep_view(),
                r,
            ),
    {
        let normalized = names::normalize_slug(slug);
        let ntype = names::normalize_type(node_type);
        match self.find_titled(normalized.as_str()) {
            Some(found) => {
                return Ok((found, false));
            },
            None => {},
        }
        match self.find_slugged(normalized.as_str()) {
            Some(found) => {
                return Ok((found, false));
            },
            None => {},
        }
        let no_tags: Vec<String> = Vec::new();
        assert(no_tags.deep_view() =~= Seq::empty());
        match self.add_node_with(
            id,
            now,
            ntype.as_str(),
            title,
            initial_content,
            &no_tags,
            None,
        ) {
            Ok(given) => Ok((given, true)),
            Err(e) => Err(e),
        }
    }

    /// Find the node that a slug stands for, or create one with the given title.
    /// Returns (node_id, created: bool).
    pub fn find_or_create_by_slug(
        &mut self,
        slug: &str,
        node_type: &str,
        title: &str,
        initial_content: &str,
    ) -> (r: Result<(String, bool), GraphError>)
        requires
            old(self).deep_view().wf(),
        ensures
            final(self).deep_view().wf(),
            exists|id: Seq<char>, now: Seq<char>|
                {
                    &&& clock::is_identifier(id)
                    &&& clock::is_stamp(now)
                    &&& found_as(
                        old(self).deep_view(),
                        #[trigger] found_or_created(
                            old(self).deep_view(),
                            slug@,
                            node_type@,
                            title@,
                            initial_content@,
                            id,
                            now,
                        ),
                        final(self).deep_view(),
                        r,
                    )
                },
    {
        let now = clock::now_rfc3339();
        self.find_or_create_by_slug_with(
            clock::new_id(),
            now.as_str(),
            slug,
            node_type,
            title,
            initial_content,
        )
    }
}

} // verus!
