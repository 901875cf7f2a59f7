//! Rows of the graph's tables, and what they mean.
use crate::clock;
use crate::render;
use crate::scores::Score;
use crate::text;
use vstd::prelude::*;

verus! {

// ---------------------------------------------------------------------------
// Nodes
// ---------------------------------------------------------------------------

/// A row of the node table. Tags stand in one text with commas between them, time stamps as they
/// were written.
#[derive(Debug)]
pub struct NodeRow {
    pub id: String,
    pub node_type: String,
    pub title: String,
    pub content: String,
    pub tags: String,
    pub created_at: String,
    pub updated_at: String,
    pub source_project: Option<String>,
    pub synthesis: Option<String>,
    pub synthesis_at: Option<String>,
    pub embedding: Option<Vec<u8>>,
}

/// What a row of the node table holds.
pub ghost struct NodeRowView {
    pub id: Seq<char>,
    pub node_type: Seq<char>,
    pub title: Seq<char>,
    pub content: Seq<char>,
    pub tags: Seq<char>,
    pub created_at: Seq<char>,
    pub updated_at: Seq<char>,
    pub source_project: Option<Seq<char>>,
    pub synthesis: Option<Seq<char>>,
    pub synthesis_at: Option<Seq<char>>,
    pub embedding: Option<Seq<u8>>,
}

impl DeepView for NodeRow {
    type V = NodeRowView;

    open spec fn deep_view(&self) -> NodeRowView {
        NodeRowView {
            id: self.id@,
            node_type: self.node_type@,
            title: self.title@,
            content: self.content@,
            tags: self.tags@,
            created_at: self.created_at@,
            updated_at: self.updated_at@,
            source_project: self.source_project.deep_view(),
            synthesis: self.synthesis.deep_view(),
            synthesis_at: self.synthesis_at.deep_view(),
            embedding: self.embedding.deep_view(),
        }
    }
}

/// A node in the knowledge graph.
/// `node_type` is a free-form normalized string (e.g. "person", "company", "pattern"). Time stamps
/// are in UTC, in their canonical RFC 3339 form.
#[derive(Debug)]
pub struct KnowledgeNode {
    pub id: String,
    pub node_type: String,
    pub title: String,
    pub content: String,
    pub tags: Vec<String>,
    pub created_at: String,
    pub updated_at: String,
    pub source_project: Option<String>,
    /// LLM-compiled synthesis of all entity events. None = not yet synthesized.
    pub synthesis: Option<String>,
    /// Timestamp of last synthesis. None = stale, needs re-synthesis.
    pub synthesis_at: Option<String>,
}

/// What a node holds.
pub ghost struct NodeView {
    pub id: Seq<char>,
    pub node_type: Seq<char>,
    pub title: Seq<char>,
    pub content: Seq<char>,
    pub tags: Seq<Seq<char>>,
    pub created_at: Seq<char>,
    pub updated_at: Seq<char>,
    pub source_project: Option<Seq<char>>,
    pub synthesis: Option<Seq<char>>,
    pub synthesis_at: Option<Seq<char>>,
}

impl DeepView for KnowledgeNode {
    type V = NodeView;

    open spec fn deep_view(&self) -> NodeView {
        NodeView {
            id: self.id@,
            node_type: self.node_type@,
            title: self.title@,
            content: self.content@,
            tags: self.tags.deep_view(),
            created_at: self.created_at@,
            updated_at: self.updated_at@,
            source_project: self.source_project.deep_view(),
            synthesis: self.synthesis.deep_view(),
            synthesis_at: self.synthesis_at.deep_view(),
        }
    }
}

/// The tags that a stored text lists.
pub open spec fn tags_in(stored: Seq<char>) -> Seq<Seq<char>> {
    render::trimmed_nonempty(render::split_on(stored, ','))
}

/// The canonical form of a stored time stamp, or `now` where it is none.
pub open spec fn stamp_or(stored: Seq<char>, now: Seq<char>) -> Seq<char> {
    match clock::rfc3339_in_utc(stored) {
        Some(t) => t,
        None => now,
    }
}

/// The canonical form of an optional stored time stamp, nothing where it is none.
pub open spec fn stamp_if(stored: Option<Seq<char>>) -> Option<Seq<char>> {
    match stored {
        Some(s) => clock::rfc3339_in_utc(s),
        None => None,
    }
}

/// The node that a row stands for. An unreadable time of creation or update is taken to be `now`.
pub open spec fn node_of(row: NodeRowView, now: Seq<char>) -> NodeView {
    NodeView {
        id: row.id,
        node_type: row.node_type,
        title: row.title,
        content: row.content,
        tags: tags_in(row.tags),
        created_at: stamp_or(row.created_at, now),
        updated_at: stamp_or(row.updated_at, now),
        source_project: row.source_project,
        synthesis: row.synthesis,
        synthesis_at: stamp_if(row.synthesis_at),
    }
}

fn read_stamp(stored: &str, now: &str) -> (r: String)
    ensures
        r@ == stamp_or(stored@, now@),
{
    match clock::canonical_rfc3339(stored) {
        Some(t) => t,
        None => now.to_owned(),
    }
}

fn read_optional_stamp(stored: &Option<String>) -> (r: Option<String>)
    ensures
        r.deep_view() == stamp_if(stored.deep_view()),
{
    match stored {
        Some(s) => clock::canonical_rfc3339(s.as_str()),
        None => None,
    }
}

/// The tags that a stored text lists.
pub fn read_tags(stored: &str) -> (r: Vec<String>)
    ensures
        r.deep_view() == tags_in(stored@),
{
    let parts = render::split(stored, ',');
    render::keep_trimmed(&parts)
}

/// The node that a row stands for.
pub fn row_to_node(row: &NodeRow, now: &str) -> (r: KnowledgeNode)
    ensures
        r.deep_view() == node_of(row.deep_view(), now@),
{
    KnowledgeNode {
        id: row.id.clone(),
        node_type: row.node_type.clone(),
        title: row.title.clone(),
        content: row.content.clone(),
        tags: read_tags(row.tags.as_str()),
        created_at: read_stamp(row.created_at.as_str(), now),
        updated_at: read_stamp(row.updated_at.as_str(), now),
        source_project: text::copy_option(&row.source_project),
        synthesis: text::copy_option(&row.synthesis),
        synthesis_at: read_optional_stamp(&row.synthesis_at),
    }
}

// ---------------------------------------------------------------------------
// Edges and events
// ---------------------------------------------------------------------------

/// A directed edge in the knowledge graph.
/// `relation` is a free-form normalized string (e.g. "employed_by", "uses", "extends").
#[derive(Debug)]
pub struct KnowledgeEdge {
    pub from_id: String,
    pub to_id: String,
    pub relation: String,
}

/// What an edge holds.
pub ghost struct EdgeView {
    pub from_id: Seq<char>,
    pub to_id: Seq<char>,
    pub relation: Seq<char>,
}

impl DeepView for KnowledgeEdge {
    type V = EdgeView;

    open spec fn deep_view(&self) -> EdgeView {
        EdgeView { from_id: self.from_id@, to_id: self.to_id@, relation: self.relation@ }
    }
}

impl Clone for KnowledgeEdge {
    fn clone(&self) -> (r: KnowledgeEdge)
        ensures
            r == *self,
    {
        KnowledgeEdge {
            from_id: self.from_id.clone(),
            to_id: self.to_id.clone(),
            relation: self.relation.clone(),
        }
    }
}

/// An event on an entity's timeline.
#[derive(Debug)]
pub struct NodeEvent {
    pub id: String,
    pub node_id: String,
    pub content: String,
    pub source_message_id: Option<String>,
    pub session_id: Option<String>,
    pub created_at: String,
}

/// What an event holds.
pub ghost struct EventView {
    pub id: Seq<char>,
    pub node_id: Seq<char>,
    pub content: Seq<char>,
    pub source_message_id: Option<Seq<char>>,
    pub session_id: Option<Seq<char>>,
    pub created_at: Seq<char>,
}

impl DeepView for NodeEvent {
    type V = EventView;

    open spec fn deep_view(&self) -> EventView {
        EventView {
            id: self.id@,
            node_id: self.node_id@,
            content: self.content@,
            source_message_id: self.source_message_id.deep_view(),
            session_id: self.session_id.deep_view(),
            created_at: self.created_at@,
        }
    }
}

/// The event that a stored one stands for: an unreadable time of creation is taken to be `now`.
pub open spec fn event_of(row: EventView, now: Seq<char>) -> EventView {
    EventView { created_at: stamp_or(row.created_at, now), ..row }
}

/// The event that a stored one stands for.
pub fn row_to_event(row: &NodeEvent, now: &str) -> (r: NodeEvent)
    ensures
        r.deep_view() == event_of(row.deep_view(), now@),
{
    NodeEvent {
        id: row.id.clone(),
        node_id: row.node_id.clone(),
        content: row.content.clone(),
        source_message_id: text::copy_option(&row.source_message_id),
        session_id: text::copy_option(&row.session_id),
        created_at: read_stamp(row.created_at.as_str(), now),
    }
}

// ---------------------------------------------------------------------------
// Answers
// ---------------------------------------------------------------------------

/// A search result with relevance score.
#[derive(Debug)]
pub struct SearchResult {
    pub node: KnowledgeNode,
    pub score: Score,
}

/// What a search result holds.
pub ghost struct ResultView {
    pub node: NodeView,
    pub score: Score,
}

impl DeepView for SearchResult {
    type V = ResultView;

    open spec fn deep_view(&self) -> ResultView {
        ResultView { node: self.node.deep_view(), score: self.score }
    }
}

/// Summary statistics for the knowledge graph.
#[derive(Debug)]
pub struct GraphStats {
    pub total_nodes: usize,
    pub total_edges: usize,
    pub nodes_by_type: Vec<(String, usize)>,
    pub top_tags: Vec<(String, usize)>,
}

/// Why a change to the graph was refused.
#[derive(Debug)]
pub enum GraphError {
    /// The graph holds as many nodes as it may.
    NodeLimitReached { count: usize, max: usize },
    /// A tag holds the separator of tags.
    TagContainsComma(String),
    /// An edge begins at a node that does not exist.
    SourceNotFound(String),
    /// An edge ends at a node that does not exist.
    TargetNotFound(String),
    /// A subgraph of depth zero was asked for.
    ZeroDepth,
    /// A row with that identifier exists.
    DuplicateId(String),
    /// An event is about a node that does not exist.
    UnknownNode(String),
}

/// What a refusal says.
pub ghost enum ErrorView {
    NodeLimitReached { count: nat, max: nat },
    TagContainsComma(Seq<char>),
    SourceNotFound(Seq<char>),
    TargetNotFound(Seq<char>),
    ZeroDepth,
    DuplicateId(Seq<char>),
    UnknownNode(Seq<char>),
}

impl DeepView for GraphError {
    type V = ErrorView;

    open spec fn deep_view(&self) -> ErrorView {
        match *self {
            GraphError::NodeLimitReached { count, max } => ErrorView::NodeLimitReached {
                count: count as nat,
                max: max as nat,
            },
            GraphError::TagContainsComma(t) => ErrorView::TagContainsComma(t@),
            GraphError::SourceNotFound(id) => ErrorView::SourceNotFound(id@),
            GraphError::TargetNotFound(id) => ErrorView::TargetNotFound(id@),
            GraphError::ZeroDepth => ErrorView::ZeroDepth,
            GraphError::DuplicateId(id) => ErrorView::DuplicateId(id@),
            GraphError::UnknownNode(id) => ErrorView::UnknownNode(id@),
        }
    }
}

/// The message of a refusal.
pub open spec fn error_message(e: ErrorView) -> Seq<char> {
    match e {
        ErrorView::NodeLimitReached { count, max } => "knowledge graph node limit reached ("@
            + render::decimal(count) + "/"@ + render::decimal(max) + ")"@,
        ErrorView::TagContainsComma(tag) => "tag '"@ + tag
            + "' contains a comma, which is used as the tag separator"@,
        ErrorView::SourceNotFound(id) => "source node not found: "@ + id,
        ErrorView::TargetNotFound(id) => "target node not found: "@ + id,
        ErrorView::ZeroDepth => "subgraph depth must be greater than 0"@,
        ErrorView::DuplicateId(id) => "duplicate id: "@ + id,
        ErrorView::UnknownNode(id) => "event for unknown node: "@ + id,
    }
}

impl GraphError {
    /// The message of the refusal.
    pub fn message(&self) -> (r: String)
        ensures
            r@ == error_message(self.deep_view()),
    {
        match self {
            GraphError::NodeLimitReached { count, max } => {
                let mut out = "knowledge graph node limit reached (".to_owned();
                render::push_decimal(&mut out, *count as u64);
                out.append("/");
                render::push_decimal(&mut out, *max as u64);
                out.append(")");
                out
            },
            GraphError::TagContainsComma(tag) => {
                let mut out = "tag '".to_owned();
                out.append(tag.as_str());
                out.append("' contains a comma, which is used as the tag separator");
                out
            },
            GraphError::SourceNotFound(id) => {
                let mut out = "source node not found: ".to_owned();
                out.append(id.as_str());
                out
            },
            GraphError::TargetNotFound(id) => {
                let mut out = "target node not found: ".to_owned();
                out.append(id.as_str());
                out
            },
            GraphError::ZeroDepth => "subgraph depth must be greater than 0".to_owned(),
            GraphError::DuplicateId(id) => {
                let mut out = "duplicate id: ".to_owned();
                out.append(id.as_str());
                out
            },
            GraphError::UnknownNode(id) => {
                let mut out = "event for unknown node: ".to_owned();
                out.append(id.as_str());
                out
            },
        }
    }
}

} // verus!
