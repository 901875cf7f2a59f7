//! What views tell of the values behind them: every field, as it is.
use crate::clock;
use crate::consolidation::entities;
use crate::consolidation::entities::Fresh;
use crate::consolidation::turn::ConsolidationResult;
use crate::consolidation::turn::EntityMention;
use crate::consolidation::turn::RelationMention;
use crate::consolidation::turn::TurnAction;
use crate::consolidation::turn::TurnActionView;
use crate::consolidation::turn::TurnEvent;
use crate::consolidation::turn::TurnEventView;
use crate::consolidation::turn::TurnPhase;
use crate::consolidation::turn::TurnPhaseView;
use crate::consolidation::turn::TurnRun;
use crate::context_compressor::config;
use crate::context_compressor::run::Action;
use crate::context_compressor::run::ActionView;
use crate::context_compressor::run::CompressionRun;
use crate::context_compressor::run::Event;
use crate::context_compressor::run::EventView;
use crate::context_compressor::run::LeafSummary;
use crate::context_compressor::run::Pending;
use crate::context_compressor::run::Phase;
use crate::context_compressor::run::PhaseView;
use crate::fractions;
use crate::knowledge_graph::changes;
use crate::knowledge_graph::graph;
use crate::knowledge_graph::graph::GraphView;
use crate::knowledge_graph::graph::KnowledgeGraph;
use crate::knowledge_graph::rows::ErrorView;
use crate::knowledge_graph::rows::GraphError;
use crate::knowledge_graph::rows::KnowledgeEdge;
use crate::knowledge_graph::rows::KnowledgeNode;
use crate::knowledge_graph::rows::NodeEvent;
use crate::knowledge_graph::rows::NodeRow;
use crate::knowledge_graph::rows::SearchResult;
use crate::knowledge_graph::searches;
use crate::lcm_grep::GrepEntry;
use crate::lcm_grep::GrepRequest;
use crate::lcm_grep::ToolResult;
use crate::lists;
use crate::messages::ChatMessage;
use crate::ordering;
use crate::render;
use crate::retrieval::cache;
use crate::retrieval::cache::Cache;
use crate::retrieval::pipeline;
use crate::retrieval::pipeline::CategoryView;
use crate::retrieval::pipeline::MemoryCategory;
use crate::retrieval::pipeline::MemoryEntry;
use crate::retrieval::pipeline::RetrievalPipeline;
use crate::retrieval::rrf;
use crate::retrieval::rrf::RrfEntry;
use crate::scores::RrfScore;
use crate::scores::RrfScoreView;
use vstd::prelude::*;

verus! {

// ---------------------------------------------------------------------------
// Conversations
// ---------------------------------------------------------------------------

/// The view of a message tells all of it.
pub proof fn law_message_view(m: ChatMessage)
    ensures
        m.deep_view().id == m.id@,
        m.deep_view().role == m.role@,
        m.deep_view().content == m.content@,
{
}

/// The view of a leaf summary tells all of it.
pub proof fn law_leaf_view(l: LeafSummary)
    ensures
        l.deep_view().id == l.id@,
        l.deep_view().content == l.content@,
        l.deep_view().level == l.level,
{
}

/// The view of a summary that waits tells all of it.
pub proof fn law_pending_view(p: Pending)
    ensures
        p.deep_view().start == p.start,
        p.deep_view().end == p.end,
        p.deep_view().id == p.id@,
        p.deep_view().summary == p.summary@,
{
}

/// The view of a compression tells all of it.
pub proof fn law_compression_view(c: CompressionRun)
    ensures
        c.deep_view().history == c.history.deep_view(),
        c.deep_view().model == c.model@,
        c.deep_view().threshold == c.threshold,
        c.deep_view().tokens_before == c.tokens_before,
        c.deep_view().passes_used == c.passes_used,
        c.deep_view().passes_left == c.passes_left,
        c.deep_view().phase == c.phase.deep_view(),
{
}

/// The view of a phase of a compression tells all of it.
pub proof fn law_phase_view(p: Phase)
    ensures
        match p {
            Phase::Level1 { start, end, transcript } => p.deep_view() == (PhaseView::Level1 {
                start: start as int,
                end: end as int,
                transcript: transcript@,
            }),
            Phase::Level2 { start, end, transcript } => p.deep_view() == (PhaseView::Level2 {
                start: start as int,
                end: end as int,
                transcript: transcript@,
            }),
            Phase::StoringLeaf(s) => p.deep_view() == PhaseView::StoringLeaf(s.deep_view()),
            Phase::LinkingLeaf(s) => p.deep_view() == PhaseView::LinkingLeaf(s.deep_view()),
            Phase::CountingLeaves(s) => p.deep_view() == PhaseView::CountingLeaves(s.deep_view()),
            Phase::LoadingLeaves(s) => p.deep_view() == PhaseView::LoadingLeaves(s.deep_view()),
            Phase::Condensing(s, leaves) => p.deep_view() == PhaseView::Condensing(
                s.deep_view(),
                leaves.deep_view(),
            ),
            Phase::StoringCondensed(s, id, ids) => p.deep_view() == PhaseView::StoringCondensed(
                s.deep_view(),
                id@,
                ids.deep_view(),
            ),
            Phase::LinkingCondensed(s) => p.deep_view() == PhaseView::LinkingCondensed(
                s.deep_view(),
            ),
            Phase::Finished => p.deep_view() == PhaseView::Finished,
        },
{
}

/// The view of what is to be done tells all of it.
pub proof fn law_action_view(a: Action)
    ensures
        match a {
            Action::Chat { model, prompt } => a.deep_view() == (ActionView::Chat {
                model: model@,
                prompt: prompt@,
            }),
            Action::InsertSummary { id, kind, content, token_count, session, level } => a.deep_view()
                == (ActionView::InsertSummary {
                id: id@,
                kind: kind@,
                content: content@,
                token_count: token_count as nat,
                session: session@,
                level,
            }),
            Action::LinkSources { id, sources } => a.deep_view() == (ActionView::LinkSources {
                id: id@,
                sources: sources.deep_view(),
            }),
            Action::CountLeaves { session } => a.deep_view() == (ActionView::CountLeaves {
                session: session@,
            }),
            Action::LoadLeaves { session } => a.deep_view() == (ActionView::LoadLeaves {
                session: session@,
            }),
            Action::Finish(r) => a.deep_view() == (ActionView::Finish {
                compressed: r.compressed,
                tokens_before: r.tokens_before as nat,
                tokens_after: r.tokens_after as nat,
                passes_used: r.passes_used as nat,
            }),
        },
{
}

/// The view of what came back tells all of it.
pub proof fn law_event_view(e: Event)
    ensures
        match e {
            Event::Reply(r) => e.deep_view() == EventView::Reply(r.deep_view()),
            Event::Stored(b) => e.deep_view() == EventView::Stored(b),
            Event::LeafCount(n) => e.deep_view() == EventView::LeafCount(n),
            Event::Leaves(l) => e.deep_view() == EventView::Leaves(l.deep_view()),
        },
{
}

/// The view of an extraction tells all of it, and so do those of mentions.
pub proof fn law_extraction_view(r: ConsolidationResult, e: EntityMention, s: RelationMention)
    ensures
        r.deep_view().history_entry == r.history_entry@,
        r.deep_view().memory_update == r.memory_update.deep_view(),
        r.deep_view().facts == r.facts.deep_view(),
        r.deep_view().trend == r.trend.deep_view(),
        e.deep_view().entity_type == e.entity_type@,
        e.deep_view().slug == e.slug@,
        e.deep_view().fact == e.fact@,
        s.deep_view().from_slug == s.from_slug@,
        s.deep_view().relation == s.relation@,
        s.deep_view().to_slug == s.to_slug@,
{
}

/// The views of a consolidation, its phases, actions and events tell all of them.
pub proof fn law_turn_views(t: TurnRun, p: TurnPhase, a: TurnAction, e: TurnEvent)
    ensures
        t.deep_view().text == t.text@,
        t.deep_view().with_knowledge == t.with_knowledge,
        t.deep_view().phase == t.phase.deep_view(),
        match p {
            TurnPhase::Extracting => p.deep_view() == TurnPhaseView::Extracting,
            TurnPhase::StoringDaily(u) => p.deep_view() == TurnPhaseView::StoringDaily(
                u.deep_view(),
            ),
            TurnPhase::ResolvingConflicts { key, update } => p.deep_view() == (
            TurnPhaseView::ResolvingConflicts { key: key@, update: update@ }),
            TurnPhase::StoringCore => p.deep_view() == TurnPhaseView::StoringCore,
            TurnPhase::ExtractingEntities => p.deep_view() == TurnPhaseView::ExtractingEntities,
            TurnPhase::Finished => p.deep_view() == TurnPhaseView::Finished,
        },
        match a {
            TurnAction::Extract { prompt } => a.deep_view() == (TurnActionView::Extract {
                prompt: prompt@,
            }),
            TurnAction::StoreDaily { key, content } => a.deep_view() == (
            TurnActionView::StoreDaily { key: key@, content: content@ }),
            TurnAction::ResolveConflicts { key, content } => a.deep_view() == (
            TurnActionView::ResolveConflicts { key: key@, content: content@ }),
            TurnAction::StoreCore { key, content } => a.deep_view() == (
            TurnActionView::StoreCore { key: key@, content: content@ }),
            TurnAction::ExtractEntities { prompt } => a.deep_view() == (
            TurnActionView::ExtractEntities { prompt: prompt@ }),
            TurnAction::Record(found) => a.deep_view() == TurnActionView::Record(found),
            TurnAction::Finish(ok) => a.deep_view() == TurnActionView::Finish(ok),
        },
        match e {
            TurnEvent::Failed => e.deep_view() == TurnEventView::Failed,
            TurnEvent::Done => e.deep_view() == TurnEventView::Done,
            TurnEvent::Extracted(r) => e.deep_view() == TurnEventView::Extracted(r.deep_view()),
            TurnEvent::Entities(found) => e.deep_view() == TurnEventView::Entities(found),
        },
{
}

// ---------------------------------------------------------------------------
// The graph
// ---------------------------------------------------------------------------

/// The view of a graph tells all of its tables and its limit.
pub proof fn law_graph_view(g: KnowledgeGraph)
    ensures
        g.deep_view().nodes == g.nodes.deep_view(),
        g.deep_view().edges == g.edges.deep_view(),
        g.deep_view().events == g.events.deep_view(),
        g.deep_view().max_nodes == g.max_nodes,
{
}

/// The view of the row of a node tells all of its columns.
pub proof fn law_row_view(r: NodeRow)
    ensures
        r.deep_view().id == r.id@,
        r.deep_view().node_type == r.node_type@,
        r.deep_view().title == r.title@,
        r.deep_view().content == r.content@,
        r.deep_view().tags == r.tags@,
        r.deep_view().created_at == r.created_at@,
        r.deep_view().updated_at == r.updated_at@,
        r.deep_view().source_project == r.source_project.deep_view(),
        r.deep_view().synthesis == r.synthesis.deep_view(),
        r.deep_view().synthesis_at == r.synthesis_at.deep_view(),
        r.deep_view().embedding == r.embedding.deep_view(),
{
}

/// The view of a node tells all of it.
pub proof fn law_node_view(n: KnowledgeNode, s: SearchResult)
    ensures
        n.deep_view().id == n.id@,
        n.deep_view().node_type == n.node_type@,
        n.deep_view().title == n.title@,
        n.deep_view().content == n.content@,
        n.deep_view().tags == n.tags.deep_view(),
        n.deep_view().created_at == n.created_at@,
        n.deep_view().updated_at == n.updated_at@,
        n.deep_view().source_project == n.source_project.deep_view(),
        n.deep_view().synthesis == n.synthesis.deep_view(),
        n.deep_view().synthesis_at == n.synthesis_at.deep_view(),
        s.deep_view().node == s.node.deep_view(),
        s.deep_view().score == s.score,
{
}

/// The views of an edge and an event tell all of them.
pub proof fn law_edge_and_event_views(e: KnowledgeEdge, v: NodeEvent)
    ensures
        e.deep_view().from_id == e.from_id@,
        e.deep_view().to_id == e.to_id@,
        e.deep_view().relation == e.relation@,
        v.deep_view().id == v.id@,
        v.deep_view().node_id == v.node_id@,
        v.deep_view().content == v.content@,
        v.deep_view().source_message_id == v.source_message_id.deep_view(),
        v.deep_view().session_id == v.session_id.deep_view(),
        v.deep_view().created_at == v.created_at@,
{
}

/// The view of a refusal tells its reason.
pub proof fn law_error_view(e: GraphError)
    ensures
        match e {
            GraphError::NodeLimitReached { count, max } => e.deep_view() == (
            ErrorView::NodeLimitReached { count: count as nat, max: max as nat }),
            GraphError::TagContainsComma(t) => e.deep_view() == ErrorView::TagContainsComma(t@),
            GraphError::SourceNotFound(id) => e.deep_view() == ErrorView::SourceNotFound(id@),
            GraphError::TargetNotFound(id) => e.deep_view() == ErrorView::TargetNotFound(id@),
            GraphError::ZeroDepth => e.deep_view() == ErrorView::ZeroDepth,
            GraphError::DuplicateId(id) => e.deep_view() == ErrorView::DuplicateId(id@),
            GraphError::UnknownNode(id) => e.deep_view() == ErrorView::UnknownNode(id@),
        },
{
}

/// A refused change is answered with the reason and leaves the graph as it was; a change that went
/// through leaves what was planned.
pub proof fn law_refused_change_changes_nothing<T>(
    before: GraphView,
    planned: Result<GraphView, ErrorView>,
    after: GraphView,
    answer: Result<T, GraphError>,
)
    requires
        changes::went(before, planned, after, answer),
    ensures
        planned is Ok <==> answer is Ok,
        planned matches Ok(g) ==> after == g,
        planned matches Err(e) ==> after == before && answer->Err_0.deep_view() == e,
{
}

/// A refused slug is answered with the reason and leaves the graph as it was; one that was found or
/// created is answered with its node and leaves what was planned.
pub proof fn law_refused_slug_changes_nothing(
    before: GraphView,
    planned: Result<(GraphView, Seq<char>, bool), ErrorView>,
    after: GraphView,
    answer: Result<(String, bool), GraphError>,
)
    requires
        changes::found_as(before, planned, after, answer),
    ensures
        planned is Ok <==> answer is Ok,
        planned matches Ok(found) ==> after == found.0 && answer->Ok_0.0@ == found.1
            && answer->Ok_0.1 == found.2,
        planned matches Err(e) ==> after == before && answer->Err_0.deep_view() == e,
{
}

/// The bytes of an embedding are there if and only if there is an embedding, four for each number.
pub proof fn law_embedding_is_stored(embedding: Option<Vec<u32>>)
    ensures
        embedding is None ==> graph::embedding_bytes(embedding) is None,
        embedding matches Some(words) ==> graph::embedding_bytes(embedding) == Some(
            graph::little_endian(words@),
        ),
{
}

/// The views of hits, tallies and positions tell them one by one.
pub proof fn law_list_views(
    hits: Seq<(String, u64)>,
    tally: Seq<(String, usize)>,
    at: Seq<usize>,
    ds: Seq<u128>,
    i: int,
)
    ensures
        searches::hits_view(hits).len() == hits.len(),
        0 <= i < hits.len() ==> searches::hits_view(hits)[i] == (hits[i].0@, hits[i].1),
        lists::tally_view(tally).len() == tally.len(),
        0 <= i < tally.len() ==> lists::tally_view(tally)[i] == (tally[i].0@, tally[i].1 as nat),
        ordering::as_positions(at).len() == at.len(),
        0 <= i < at.len() ==> ordering::as_positions(at)[i] == at[i],
        fractions::as_naturals(ds).len() == ds.len(),
        0 <= i < ds.len() ==> fractions::as_naturals(ds)[i] == ds[i],
{
}

// ---------------------------------------------------------------------------
// Retrieval
// ---------------------------------------------------------------------------

/// The view of a memory tells all of it.
pub proof fn law_memory_view(m: MemoryEntry, c: MemoryCategory)
    ensures
        m.deep_view().id == m.id@,
        m.deep_view().key == m.key@,
        m.deep_view().content == m.content@,
        m.deep_view().category == m.category.deep_view(),
        m.deep_view().timestamp == m.timestamp@,
        m.deep_view().session_id == m.session_id.deep_view(),
        m.deep_view().score == m.score,
        m.deep_view().namespace == m.namespace@,
        m.deep_view().importance == m.importance,
        m.deep_view().superseded_by == m.superseded_by.deep_view(),
        match c {
            MemoryCategory::Core => c.deep_view() == CategoryView::Core,
            MemoryCategory::Daily => c.deep_view() == CategoryView::Daily,
            MemoryCategory::Conversation => c.deep_view() == CategoryView::Conversation,
            MemoryCategory::Custom(s) => c.deep_view() == CategoryView::Custom(s@),
        },
{
}

/// The view of an entry of a recall tells all of it.
pub proof fn law_entry_view(e: RrfEntry, s: RrfScore)
    ensures
        e.deep_view().id == e.id@,
        e.deep_view().content == e.content@,
        e.deep_view().source == e.source,
        e.deep_view().original_score == e.original_score,
        e.deep_view().rrf_score == e.rrf_score.deep_view(),
        e.deep_view().node_type == e.node_type.deep_view(),
        e.deep_view().key == e.key.deep_view(),
        e.deep_view().created_at == e.created_at@,
        match s {
            RrfScore::Own(own) => s.deep_view() == RrfScoreView::Own(own),
            RrfScore::Fused(ds) => s.deep_view() == RrfScoreView::Fused(
                fractions::as_naturals(ds@),
            ),
        },
{
}

/// The views of lists of entries tell them one by one.
pub proof fn law_entry_list_views(
    all: Seq<Vec<RrfEntry>>,
    ranked: Seq<(RrfEntry, usize)>,
    i: int,
)
    ensures
        rrf::lists_view(all).len() == all.len(),
        0 <= i < all.len() ==> rrf::lists_view(all)[i] == all[i].deep_view(),
        rrf::ranked_view(ranked).len() == ranked.len(),
        0 <= i < ranked.len() ==> rrf::ranked_view(ranked)[i] == (
            ranked[i].0.deep_view(),
            ranked[i].1 as nat,
        ),
{
}

/// The view of a cache tells each of its slots.
pub proof fn law_cache_view<T>(c: Cache<T>, i: int)
    ensures
        c@.len() == c.slots@.len(),
        c@ == cache::slots_view(c.slots@),
        0 <= i < c.slots@.len() ==> c@[i].key == c.slots@[i].key@ && c@[i].value
            == c.slots@[i].value && c@[i].created_at == c.slots@[i].created_at,
{
}

/// A copy tells what the original tells, and there is one if and only if there is an original.
pub proof fn law_copies_tell_the_same<T: DeepView>(r: Option<T>, held: Option<T>)
    requires
        pipeline::is_copy_of(r, held),
    ensures
        r is Some <==> held is Some,
        held matches Some(v) ==> r->0.deep_view() == v.deep_view(),
{
}

/// What is the same but for its caches has the same settings and the same sources.
pub proof fn law_same_but_caches(a: RetrievalPipeline, b: RetrievalPipeline)
    requires
        a.same_but_caches(b),
    ensures
        a.config == b.config,
        a.has_sqlite == b.has_sqlite,
        a.has_knowledge == b.has_knowledge,
        a.sources_fp == b.sources_fp,
{
}

// ---------------------------------------------------------------------------
// Log searches, identifiers, stamps
// ---------------------------------------------------------------------------

/// The views of a search in the log, its results and its answer tell all of them.
pub proof fn law_grep_views(q: GrepRequest, e: GrepEntry, r: ToolResult)
    ensures
        q.deep_view().pattern == q.pattern@,
        q.deep_view().session_id == q.session_id.deep_view(),
        q.deep_view().limit == q.limit,
        e.deep_view().created_at == e.created_at@,
        e.deep_view().role == e.role@,
        e.deep_view().content == e.content@,
        e.deep_view().summary_id == e.summary_id.deep_view(),
        r.deep_view().success == r.success,
        r.deep_view().output == r.output@,
        r.deep_view().error == r.error.deep_view(),
{
}

/// An identifier has 36 characters: hyphens behind the eighth and every fourth up to the
/// twentieth digit, and lower-case hexadecimal digits elsewhere.
pub proof fn law_identifiers_have_their_shape(s: Seq<char>, i: int)
    requires
        clock::is_identifier(s),
    ensures
        s.len() == 36,
        s[8] == '-',
        s[13] == '-',
        s[18] == '-',
        s[23] == '-',
        0 <= i < 36 && i != 8 && i != 13 && i != 18 && i != 23 ==> '0' as u32 <= s[i] as u32
            <= '9' as u32 || 'a' as u32 <= s[i] as u32 <= 'f' as u32,
{
    assert(s[8] == '-' && s[13] == '-' && s[18] == '-' && s[23] == '-');
}

/// A date ends with two digits for the day, two for the month before them, and four at least for the
/// year, with hyphens between.
pub proof fn law_dates_have_their_shape(s: Seq<char>)
    requires
        clock::is_date(s),
    ensures
        s.len() >= 10,
        s[s.len() - 3] == '-',
        s[s.len() - 6] == '-',
        render::is_digit(s[s.len() - 1]),
        render::is_digit(s[s.len() - 2]),
        render::is_digit(s[s.len() - 4]),
        render::is_digit(s[s.len() - 5]),
        render::is_digit(s[s.len() - 7]),
        render::is_digit(s[s.len() - 8]),
{
    let n = s.len() - 6;
    let year = s.take(n);
    let month = s.subrange(n + 1, n + 3);
    let day = s.skip(n + 4);
    assert(day[0] == s[n + 4] && day[1] == s[n + 5]);
    assert(month[0] == s[n + 1] && month[1] == s[n + 2]);
    if year.len() > 4 {
        assert(year.skip(1)[n - 2] == s[n - 1]);
        assert(year.skip(1)[n - 3] == s[n - 2]);
    } else {
        assert(year[n - 1] == s[n - 1] && year[n - 2] == s[n - 2]);
    }
}

/// A stamp ends with the offset of UTC, and holds a date and a time of the day before it. One with a
/// plain year is the canonical form of itself.
pub proof fn law_stamps_have_their_shape(s: Seq<char>)
    requires
        clock::is_stamp(s),
    ensures
        s.len() >= 25,
        s.skip(s.len() - 6) == "+00:00"@,
        exists|at: int|
            10 <= at <= s.len() - 15 && #[trigger] s[at] == 'T' && clock::is_date(s.take(at)) && s[at
                + 3] == ':' && s[at + 6] == ':',
        s[4] == '-' ==> clock::rfc3339_in_utc(s) == Some(s),
{
    let at = choose|at: int| clock::is_dated(s, at);
    law_dates_have_their_shape(s.take(at));
    let time = s.subrange(at + 1, s.len() - 6);
    assert(time[2] == s[at + 3] && time[5] == s[at + 6]);
    assert(s[at] == 'T');
}

/// What is drawn for mentions are identifiers and stamps, all of them.
pub proof fn law_all_is_fresh(s: Seq<(Fresh, Fresh)>, i: int)
    requires
        entities::all_fresh(s),
        0 <= i < s.len(),
    ensures
        clock::is_identifier(s[i].0.id),
        clock::is_stamp(s[i].0.now),
        clock::is_identifier(s[i].1.id),
        clock::is_stamp(s[i].1.now),
{
    assert(entities::is_fresh(s[i].0) && entities::is_fresh(s[i].1));
}

/// The ratios of the settings are the doubles nearest to a half, four fifths and seventeen
/// twentieths: between a half and one, with the fraction above the half in 52 bits.
pub proof fn law_ratios_are_the_nearest_doubles()
    ensures
        ({
            let one = 0x10_0000_0000_0000int;
            let high = config::FOUR_FIFTHS_BITS - 1022 * one;
            let early = pipeline::EARLY_RETURN_BITS - 1022 * one;
            &&& config::HALF_BITS == 1022 * one
            &&& 0 <= high < one && -5 <= 10 * high - 6 * one <= 5
            &&& 0 <= early < one && -5 <= 10 * early - 7 * one <= 5
        }),
{
}

} // verus!
