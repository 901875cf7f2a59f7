//! The dream cycle: synthesizing what is known of stale entities.
use crate::clock;
use crate::knowledge_graph::graph;
use crate::knowledge_graph::graph::GraphView;
use crate::knowledge_graph::graph::KnowledgeGraph;
use crate::knowledge_graph::queries;
use crate::knowledge_graph::rows::EventView;
use crate::knowledge_graph::rows::KnowledgeNode;
use crate::knowledge_graph::rows::NodeEvent;
use crate::knowledge_graph::rows::NodeRowView;
use crate::knowledge_graph::rows::NodeView;
use crate::lists;
use crate::ordering;
use vstd::prelude::*;

verus! {

/// The system prompt of every synthesis.
pub const SYNTHESIS_SYSTEM_PROMPT: &'static str =
    "You are a concise knowledge synthesizer. Given facts about an entity gathered over time, produce a short synthesis paragraph. Preserve all key facts and dates. Write at most a few sentences per major fact. Be factual and precise. Output plain text only — no markdown, no headers.";

/// Summary of a dream cycle synthesis run.
#[derive(Debug, Clone, Copy, PartialEq, Eq, Structural)]
pub struct SynthesisReport {
    /// Number of stale nodes synthesized in this run.
    pub nodes_processed: usize,
    /// Stale nodes that existed but were not processed due to the per-run cap.
    pub nodes_remaining: usize,
}

/// How many nodes a run takes on: five times as many as usual if the backlog exceeds that.
pub open spec fn cap(total_stale: nat, max_per_run: nat) -> nat {
    if total_stale > 5 * max_per_run {
        5 * max_per_run
    } else {
        max_per_run
    }
}

/// How many nodes a run takes on.
pub fn effective_cap(total_stale: usize, max_per_run: usize) -> (r: usize)
    ensures
        r == cap(total_stale as nat, max_per_run as nat),
{
    if max_per_run <= usize::MAX / 5 && total_stale > 5 * max_per_run {
        5 * max_per_run
    } else {
        max_per_run
    }
}

/// One line for each event, the first one first. The events are given latest first.
pub open spec fn event_lines(events: Seq<EventView>) -> Seq<char>
    decreases events.len(),
{
    if events.len() == 0 {
        Seq::empty()
    } else {
        event_lines(events.skip(1)) + "- ["@ + clock::shown(events[0].created_at) + "] "@
            + events[0].content + "\n"@
    }
}

/// The prompt that synthesizes what is known of a node.
pub open spec fn synthesis_prompt(node: NodeView, events: Seq<EventView>) -> Seq<char> {
    "Synthesize everything known about "@ + node.title + " ("@ + node.node_type + (if events.len()
        == 0 {
        ").\n\nNo events recorded yet."@
    } else {
        "). Preserve all facts and dates.\n\nEvents:\n"@ + event_lines(events)
    })
}

fn write_event_lines(events: &Vec<NodeEvent>) -> (r: String)
    ensures
        r@ == event_lines(events.deep_view()),
{
    let ghost all = events.deep_view();
    let mut out = String::new();
    let mut i: usize = events.len();
    assert(out@ =~= event_lines(all.skip(all.len() as int)));
    while i > 0
        invariant
            i <= events@.len(),
            all == events.deep_view(),
            out@ == event_lines(all.skip(i as int)),
        decreases i,
    {
        i -= 1;
        proof {
            assert(all.skip(i as int).skip(1) =~= all.skip(i + 1));
            assert(all.skip(i as int)[0] == events@[i as int].deep_view());
        }
        let when = clock::show(events[i].created_at.as_str());
        out.append("- [");
        out.append(when.as_str());
        out.append("] ");
        out.append(events[i].content.as_str());
        out.append("\n");
    }
    assert(all.skip(0) =~= all);
    out
}

/// The prompt that synthesizes what is known of a node.
pub fn write_synthesis_prompt(node: &KnowledgeNode, events: &Vec<NodeEvent>) -> (r: String)
    ensures
        r@ == synthesis_prompt(node.deep_view(), events.deep_view()),
{
    let mut out = "Synthesize everything known about ".to_owned();
    out.append(node.title.as_str());
    out.append(" (");
    out.append(node.node_type.as_str());
    if events.len() == 0 {
        out.append(").\n\nNo events recorded yet.");
    } else {
        let lines = write_event_lines(events);
        out.append("). Preserve all facts and dates.\n\nEvents:\n");
        out.append(lines.as_str());
    }
    assert(out@ =~= synthesis_prompt(node.deep_view(), events.deep_view()));
    out
}

/// A dream cycle under way: the nodes that it took on, and the next of them.
#[derive(Debug)]
pub struct DreamRun {
    pub nodes: Vec<KnowledgeNode>,
    pub next: usize,
    pub processed: usize,
    pub remaining: usize,
}

/// What a dream cycle under way holds.
pub ghost struct DreamView {
    pub nodes: Seq<NodeView>,
    pub next: int,
    pub processed: nat,
    pub remaining: nat,
}

impl DeepView for DreamRun {
    type V = DreamView;

    open spec fn deep_view(&self) -> DreamView {
        DreamView {
            nodes: self.nodes.deep_view(),
            next: self.next as int,
            processed: self.processed as nat,
            remaining: self.remaining as nat,
        }
    }
}

impl DreamView {
    /// No more nodes were processed than were reached.
    pub open spec fn wf(self) -> bool {
        0 <= self.processed <= self.next <= self.nodes.len()
    }
}

/// What is to be done next for a dream cycle.
#[derive(Debug)]
pub enum DreamAction {
    /// Synthesize a node: send the prompt, under `SYNTHESIS_SYSTEM_PROMPT`, and embed the answer.
    Synthesize { prompt: String },
    /// Nothing: the run is over.
    Finish(SynthesisReport),
}

/// How a dream cycle begins: with the stale nodes, the most recently updated first, as many as a
/// run takes on.
pub open spec fn dream_begun(g: GraphView, max_per_run: nat, now: Seq<char>) -> DreamView {
    let total = queries::recency(g.nodes).filter(|i: int| queries::is_stale(g.nodes[i])).len();
    let nodes = g.stale(cap(total, max_per_run), now);
    DreamView {
        nodes,
        next: 0,
        processed: 0,
        remaining: if total >= nodes.len() {
            (total - nodes.len()) as nat
        } else {
            0
        },
    }
}

/// The events of a node, latest first.
pub open spec fn events_for(g: GraphView, id: Seq<char>, now: Seq<char>) -> Seq<EventView> {
    match g.with_timeline(id, usize::MAX as nat, now) {
        Some(found) => found.1,
        None => Seq::empty(),
    }
}

/// The prompt that synthesizes a node from its events in the graph.
pub open spec fn dream_prompt(g: GraphView, node: NodeView, now: Seq<char>) -> Seq<char> {
    synthesis_prompt(node, events_for(g, node.id, now))
}

/// A dream cycle after the synthesis of its next node came in, or failed to.
pub open spec fn dream_next(run: DreamView, synthesized: bool) -> DreamView {
    DreamView {
        next: run.next + 1,
        processed: if synthesized {
            run.processed + 1
        } else {
            run.processed
        },
        ..run
    }
}

impl DreamRun {
    /// Begin a dream cycle.
    ///
    /// `max_per_run` caps normal batches. When the backlog is large (> 5×), a run takes on
    /// 5 × `max_per_run` nodes to clear the debt.
    pub fn begin(graph: &KnowledgeGraph, max_per_run: usize) -> (r: DreamRun)
        ensures
            r.deep_view().wf(),
            exists|now: Seq<char>|
                clock::is_stamp(now) && r.deep_view() == #[trigger] dream_begun(
                    graph.deep_view(),
                    max_per_run as nat,
                    now,
                ),
    {
        let ghost g = graph.deep_view();
        let ghost order = queries::recency(g.nodes);
        let ghost keep = |i: int| queries::is_stale(g.nodes[i]);
        let ghost found = order.filter(keep);
        let count: usize = graph.nodes.len();
        let all = graph.list_stale_nodes(usize::MAX);
        let total: usize = all.len();
        proof {
            order.lemma_filter_len(keep);
            ordering::lemma_ordered_range(
                g.nodes.len(),
                ordering::later_text(g.nodes.map_values(|r: NodeRowView| r.updated_at)),
            );
            assert(found.len() <= count);
            let now = choose|now: Seq<char>|
                clock::is_stamp(now) && all.deep_view() == #[trigger] g.stale(
                    usize::MAX as nat,
                    now,
                );
            assert(all.deep_view().len() == lists::limited(found, usize::MAX as nat).len());
            assert(total == found.len());
        }
        let bound: usize = effective_cap(total, max_per_run);
        let nodes = graph.list_stale_nodes(bound);
        let remaining: usize = total.saturating_sub(nodes.len());
        let ghost now = choose|now: Seq<char>|
            clock::is_stamp(now) && nodes.deep_view() == #[trigger] g.stale(bound as nat, now);
        let r = DreamRun { nodes, next: 0, processed: 0, remaining };
        assert(r.deep_view() == dream_begun(g, max_per_run as nat, now));
        r
    }

    /// What the dream cycle does next: it synthesizes the next node from its events, or it is
    /// over.
    pub fn action(&self, graph: &KnowledgeGraph) -> (r: DreamAction)
        requires
            self.deep_view().wf(),
        ensures
            ({
                let run = self.deep_view();
                if run.next < run.nodes.len() {
                    let node = run.nodes[run.next];
                    r is Synthesize && exists|now: Seq<char>|
                        clock::is_stamp(now) && r->prompt@ == #[trigger] dream_prompt(
                            graph.deep_view(),
                            node,
                            now,
                        )
                } else {
                    r matches DreamAction::Finish(report) && report.nodes_processed == run.processed
                        && report.nodes_remaining == run.remaining
                }
            }),
    {
        if self.next >= self.nodes.len() {
            return DreamAction::Finish(
                SynthesisReport {
                    nodes_processed: self.processed,
                    nodes_remaining: self.remaining,
                },
            );
        }
        let node = &self.nodes[self.next];
        assert(self.deep_view().nodes[self.next as int] == node.deep_view());
        let found = graph.get_with_timeline(node.id.as_str(), usize::MAX);
        let ghost now = choose|now: Seq<char>|
            clock::is_stamp(now) && found.deep_view() == #[trigger] graph.deep_view().with_timeline(
                node.id@,
                usize::MAX as nat,
                now,
            );
        match found {
            Some((_, events)) => {
                assert(events.deep_view() == events_for(graph.deep_view(), node.id@, now));
                let prompt = write_synthesis_prompt(node, &events);
                assert(prompt@ == dream_prompt(graph.deep_view(), node.deep_view(), now));
                DreamAction::Synthesize { prompt }
            },
            None => {
                let events: Vec<NodeEvent> = Vec::new();
                assert(events.deep_view() =~= events_for(graph.deep_view(), node.id@, now));
                let prompt = write_synthesis_prompt(node, &events);
                assert(prompt@ == dream_prompt(graph.deep_view(), node.deep_view(), now));
                DreamAction::Synthesize { prompt }
            },
        }
    }

    /// Take the synthesis of the next node at a given time: it is kept with the node. Without one
    /// the node stays stale. The embedding is given by the bit patterns of its numbers; an empty
    /// one counts as none.
    pub fn take_with(
        &mut self,
        graph: &mut KnowledgeGraph,
        synthesis: Option<String>,
        embedding: Vec<u32>,
        now: &str,
    )
        requires
            old(self).deep_view().wf(),
            old(self).deep_view().next < old(self).deep_view().nodes.len(),
            old(graph).deep_view().wf(),
        ensures
            final(self).deep_view().wf(),
            final(graph).deep_view().wf(),
            final(self).deep_view() == dream_next(old(self).deep_view(), synthesis is Some),
            final(graph).deep_view() == match synthesis {
                Some(s) => old(graph).deep_view().synthesis_updated(
                    old(self).deep_view().nodes[old(self).deep_view().next].id,
                    s@,
                    now@,
                    stored_embedding(embedding@),
                ),
                None => old(graph).deep_view(),
            },
    {
        let i: usize = self.next;
        let count: usize = self.nodes.len();
        assert(i < count);
        assert(self.deep_view().nodes[i as int] == self.nodes@[i as int].deep_view());
        match synthesis {
            Some(s) => {
                let kept = kept_embedding(embedding);
                graph.update_synthesis_with(
                    now,
                    self.nodes[i].id.as_str(),
                    s.as_str(),
                    kept,
                );
                self.processed = self.processed + 1;
            },
            None => {},
        }
        self.next = i + 1;
    }

    /// Take the synthesis of the next node: it is kept with the node. Without one the node stays
    /// stale.
    pub fn take(
        &mut self,
        graph: &mut KnowledgeGraph,
        synthesis: Option<String>,
        embedding: Vec<u32>,
    )
        requires
            old(self).deep_view().wf(),
            old(self).deep_view().next < old(self).deep_view().nodes.len(),
            old(graph).deep_view().wf(),
        ensures
            final(self).deep_view().wf(),
            final(graph).deep_view().wf(),
            final(self).deep_view() == dream_next(old(self).deep_view(), synthesis is Some),
            synthesis is None ==> final(graph).deep_view() == old(graph).deep_view(),
            synthesis matches Some(s) ==> exists|now: Seq<char>|
                clock::is_stamp(now) && final(graph).deep_view() == #[trigger] old(
                    graph,
                ).deep_view().synthesis_updated(
                    old(self).deep_view().nodes[old(self).deep_view().next].id,
                    s@,
                    now,
                    stored_embedding(embedding@),
                ),
    {
        let now = clock::now_rfc3339();
        self.take_with(graph, synthesis, embedding, now.as_str());
    }
}

/// The embedding that is kept: an empty one counts as none.
pub fn kept_embedding(embedding: Vec<u32>) -> (r: Option<Vec<u32>>)
    ensures
        r == if embedding@.len() > 0 {
            Some(embedding)
        } else {
            None
        },
{
    if embedding.len() > 0 {
        Some(embedding)
    } else {
        None
    }
}

/// The stored form of an embedding, none for an empty one.
pub open spec fn stored_embedding(words: Seq<u32>) -> Option<Seq<u8>> {
    if words.len() > 0 {
        Some(graph::little_endian(words))
    } else {
        None
    }
}

/// The report of a run adds up: a run takes on no more nodes than its cap, and those that it took
/// on and those that remain are all that were stale.
pub proof fn law_report_adds_up(g: GraphView, max_per_run: nat, now: Seq<char>)
    ensures
        ({
            let total = queries::recency(g.nodes).filter(
                |i: int| queries::is_stale(g.nodes[i]),
            ).len();
            let run = dream_begun(g, max_per_run, now);
            &&& run.nodes.len() <= cap(total, max_per_run)
            &&& run.nodes.len() + run.remaining == total
            &&& total <= cap(total, max_per_run) ==> run.remaining == 0
        }),
{
}

/// No backlog is taken on beyond five times the cap, and none below the cap is left over.
pub proof fn law_cap_is_five_fold_at_most(total: nat, max_per_run: nat)
    ensures
        cap(total, max_per_run) <= 5 * max_per_run,
        cap(total, max_per_run) >= max_per_run,
        cap(total, max_per_run) > max_per_run ==> total > cap(total, max_per_run),
{
}

} // verus!
