//! One compression, from the first look at the history to its result: which prompt to send, which
//! summary to keep, what to record, and what the history becomes.
use crate::context_compressor::config;
use crate::context_compressor::config::ContextCompressionConfig;
use crate::context_compressor::config::ContextCompressor;
use crate::context_compressor::history;
use crate::context_compressor::limits;
use crate::messages::ChatMessage;
use crate::messages::MessageView;
use crate::render;
use crate::text;
use vstd::prelude::*;

verus! {

/// The system prompt of every summarization.
pub const SUMMARIZER_SYSTEM: &'static str =
    "You are a conversation compaction engine. Summarize the conversation segment below into concise context.\n\nPRESERVE exactly:\n- All identifiers (UUIDs, hashes, file paths, URLs, tokens, IPs)\n- Actions taken (tool calls, file operations, commands run)\n- Key information obtained (data, results, error messages)\n- Decisions made and user preferences expressed\n- Current task status and unresolved items\n- Constraints and requirements mentioned\n\nOMIT:\n- Verbose tool output (keep only key results)\n- Repeated greetings or filler\n- Redundant information already stated\n\nOutput concise bullet points. Be thorough but brief.";

/// What a compression did.
#[derive(Debug, Clone, Copy)]
pub struct CompressionResult {
    pub compressed: bool,
    pub tokens_before: usize,
    pub tokens_after: usize,
    pub passes_used: u32,
}

/// A recorded leaf summary.
#[derive(Debug)]
pub struct LeafSummary {
    pub id: String,
    pub content: String,
    pub level: u32,
}

/// What a leaf summary holds.
pub ghost struct LeafView {
    pub id: Seq<char>,
    pub content: Seq<char>,
    pub level: u32,
}

impl DeepView for LeafSummary {
    type V = LeafView;

    open spec fn deep_view(&self) -> LeafView {
        LeafView { id: self.id@, content: self.content@, level: self.level }
    }
}

/// A summary that is ready to replace the span `start..end`.
#[derive(Debug)]
pub struct Pending {
    pub start: usize,
    pub end: usize,
    pub id: String,
    pub summary: String,
}

/// What a pending summary holds.
pub ghost struct PendingView {
    pub start: int,
    pub end: int,
    pub id: Seq<char>,
    pub summary: Seq<char>,
}

impl DeepView for Pending {
    type V = PendingView;

    open spec fn deep_view(&self) -> PendingView {
        PendingView {
            start: self.start as int,
            end: self.end as int,
            id: self.id@,
            summary: self.summary@,
        }
    }
}

/// What a compression waits for.
#[derive(Debug)]
pub enum Phase {
    /// The answer to the standard prompt for the span `start..end`.
    Level1 { start: usize, end: usize, transcript: String },
    /// The answer to the tighter prompt.
    Level2 { start: usize, end: usize, transcript: String },
    /// Word that the leaf summary was recorded.
    StoringLeaf(Pending),
    /// Word that its sources were linked.
    LinkingLeaf(Pending),
    /// The number of leaf summaries of the session.
    CountingLeaves(Pending),
    /// The leaf summaries of the session.
    LoadingLeaves(Pending),
    /// The answer to the prompt that condenses the leaf summaries.
    Condensing(Pending, Vec<LeafSummary>),
    /// Word that the condensed summary was recorded: its identifier and those of its leaves.
    StoringCondensed(Pending, String, Vec<String>),
    /// Word that its sources were linked.
    LinkingCondensed(Pending),
    /// Nothing.
    Finished,
}

/// What a phase holds.
pub ghost enum PhaseView {
    Level1 { start: int, end: int, transcript: Seq<char> },
    Level2 { start: int, end: int, transcript: Seq<char> },
    StoringLeaf(PendingView),
    LinkingLeaf(PendingView),
    CountingLeaves(PendingView),
    LoadingLeaves(PendingView),
    Condensing(PendingView, Seq<LeafView>),
    StoringCondensed(PendingView, Seq<char>, Seq<Seq<char>>),
    LinkingCondensed(PendingView),
    Finished,
}

impl DeepView for Phase {
    type V = PhaseView;

    open spec fn deep_view(&self) -> PhaseView {
        match *self {
            Phase::Level1 { start, end, transcript } => PhaseView::Level1 {
                start: start as int,
                end: end as int,
                transcript: transcript@,
            },
            Phase::Level2 { start, end, transcript } => PhaseView::Level2 {
                start: start as int,
                end: end as int,
                transcript: transcript@,
            },
            Phase::StoringLeaf(p) => PhaseView::StoringLeaf(p.deep_view()),
            Phase::LinkingLeaf(p) => PhaseView::LinkingLeaf(p.deep_view()),
            Phase::CountingLeaves(p) => PhaseView::CountingLeaves(p.deep_view()),
            Phase::LoadingLeaves(p) => PhaseView::LoadingLeaves(p.deep_view()),
            Phase::Condensing(p, leaves) => PhaseView::Condensing(
                p.deep_view(),
                leaves.deep_view(),
            ),
            Phase::StoringCondensed(p, id, sources) => PhaseView::StoringCondensed(
                p.deep_view(),
                id@,
                sources.deep_view(),
            ),
            Phase::LinkingCondensed(p) => PhaseView::LinkingCondensed(p.deep_view()),
            Phase::Finished => PhaseView::Finished,
        }
    }
}

/// A compression under way.
#[derive(Debug)]
pub struct CompressionRun {
    pub history: Vec<ChatMessage>,
    pub model: String,
    pub threshold: usize,
    pub tokens_before: usize,
    pub passes_used: u32,
    pub passes_left: u32,
    pub phase: Phase,
}

/// What a compression under way holds.
pub ghost struct RunView {
    pub history: Seq<MessageView>,
    pub model: Seq<char>,
    pub threshold: nat,
    pub tokens_before: nat,
    pub passes_used: nat,
    pub passes_left: nat,
    pub phase: PhaseView,
}

impl DeepView for CompressionRun {
    type V = RunView;

    open spec fn deep_view(&self) -> RunView {
        RunView {
            history: self.history.deep_view(),
            model: self.model@,
            threshold: self.threshold as nat,
            tokens_before: self.tokens_before as nat,
            passes_used: self.passes_used as nat,
            passes_left: self.passes_left as nat,
            phase: self.phase.deep_view(),
        }
    }
}

/// What is to be done next for a compression.
#[derive(Debug)]
pub enum Action {
    /// Send a prompt to the model, with `SUMMARIZER_SYSTEM` as the system prompt.
    Chat { model: String, prompt: String },
    /// Record a summary.
    InsertSummary {
        id: String,
        kind: String,
        content: String,
        token_count: usize,
        session: String,
        level: u32,
    },
    /// Record what a summary stands for: identifiers, each with its kind.
    LinkSources { id: String, sources: Vec<(String, String)> },
    /// Count the leaf summaries of the session.
    CountLeaves { session: String },
    /// Load the leaf summaries of the session.
    LoadLeaves { session: String },
    /// Nothing: the compression is over.
    Finish(CompressionResult),
}

/// What an action says.
pub ghost enum ActionView {
    Chat { model: Seq<char>, prompt: Seq<char> },
    InsertSummary {
        id: Seq<char>,
        kind: Seq<char>,
        content: Seq<char>,
        token_count: nat,
        session: Seq<char>,
        level: u32,
    },
    LinkSources { id: Seq<char>, sources: Seq<(Seq<char>, Seq<char>)> },
    CountLeaves { session: Seq<char> },
    LoadLeaves { session: Seq<char> },
    Finish { compressed: bool, tokens_before: nat, tokens_after: nat, passes_used: nat },
}

impl DeepView for Action {
    type V = ActionView;

    open spec fn deep_view(&self) -> ActionView {
        match *self {
            Action::Chat { model, prompt } => ActionView::Chat { model: model@, prompt: prompt@ },
            Action::InsertSummary { id, kind, content, token_count, session, level } =>
                ActionView::InsertSummary {
                    id: id@,
                    kind: kind@,
                    content: content@,
                    token_count: token_count as nat,
                    session: session@,
                    level,
                },
            Action::LinkSources { id, sources } => ActionView::LinkSources {
                id: id@,
                sources: sources.deep_view(),
            },
            Action::CountLeaves { session } => ActionView::CountLeaves { session: session@ },
            Action::LoadLeaves { session } => ActionView::LoadLeaves { session: session@ },
            Action::Finish(r) => ActionView::Finish {
                compressed: r.compressed,
                tokens_before: r.tokens_before as nat,
                tokens_after: r.tokens_after as nat,
                passes_used: r.passes_used as nat,
            },
        }
    }
}

/// What came of an action.
#[derive(Debug)]
pub enum Event {
    /// The model's answer; none if it failed or took too long.
    Reply(Option<String>),
    /// Whether a record was made.
    Stored(bool),
    /// The number of leaf summaries; none if they could not be counted.
    LeafCount(Option<usize>),
    /// The leaf summaries in the order they were made; none if they could not be loaded.
    Leaves(Option<Vec<LeafSummary>>),
}

/// What an event tells.
pub ghost enum EventView {
    Reply(Option<Seq<char>>),
    Stored(bool),
    LeafCount(Option<usize>),
    Leaves(Option<Seq<LeafView>>),
}

impl DeepView for Event {
    type V = EventView;

    open spec fn deep_view(&self) -> EventView {
        match *self {
            Event::Reply(r) => EventView::Reply(r.deep_view()),
            Event::Stored(b) => EventView::Stored(b),
            Event::LeafCount(n) => EventView::LeafCount(n),
            Event::Leaves(l) => EventView::Leaves(l.deep_view()),
        }
    }
}

/// The span that a phase is about.
pub open spec fn phase_span(phase: PhaseView) -> Option<(int, int)> {
    match phase {
        PhaseView::Level1 { start, end, transcript } => Some((start, end)),
        PhaseView::Level2 { start, end, transcript } => Some((start, end)),
        PhaseView::StoringLeaf(p) => Some((p.start, p.end)),
        PhaseView::LinkingLeaf(p) => Some((p.start, p.end)),
        PhaseView::CountingLeaves(p) => Some((p.start, p.end)),
        PhaseView::LoadingLeaves(p) => Some((p.start, p.end)),
        PhaseView::Condensing(p, leaves) => Some((p.start, p.end)),
        PhaseView::StoringCondensed(p, id, sources) => Some((p.start, p.end)),
        PhaseView::LinkingCondensed(p) => Some((p.start, p.end)),
        PhaseView::Finished => None,
    }
}

impl RunView {
    /// The span under way lies inside the history, and the passes can be counted.
    pub open spec fn wf(self) -> bool {
        match phase_span(self.phase) {
            Some((start, end)) => {
                &&& 0 <= start < end <= self.history.len()
                &&& self.passes_used + self.passes_left < u32::MAX
            },
            None => true,
        }
    }
}

// ---------------------------------------------------------------------------
// The rules
// ---------------------------------------------------------------------------

/// The span that a pass replaces: what lies between the protected ends, moved so that no tool
/// result is parted from its call.
pub open spec fn span(config: ContextCompressionConfig, messages: Seq<MessageView>) -> Option<
    (int, int),
> {
    let first = config.protect_first_n as int;
    let last = config.protect_last_n as int;
    if messages.len() <= first + last {
        None
    } else {
        let start = history::aligned_forward(messages, first);
        let end = history::aligned_backward(messages, messages.len() - last);
        if start < end {
            Some((start, end))
        } else {
            None
        }
    }
}

/// The reminder that strict handling of identifiers adds to a prompt.
pub open spec fn identifier_note(config: ContextCompressionConfig) -> Seq<char> {
    if config.identifier_policy@ == "strict"@ {
        "\nIMPORTANT: Preserve all identifiers exactly as they appear."@
    } else {
        ""@
    }
}

/// The standard prompt.
pub open spec fn level1_prompt(count: nat, note: Seq<char>, transcript: Seq<char>) -> Seq<char> {
    "Summarize the following conversation history ("@ + render::decimal(count)
        + " messages) for context preservation. Keep it concise (max 20 bullet points)."@ + note
        + "\n\n"@ + transcript
}

/// The tighter prompt.
pub open spec fn level2_prompt(count: nat, note: Seq<char>, transcript: Seq<char>) -> Seq<char> {
    "Summarize the following conversation history ("@ + render::decimal(count)
        + " messages). Output BULLET POINTS ONLY. Maximum 10 items. Each item ≤ 15 words. Total output must be half the input length."@
        + note + "\n\n"@ + transcript
}

/// One leaf in the prompt that condenses the leaves.
pub open spec fn numbered_leaf(leaves: Seq<LeafView>, i: int) -> Seq<char> {
    "Summary "@ + render::decimal((i + 1) as nat) + ": "@ + leaves[i].content
}

/// The prompt that condenses the leaves of a session.
pub open spec fn condense_prompt(leaves: Seq<LeafView>) -> Seq<char> {
    "Condense the following "@ + render::decimal(leaves.len())
        + " session summaries into a single unified summary. Preserve all key facts, decisions, and identifiers.\n\n"@
        + render::joined(Seq::new(leaves.len(), |i: int| numbered_leaf(leaves, i)), "\n\n"@)
}

/// What stands for a condensed summary when the model gives none.
pub open spec fn leaf_digest(leaves: Seq<LeafView>) -> Seq<char> {
    render::joined(
        leaves.map_values(|l: LeafView| history::shortened(l.content, 512)),
        "\n"@,
    )
}

/// The highest escalation level among leaves.
pub open spec fn top_level(leaves: Seq<LeafView>) -> u32
    decreases leaves.len(),
{
    if leaves.len() == 0 {
        1
    } else if leaves.len() == 1 {
        leaves[0].level
    } else {
        let before = top_level(leaves.drop_last());
        if before < leaves.last().level {
            leaves.last().level
        } else {
            before
        }
    }
}

/// Whether an answer shrinks the transcript enough: it is not empty and shorter than nine tenths.
pub open spec fn is_accepted(reply: Option<Seq<char>>, transcript: Seq<char>) -> bool {
    reply matches Some(s) && s.len() > 0 && text::utf8_len(s) < text::utf8_len(transcript) * 9 / 10
}

/// The message that stands for a replaced span.
pub open spec fn placeholder(
    id: Seq<char>,
    summary: Seq<char>,
    message_id: Seq<char>,
) -> MessageView {
    MessageView {
        id: message_id,
        role: "assistant"@,
        content: "[SUMMARY:"@ + id + "]\n\n"@ + summary,
    }
}

/// The history with the span of a pending summary replaced by its placeholder.
pub open spec fn replaced(
    messages: Seq<MessageView>,
    p: PendingView,
    message_id: Seq<char>,
) -> Seq<MessageView> {
    messages.take(p.start) + seq![placeholder(p.id, p.summary, message_id)] + messages.skip(p.end)
}

/// The identifiers of the messages of a span, as sources of a summary.
pub open spec fn message_sources(messages: Seq<MessageView>) -> Seq<(Seq<char>, Seq<char>)> {
    messages.map_values(|m: MessageView| (m.id, "message"@))
}

/// The identifiers of summaries, as sources of a summary.
pub open spec fn summary_sources(ids: Seq<Seq<char>>) -> Seq<(Seq<char>, Seq<char>)> {
    ids.map_values(|id: Seq<char>| (id, "summary"@))
}

/// The answer that an event brings.
pub open spec fn reply_in(e: EventView) -> Option<Seq<char>> {
    match e {
        EventView::Reply(r) => r,
        _ => None,
    }
}

/// Whether an event says that a record was made.
pub open spec fn stored_in(e: EventView) -> bool {
    e matches EventView::Stored(b) && b
}

/// The model that summarizes: the configured one, or else the one of the conversation.
pub open spec fn summary_model(config: ContextCompressionConfig, model: Seq<char>) -> Seq<char> {
    match config.summary_model {
        Some(m) => m@,
        None => model,
    }
}

/// A compression that is over, with its result.
pub open spec fn finished(run: RunView) -> (RunView, ActionView) {
    (
        RunView { phase: PhaseView::Finished, ..run },
        ActionView::Finish {
            compressed: run.passes_used > 0,
            tokens_before: run.tokens_before,
            tokens_after: limits::estimate(run.history),
            passes_used: run.passes_used,
        },
    )
}

impl ContextCompressor {
    /// The next pass, if one is left and there is a span to replace.
    pub open spec fn pass_begun(self, run: RunView) -> (RunView, ActionView) {
        if run.passes_left == 0 {
            finished(run)
        } else {
            let rest = RunView { passes_left: (run.passes_left - 1) as nat, ..run };
            match span(self.config, run.history) {
                None => finished(rest),
                Some((start, end)) => {
                    let transcript = history::transcript(
                        run.history.subrange(start, end),
                        self.config.source_max_chars as nat,
                    );
                    if transcript.len() == 0 {
                        finished(rest)
                    } else {
                        (
                            RunView { phase: PhaseView::Level1 { start, end, transcript }, ..rest },
                            ActionView::Chat {
                                model: run.model,
                                prompt: level1_prompt(
                                    (end - start) as nat,
                                    identifier_note(self.config),
                                    transcript,
                                ),
                            },
                        )
                    }
                },
            }
        }
    }

    /// Whether a history is left alone: it is within the threshold, or compression is off.
    pub open spec fn leaves_alone(self, messages: Seq<MessageView>, threshold: nat) -> bool {
        !self.config.enabled || limits::estimate(messages) <= threshold
    }

    /// How a compression begins. `trimmed` is the history after the fast trim of old tool results.
    pub open spec fn begun(
        self,
        messages: Seq<MessageView>,
        trimmed: Seq<MessageView>,
        model: Seq<char>,
        threshold: nat,
    ) -> (RunView, ActionView) {
        let before = limits::estimate(messages);
        let run = RunView {
            history: trimmed,
            model: summary_model(self.config, model),
            threshold,
            tokens_before: before,
            passes_used: 0,
            passes_left: self.config.max_passes as nat,
            phase: PhaseView::Finished,
        };
        if self.leaves_alone(messages, threshold) {
            (
                RunView { history: messages, ..run },
                ActionView::Finish {
                    compressed: false,
                    tokens_before: before,
                    tokens_after: before,
                    passes_used: 0,
                },
            )
        } else if config::bytes_lost(messages, trimmed) > 0 && limits::estimate(trimmed)
            <= threshold {
            (
                run,
                ActionView::Finish {
                    compressed: true,
                    tokens_before: before,
                    tokens_after: limits::estimate(trimmed),
                    passes_used: 0,
                },
            )
        } else {
            self.pass_begun(run)
        }
    }

    /// The pass is over: the summary replaces its span, and the next pass begins if the history
    /// still exceeds the threshold.
    pub open spec fn pass_ended(
        self,
        run: RunView,
        p: PendingView,
        message_id: Seq<char>,
    ) -> (RunView, ActionView) {
        let after = RunView {
            history: history::repaired(replaced(run.history, p, message_id)),
            passes_used: run.passes_used + 1,
            ..run
        };
        if limits::estimate(after.history) <= run.threshold {
            finished(after)
        } else {
            self.pass_begun(after)
        }
    }

    /// A summary was found: it is recorded under the session, or replaces its span at once.
    pub open spec fn summary_found(
        self,
        run: RunView,
        p: PendingView,
        level: u32,
        message_id: Seq<char>,
    ) -> (RunView, ActionView) {
        match self.session_id {
            Some(session) => (
                RunView { phase: PhaseView::StoringLeaf(p), ..run },
                ActionView::InsertSummary {
                    id: p.id,
                    kind: "leaf"@,
                    content: p.summary,
                    token_count: limits::text_tokens(p.summary),
                    session: session@,
                    level,
                },
            ),
            None => self.pass_ended(run, p, message_id),
        }
    }

    /// A summary of the span, cut to the configured size.
    pub open spec fn as_pending(
        self,
        start: int,
        end: int,
        id: Seq<char>,
        summary: Seq<char>,
    ) -> PendingView {
        PendingView {
            start,
            end,
            id,
            summary: history::shortened(summary, self.config.summary_max_chars as nat),
        }
    }

    /// What a compression does next once an event has come in. `summary_id` and `message_id` are
    /// the identifiers for what the step creates.
    pub open spec fn next(
        self,
        run: RunView,
        event: EventView,
        summary_id: Seq<char>,
        message_id: Seq<char>,
    ) -> (RunView, ActionView) {
        let session = match self.session_id {
            Some(s) => s@,
            None => "unknown"@,
        };
        match run.phase {
            PhaseView::Level1 { start, end, transcript } => if is_accepted(
                reply_in(event),
                transcript,
            ) {
                self.summary_found(
                    run,
                    self.as_pending(start, end, summary_id, reply_in(event)->0),
                    1,
                    message_id,
                )
            } else {
                (
                    RunView { phase: PhaseView::Level2 { start, end, transcript }, ..run },
                    ActionView::Chat {
                        model: run.model,
                        prompt: level2_prompt(
                            (end - start) as nat,
                            identifier_note(self.config),
                            transcript,
                        ),
                    },
                )
            },
            PhaseView::Level2 { start, end, transcript } => if is_accepted(
                reply_in(event),
                transcript,
            ) {
                self.summary_found(
                    run,
                    self.as_pending(start, end, summary_id, reply_in(event)->0),
                    2,
                    message_id,
                )
            } else {
                self.summary_found(
                    run,
                    self.as_pending(
                        start,
                        end,
                        summary_id,
                        history::digest(run.history.subrange(start, end)),
                    ),
                    3,
                    message_id,
                )
            },
            PhaseView::StoringLeaf(p) => if stored_in(event) {
                (
                    RunView { phase: PhaseView::LinkingLeaf(p), ..run },
                    ActionView::LinkSources {
                        id: p.id,
                        sources: message_sources(run.history.subrange(p.start, p.end)),
                    },
                )
            } else {
                self.pass_ended(run, p, message_id)
            },
            PhaseView::LinkingLeaf(p) => (
                RunView { phase: PhaseView::CountingLeaves(p), ..run },
                ActionView::CountLeaves { session },
            ),
            PhaseView::CountingLeaves(p) => match event {
                EventView::LeafCount(Some(n)) if n > self.config.condensed_summary_leaf_limit => (
                    RunView { phase: PhaseView::LoadingLeaves(p), ..run },
                    ActionView::LoadLeaves { session },
                ),
                _ => self.pass_ended(run, p, message_id),
            },
            PhaseView::LoadingLeaves(p) => match event {
                EventView::Leaves(Some(leaves)) if leaves.len()
                    > self.config.condensed_summary_leaf_limit => (
                    RunView { phase: PhaseView::Condensing(p, leaves), ..run },
                    ActionView::Chat { model: run.model, prompt: condense_prompt(leaves) },
                ),
                _ => self.pass_ended(run, p, message_id),
            },
            PhaseView::Condensing(p, leaves) => {
                let answer = match reply_in(event) {
                    Some(s) => s,
                    None => leaf_digest(leaves),
                };
                let content = history::shortened(answer, self.config.summary_max_chars as nat);
                (
                    RunView {
                        phase: PhaseView::StoringCondensed(
                            p,
                            summary_id,
                            leaves.map_values(|l: LeafView| l.id),
                        ),
                        ..run
                    },
                    ActionView::InsertSummary {
                        id: summary_id,
                        kind: "condensed"@,
                        content,
                        token_count: limits::text_tokens(content),
                        session,
                        level: top_level(leaves),
                    },
                )
            },
            PhaseView::StoringCondensed(p, id, sources) => if stored_in(event) {
                (
                    RunView { phase: PhaseView::LinkingCondensed(p), ..run },
                    ActionView::LinkSources { id, sources: summary_sources(sources) },
                )
            } else {
                self.pass_ended(run, p, message_id)
            },
            PhaseView::LinkingCondensed(p) => self.pass_ended(run, p, message_id),
            PhaseView::Finished => finished(run),
        }
    }
}

} // verus!
