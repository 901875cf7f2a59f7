//! Carrying a compression out, step by step.
use crate::clock;
use crate::context_compressor::config;
use crate::context_compressor::config::ContextCompressionConfig;
use crate::context_compressor::config::ContextCompressor;
use crate::context_compressor::history;
use crate::context_compressor::limits;
use crate::context_compressor::run;
use crate::context_compressor::run::Action;
use crate::context_compressor::run::CompressionResult;
use crate::context_compressor::run::CompressionRun;
use crate::context_compressor::run::Event;
use crate::context_compressor::run::LeafSummary;
use crate::context_compressor::run::LeafView;
use crate::context_compressor::run::Pending;
use crate::context_compressor::run::Phase;
use crate::context_compressor::run::RunView;
use crate::messages::ChatMessage;
use crate::messages::MessageView;
use crate::render;
use crate::text;
use vstd::prelude::*;
use vstd::slice::slice_subrange;

verus! {

/// The messages `start..end` of a history.
fn segment(messages: &Vec<ChatMessage>, start: usize, end: usize) -> (r: &[ChatMessage])
    requires
        start <= end <= messages@.len(),
    ensures
        r.deep_view() == messages.deep_view().subrange(start as int, end as int),
{
    let r = slice_subrange(messages.as_slice(), start, end);
    assert(r.deep_view() =~= messages.deep_view().subrange(start as int, end as int));
    r
}

/// Estimate the tokens of a whole history.
fn estimate_all(messages: &Vec<ChatMessage>) -> (r: usize)
    ensures
        r == limits::estimate(messages.deep_view()),
{
    let all = messages.as_slice();
    assert(all.deep_view() =~= messages.deep_view());
    limits::estimate_tokens(all)
}

/// The reminder that strict handling of identifiers adds to a prompt.
fn note_for(config: &ContextCompressionConfig) -> (r: &'static str)
    ensures
        r@ == run::identifier_note(*config),
{
    if text::same(config.identifier_policy.as_str(), "strict") {
        "\nIMPORTANT: Preserve all identifiers exactly as they appear."
    } else {
        ""
    }
}

fn write_level1_prompt(count: usize, note: &str, transcript: &str) -> (r: String)
    ensures
        r@ == run::level1_prompt(count as nat, note@, transcript@),
{
    let mut out = "Summarize the following conversation history (".to_owned();
    render::push_decimal(&mut out, count as u64);
    out.append(" messages) for context preservation. Keep it concise (max 20 bullet points).");
    out.append(note);
    out.append("\n\n");
    out.append(transcript);
    out
}

fn write_level2_prompt(count: usize, note: &str, transcript: &str) -> (r: String)
    ensures
        r@ == run::level2_prompt(count as nat, note@, transcript@),
{
    let mut out = "Summarize the following conversation history (".to_owned();
    render::push_decimal(&mut out, count as u64);
    out.append(
        " messages). Output BULLET POINTS ONLY. Maximum 10 items. Each item ≤ 15 words. Total output must be half the input length.",
    );
    out.append(note);
    out.append("\n\n");
    out.append(transcript);
    out
}

fn write_condense_prompt(leaves: &Vec<LeafSummary>) -> (r: String)
    ensures
        r@ == run::condense_prompt(leaves.deep_view()),
{
    let ghost all = leaves.deep_view();
    let mut parts: Vec<String> = Vec::new();
    let mut i: usize = 0;
    while i < leaves.len()
        invariant
            i <= leaves@.len(),
            all == leaves.deep_view(),
            parts.deep_view() == Seq::new(i as nat, |k: int| run::numbered_leaf(all, k)),
        decreases leaves@.len() - i,
    {
        let ghost before = parts.deep_view();
        let mut part = "Summary ".to_owned();
        render::push_decimal(&mut part, i as u64 + 1);
        part.append(": ");
        part.append(leaves[i].content.as_str());
        let ghost written = part@;
        assert(written == run::numbered_leaf(all, i as int));
        parts.push(part);
        assert(parts.deep_view() =~= before.push(written));
        i += 1;
        assert(parts.deep_view() =~= Seq::new(i as nat, |k: int| run::numbered_leaf(all, k)));
    }
    let combined = render::join(&parts, "\n\n");
    let mut out = "Condense the following ".to_owned();
    render::push_decimal(&mut out, leaves.len() as u64);
    out.append(
        " session summaries into a single unified summary. Preserve all key facts, decisions, and identifiers.\n\n",
    );
    out.append(combined.as_str());
    assert(parts.deep_view() =~= Seq::new(all.len(), |k: int| run::numbered_leaf(all, k)));
    out
}

fn digest_leaves(leaves: &Vec<LeafSummary>) -> (r: String)
    ensures
        r@ == run::leaf_digest(leaves.deep_view()),
{
    let ghost all = leaves.deep_view();
    let ghost cut = |l: LeafView| history::shortened(l.content, 512);
    let mut parts: Vec<String> = Vec::new();
    let mut i: usize = 0;
    while i < leaves.len()
        invariant
            i <= leaves@.len(),
            all == leaves.deep_view(),
            cut == |l: LeafView| history::shortened(l.content, 512),
            parts.deep_view() == all.take(i as int).map_values(cut),
        decreases leaves@.len() - i,
    {
        let ghost before = parts.deep_view();
        let part = history::truncate_chars(leaves[i].content.as_str(), 512);
        let ghost written = part@;
        assert(written == cut(all[i as int]));
        parts.push(part);
        assert(parts.deep_view() =~= before.push(written));
        i += 1;
        assert(parts.deep_view() =~= all.take(i as int).map_values(cut));
    }
    assert(all.take(all.len() as int) =~= all);
    render::join(&parts, "\n")
}

fn find_top_level(leaves: &Vec<LeafSummary>) -> (r: u32)
    ensures
        r == run::top_level(leaves.deep_view()),
{
    let ghost all = leaves.deep_view();
    if leaves.len() == 0 {
        return 1;
    }
    let mut top: u32 = leaves[0].level;
    let mut i: usize = 1;
    while i < leaves.len()
        invariant
            1 <= i <= leaves@.len(),
            all == leaves.deep_view(),
            top == run::top_level(all.take(i as int)),
        decreases leaves@.len() - i,
    {
        assert(all.take(i + 1).drop_last() =~= all.take(i as int));
        assert(all.take(i + 1).last() == leaves@[i as int].deep_view());
        if top < leaves[i].level {
            top = leaves[i].level;
        }
        i += 1;
    }
    assert(all.take(all.len() as int) =~= all);
    top
}

fn leaf_ids(leaves: &Vec<LeafSummary>) -> (r: Vec<String>)
    ensures
        r.deep_view() == leaves.deep_view().map_values(|l: LeafView| l.id),
{
    let ghost all = leaves.deep_view();
    let mut out: Vec<String> = Vec::new();
    let mut i: usize = 0;
    while i < leaves.len()
        invariant
            i <= leaves@.len(),
            all == leaves.deep_view(),
            out.deep_view() == all.take(i as int).map_values(|l: LeafView| l.id),
        decreases leaves@.len() - i,
    {
        let ghost before = out.deep_view();
        out.push(leaves[i].id.clone());
        assert(out.deep_view() =~= before.push(all[i as int].id));
        i += 1;
        assert(out.deep_view() =~= all.take(i as int).map_values(|l: LeafView| l.id));
    }
    assert(all.take(all.len() as int) =~= all);
    out
}

fn list_message_sources(messages: &[ChatMessage]) -> (r: Vec<(String, String)>)
    ensures
        r.deep_view() == run::message_sources(messages.deep_view()),
{
    let ghost all = messages.deep_view();
    let mut out: Vec<(String, String)> = Vec::new();
    let mut i: usize = 0;
    while i < messages.len()
        invariant
            i <= messages@.len(),
            all == messages.deep_view(),
            out.deep_view() == run::message_sources(all.take(i as int)),
        decreases messages@.len() - i,
    {
        let ghost before = out.deep_view();
        out.push((messages[i].id.clone(), "message".to_owned()));
        assert(out.deep_view() =~= before.push((all[i as int].id, "message"@)));
        i += 1;
        assert(out.deep_view() =~= run::message_sources(all.take(i as int)));
    }
    assert(all.take(all.len() as int) =~= all);
    out
}

fn list_summary_sources(ids: &Vec<String>) -> (r: Vec<(String, String)>)
    ensures
        r.deep_view() == run::summary_sources(ids.deep_view()),
{
    let ghost all = ids.deep_view();
    let mut out: Vec<(String, String)> = Vec::new();
    let mut i: usize = 0;
    while i < ids.len()
        invariant
            i <= ids@.len(),
            all == ids.deep_view(),
            out.deep_view() == run::summary_sources(all.take(i as int)),
        decreases ids@.len() - i,
    {
        let ghost before = out.deep_view();
        out.push((ids[i].clone(), "summary".to_owned()));
        assert(out.deep_view() =~= before.push((all[i as int], "summary"@)));
        i += 1;
        assert(out.deep_view() =~= run::summary_sources(all.take(i as int)));
    }
    assert(all.take(all.len() as int) =~= all);
    out
}

/// Whether an answer shrinks the transcript enough.
fn accepts(reply: &Option<String>, transcript: &str) -> (r: bool)
    ensures
        r == run::is_accepted(reply.deep_view(), transcript@),
{
    match reply {
        Some(s) => {
            let n: usize = text::byte_len(s.as_str());
            let m: usize = text::byte_len(transcript);
            let bound: usize = m / 10 * 9 + m % 10 * 9 / 10;
            assert(bound == m * 9 / 10);
            !s.as_str().is_empty() && n < bound
        },
        None => false,
    }
}

/// The answer that an event brings.
fn take_reply(event: Event) -> (r: Option<String>)
    ensures
        r.deep_view() == run::reply_in(event.deep_view()),
{
    match event {
        Event::Reply(r) => r,
        _ => None,
    }
}

/// Whether an event says that a record was made.
fn was_stored(event: &Event) -> (r: bool)
    ensures
        r == run::stored_in(event.deep_view()),
{
    match event {
        Event::Stored(b) => *b,
        _ => false,
    }
}

/// The history with the span of a pending summary replaced by its placeholder.
fn splice(messages: Vec<ChatMessage>, p: Pending, message_id: String) -> (r: Vec<ChatMessage>)
    requires
        p.start <= p.end <= messages@.len(),
    ensures
        r.deep_view() == run::replaced(messages.deep_view(), p.deep_view(), message_id@),
{
    let ghost before = messages.deep_view();
    let ghost msgs = messages@;
    let mut out = messages;
    let mut tail = out.split_off(p.end);
    out.truncate(p.start);
    let mut content = "[SUMMARY:".to_owned();
    content.append(p.id.as_str());
    content.append("]\n\n");
    content.append(p.summary.as_str());
    let m = ChatMessage::assistant_with(message_id, content);
    let ghost put = m;
    out.push(m);
    out.append(&mut tail);
    proof {
        assert(out@ =~= msgs.take(p.start as int).push(put) + msgs.skip(p.end as int));
        assert(put.deep_view() == run::placeholder(p.id@, p.summary@, message_id@));
        assert(out.deep_view() =~= run::replaced(before, p.deep_view(), message_id@));
    }
    out
}

impl CompressionRun {
    /// A compression that is over, with its result.
    fn finish(self) -> (r: (CompressionRun, Action))
        ensures
            (r.0.deep_view(), r.1.deep_view()) == run::finished(self.deep_view()),
    {
        let tokens_after: usize = estimate_all(&self.history);
        let result = CompressionResult {
            compressed: self.passes_used > 0,
            tokens_before: self.tokens_before,
            tokens_after,
            passes_used: self.passes_used,
        };
        (
            CompressionRun {
                history: self.history,
                model: self.model,
                threshold: self.threshold,
                tokens_before: self.tokens_before,
                passes_used: self.passes_used,
                passes_left: self.passes_left,
                phase: Phase::Finished,
            },
            Action::Finish(result),
        )
    }

    /// The same compression in another phase.
    fn in_phase(self, phase: Phase) -> (r: CompressionRun)
        ensures
            r.deep_view() == (RunView { phase: phase.deep_view(), ..self.deep_view() }),
    {
        CompressionRun {
            history: self.history,
            model: self.model,
            threshold: self.threshold,
            tokens_before: self.tokens_before,
            passes_used: self.passes_used,
            passes_left: self.passes_left,
            phase,
        }
    }
}

impl ContextCompressor {
    /// The model that summarizes.
    fn choose_model(&self, model: &str) -> (r: String)
        ensures
            r@ == run::summary_model(self.config, model@),
    {
        match &self.config.summary_model {
            Some(m) => m.clone(),
            None => model.to_owned(),
        }
    }

    /// The session of the summary records.
    fn session(&self) -> (r: String)
        ensures
            r@ == match self.session_id {
                Some(s) => s@,
                None => "unknown"@,
            },
    {
        match &self.session_id {
            Some(s) => s.clone(),
            None => "unknown".to_owned(),
        }
    }

    /// The span that a pass replaces.
    pub fn find_span(&self, messages: &Vec<ChatMessage>) -> (r: Option<(usize, usize)>)
        ensures
            match r {
                Some((start, end)) => run::span(self.config, messages.deep_view()) == Some(
                    (start as int, end as int),
                ) && start < end <= messages@.len(),
                None => run::span(self.config, messages.deep_view()) is None,
            },
    {
        let n: usize = messages.len();
        let first: usize = self.config.protect_first_n;
        let last: usize = self.config.protect_last_n;
        if n <= first || n - first <= last {
            return None;
        }
        let all = messages.as_slice();
        assert(all.deep_view() =~= messages.deep_view());
        let start: usize = history::align_boundary_forward(all, first);
        let end: usize = history::align_boundary_backward(all, n - last);
        if start < end {
            Some((start, end))
        } else {
            None
        }
    }

    /// Begin the next pass, if one is left and there is a span to replace.
    fn begin_pass(&self, state: CompressionRun) -> (r: (CompressionRun, Action))
        requires
            state.passes_used + state.passes_left <= u32::MAX,
        ensures
            (r.0.deep_view(), r.1.deep_view()) == self.pass_begun(state.deep_view()),
            r.0.deep_view().wf(),
    {
        if state.passes_left == 0 {
            return state.finish();
        }
        let rest = CompressionRun {
            history: state.history,
            model: state.model,
            threshold: state.threshold,
            tokens_before: state.tokens_before,
            passes_used: state.passes_used,
            passes_left: state.passes_left - 1,
            phase: state.phase,
        };
        match self.find_span(&rest.history) {
            None => rest.finish(),
            Some((start, end)) => {
                let middle = segment(&rest.history, start, end);
                let transcript = history::build_transcript(middle, self.config.source_max_chars);
                if transcript.as_str().is_empty() {
                    return rest.finish();
                }
                let prompt = write_level1_prompt(
                    end - start,
                    note_for(&self.config),
                    transcript.as_str(),
                );
                let model = rest.model.clone();
                (
                    rest.in_phase(Phase::Level1 { start, end, transcript }),
                    Action::Chat { model, prompt },
                )
            },
        }
    }

    /// End a pass: the summary replaces its span, and the next pass begins if the history still
    /// exceeds the threshold.
    fn end_pass(&self, state: CompressionRun, p: Pending, message_id: String) -> (r: (
        CompressionRun,
        Action,
    ))
        requires
            p.start < p.end <= state.history@.len(),
            state.passes_used + state.passes_left < u32::MAX,
        ensures
            (r.0.deep_view(), r.1.deep_view()) == self.pass_ended(
                state.deep_view(),
                p.deep_view(),
                message_id@,
            ),
            r.0.deep_view().wf(),
    {
        let mut messages = splice(state.history, p, message_id);
        history::repair_tool_pairs(&mut messages);
        let tokens: usize = estimate_all(&messages);
        let after = CompressionRun {
            history: messages,
            model: state.model,
            threshold: state.threshold,
            tokens_before: state.tokens_before,
            passes_used: state.passes_used + 1,
            passes_left: state.passes_left,
            phase: state.phase,
        };
        if tokens <= after.threshold {
            after.finish()
        } else {
            self.begin_pass(after)
        }
    }

    /// Keep a summary: record it under the session, or let it replace its span at once.
    fn keep_summary(
        &self,
        state: CompressionRun,
        p: Pending,
        level: u32,
        message_id: String,
    ) -> (r: (CompressionRun, Action))
        requires
            p.start < p.end <= state.history@.len(),
            state.passes_used + state.passes_left < u32::MAX,
        ensures
            (r.0.deep_view(), r.1.deep_view()) == self.summary_found(
                state.deep_view(),
                p.deep_view(),
                level,
                message_id@,
            ),
            r.0.deep_view().wf(),
    {
        match &self.session_id {
            Some(session) => {
                let action = Action::InsertSummary {
                    id: p.id.clone(),
                    kind: "leaf".to_owned(),
                    content: p.summary.clone(),
                    token_count: limits::count_text_tokens(p.summary.as_str()),
                    session: session.clone(),
                    level,
                };
                (state.in_phase(Phase::StoringLeaf(p)), action)
            },
            None => self.end_pass(state, p, message_id),
        }
    }

    /// A summary of the span, cut to the configured size.
    fn make_pending(&self, start: usize, end: usize, id: String, summary: &str) -> (r: Pending)
        ensures
            r.deep_view() == self.as_pending(start as int, end as int, id@, summary@),
            r.start == start,
            r.end == end,
    {
        Pending {
            start,
            end,
            id,
            summary: history::truncate_chars(summary, self.config.summary_max_chars),
        }
    }

    /// Begin a compression: nothing is done to a history within the threshold; old tool results
    /// are trimmed with `truncate`; if that is not enough the first pass begins.
    pub fn begin<F: Fn(&str, usize) -> String>(
        &self,
        messages: Vec<ChatMessage>,
        model: &str,
        threshold: usize,
        truncate: &F,
    ) -> (r: (CompressionRun, Action))
        requires
            forall|s: &str| #[trigger] truncate.requires((s, self.config.tool_result_retrim_chars)),
        ensures
            r.0.deep_view().wf(),
            self.leaves_alone(messages.deep_view(), threshold as nat) ==> (
                r.0.deep_view(),
                r.1.deep_view(),
            ) == self.begun(
                messages.deep_view(),
                messages.deep_view(),
                model@,
                threshold as nat,
            ),
            !self.leaves_alone(messages.deep_view(), threshold as nat) ==> exists|
                trimmed: Seq<MessageView>,
            |
                {
                    &&& #[trigger] config::is_trimmed(
                        self.config,
                        *truncate,
                        messages.deep_view(),
                        trimmed,
                    )
                    &&& (r.0.deep_view(), r.1.deep_view()) == self.begun(
                        messages.deep_view(),
                        trimmed,
                        model@,
                        threshold as nat,
                    )
                },
    {
        let ghost given = messages.deep_view();
        let tokens: usize = estimate_all(&messages);
        let mut state = CompressionRun {
            history: messages,
            model: self.choose_model(model),
            threshold,
            tokens_before: tokens,
            passes_used: 0,
            passes_left: self.config.max_passes,
            phase: Phase::Finished,
        };
        if !self.config.enabled || tokens <= threshold {
            let result = CompressionResult {
                compressed: false,
                tokens_before: tokens,
                tokens_after: tokens,
                passes_used: 0,
            };
            return (state, Action::Finish(result));
        }
        let saved: usize = self.fast_trim_tool_results(&mut state.history, truncate);
        let ghost trimmed = state.history.deep_view();
        assert(config::is_trimmed(self.config, *truncate, given, trimmed));
        if saved > 0 {
            let left: usize = estimate_all(&state.history);
            if left <= threshold {
                let result = CompressionResult {
                    compressed: true,
                    tokens_before: tokens,
                    tokens_after: left,
                    passes_used: 0,
                };
                return (state, Action::Finish(result));
            }
        }
        self.begin_pass(state)
    }

    /// Carry a compression one step further once an event has come in, with given identifiers for
    /// what the step creates.
    pub fn step_with(
        &self,
        state: CompressionRun,
        event: Event,
        summary_id: String,
        message_id: String,
    ) -> (r: (CompressionRun, Action))
        requires
            state.deep_view().wf(),
        ensures
            (r.0.deep_view(), r.1.deep_view()) == self.next(
                state.deep_view(),
                event.deep_view(),
                summary_id@,
                message_id@,
            ),
            r.0.deep_view().wf(),
    {
        let ghost given = state.deep_view();
        let CompressionRun {
            history,
            model,
            threshold,
            tokens_before,
            passes_used,
            passes_left,
            phase,
        } = state;
        let rest = CompressionRun {
            history,
            model,
            threshold,
            tokens_before,
            passes_used,
            passes_left,
            phase: Phase::Finished,
        };
        match phase {
            Phase::Level1 { start, end, transcript } => {
                let reply = take_reply(event);
                if accepts(&reply, transcript.as_str()) {
                    let s = reply.unwrap();
                    let p = self.make_pending(start, end, summary_id, s.as_str());
                    self.keep_summary(rest, p, 1, message_id)
                } else {
                    let prompt = write_level2_prompt(
                        end - start,
                        note_for(&self.config),
                        transcript.as_str(),
                    );
                    let model = rest.model.clone();
                    (
                        rest.in_phase(Phase::Level2 { start, end, transcript }),
                        Action::Chat { model, prompt },
                    )
                }
            },
            Phase::Level2 { start, end, transcript } => {
                let reply = take_reply(event);
                if accepts(&reply, transcript.as_str()) {
                    let s = reply.unwrap();
                    let p = self.make_pending(start, end, summary_id, s.as_str());
                    self.keep_summary(rest, p, 2, message_id)
                } else {
                    let s = history::level3_deterministic(segment(&rest.history, start, end));
                    let p = self.make_pending(start, end, summary_id, s.as_str());
                    self.keep_summary(rest, p, 3, message_id)
                }
            },
            Phase::StoringLeaf(p) => {
                if was_stored(&event) {
                    let sources = list_message_sources(segment(&rest.history, p.start, p.end));
                    let id = p.id.clone();
                    (rest.in_phase(Phase::LinkingLeaf(p)), Action::LinkSources { id, sources })
                } else {
                    self.end_pass(rest, p, message_id)
                }
            },
            Phase::LinkingLeaf(p) => (
                rest.in_phase(Phase::CountingLeaves(p)),
                Action::CountLeaves { session: self.session() },
            ),
            Phase::CountingLeaves(p) => match event {
                Event::LeafCount(Some(n)) if n > self.config.condensed_summary_leaf_limit => (
                    rest.in_phase(Phase::LoadingLeaves(p)),
                    Action::LoadLeaves { session: self.session() },
                ),
                _ => self.end_pass(rest, p, message_id),
            },
            Phase::LoadingLeaves(p) => match event {
                Event::Leaves(Some(leaves)) => {
                    if leaves.len() > self.config.condensed_summary_leaf_limit {
                        let prompt = write_condense_prompt(&leaves);
                        let model = rest.model.clone();
                        (
                            rest.in_phase(Phase::Condensing(p, leaves)),
                            Action::Chat { model, prompt },
                        )
                    } else {
                        self.end_pass(rest, p, message_id)
                    }
                },
                _ => self.end_pass(rest, p, message_id),
            },
            Phase::Condensing(p, leaves) => {
                let answer = match take_reply(event) {
                    Some(s) => s,
                    None => digest_leaves(&leaves),
                };
                let content = history::truncate_chars(
                    answer.as_str(),
                    self.config.summary_max_chars,
                );
                let token_count: usize = limits::count_text_tokens(content.as_str());
                let action = Action::InsertSummary {
                    id: summary_id.clone(),
                    kind: "condensed".to_owned(),
                    content,
                    token_count,
                    session: self.session(),
                    level: find_top_level(&leaves),
                };
                (
                    rest.in_phase(Phase::StoringCondensed(p, summary_id, leaf_ids(&leaves))),
                    action,
                )
            },
            Phase::StoringCondensed(p, id, ids) => {
                if was_stored(&event) {
                    let sources = list_summary_sources(&ids);
                    (rest.in_phase(Phase::LinkingCondensed(p)), Action::LinkSources { id, sources })
                } else {
                    self.end_pass(rest, p, message_id)
                }
            },
            Phase::LinkingCondensed(p) => self.end_pass(rest, p, message_id),
            Phase::Finished => rest.finish(),
        }
    }

    /// Carry a compression one step further once an event has come in.
    pub fn step(&self, state: CompressionRun, event: Event) -> (r: (CompressionRun, Action))
        requires
            state.deep_view().wf(),
        ensures
            r.0.deep_view().wf(),
            exists|summary_id: Seq<char>, message_id: Seq<char>|
                {
                    &&& clock::is_identifier(summary_id)
                    &&& clock::is_identifier(message_id)
                    &&& (r.0.deep_view(), r.1.deep_view()) == #[trigger] self.next(
                        state.deep_view(),
                        event.deep_view(),
                        summary_id,
                        message_id,
                    )
                },
    {
        self.step_with(state, event, clock::new_id(), clock::new_id())
    }
}

} // verus!
