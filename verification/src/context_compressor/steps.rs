//! What each step of a compression does, from what came in to what is sent, recorded and kept.
use crate::context_compressor::config;
use crate::context_compressor::config::ContextCompressionConfig;
use crate::context_compressor::config::ContextCompressor;
use crate::context_compressor::history;
use crate::context_compressor::limits;
use crate::context_compressor::run;
use crate::context_compressor::run::ActionView;
use crate::context_compressor::run::EventView;
use crate::context_compressor::run::LeafView;
use crate::context_compressor::run::PendingView;
use crate::context_compressor::run::PhaseView;
use crate::context_compressor::run::RunView;
use crate::letters;
use crate::messages::MessageView;
use crate::patterns;
use crate::render;
use crate::text;
use crate::text_laws;
use vstd::prelude::*;

verus! {

// ---------------------------------------------------------------------------
// Answers and summaries
// ---------------------------------------------------------------------------

/// What a session is called in the records of a compression that has none.
pub open spec fn recorded_session(c: ContextCompressor) -> Seq<char> {
    match c.session_id {
        Some(s) => s@,
        None => "unknown"@,
    }
}

/// Whether an answer is shorter than nine tenths of a transcript, and not empty.
pub open spec fn shrinks(event: EventView, transcript: Seq<char>) -> bool {
    event matches EventView::Reply(Some(s)) && s.len() > 0 && text::utf8_len(s) < text::utf8_len(
        transcript,
    ) * 9 / 10
}

/// What a prompt says of identifiers.
pub open spec fn reminder(config: ContextCompressionConfig) -> Seq<char> {
    if config.identifier_policy@ == "strict"@ {
        "\nIMPORTANT: Preserve all identifiers exactly as they appear."@
    } else {
        ""@
    }
}

/// Whether a step keeps a summary of the messages from `start` to `end`: with a session it is
/// recorded and waits for its turn, without one it replaces the messages at once.
pub open spec fn keeps(
    c: ContextCompressor,
    state: RunView,
    start: int,
    end: int,
    id: Seq<char>,
    summary: Seq<char>,
    level: u32,
    message_id: Seq<char>,
    after: (RunView, ActionView),
) -> bool {
    let p = PendingView { start, end, id, summary };
    match c.session_id {
        Some(session) => {
            &&& after.0 == RunView { phase: PhaseView::StoringLeaf(p), ..state }
            &&& after.1 == ActionView::InsertSummary {
                id,
                kind: "leaf"@,
                content: summary,
                token_count: ((text::utf8_len(summary) + 3) / 4) as nat,
                session: session@,
                level,
            }
        },
        None => after == c.pass_ended(state, p, message_id),
    }
}

/// An answer that shrinks the transcript is the summary: cut to the configured size it is what is
/// recorded, at the level of the prompt that it answers, and what stands for the messages.
pub proof fn law_accepted_answer_is_the_summary(
    c: ContextCompressor,
    state: RunView,
    reply: Seq<char>,
    summary_id: Seq<char>,
    message_id: Seq<char>,
)
    ensures
        state.phase matches PhaseView::Level1 { start, end, transcript } ==> shrinks(
            EventView::Reply(Some(reply)),
            transcript,
        ) ==> keeps(
            c,
            state,
            start,
            end,
            summary_id,
            render::truncated(reply, c.config.summary_max_chars as nat, "..."@),
            1,
            message_id,
            c.next(state, EventView::Reply(Some(reply)), summary_id, message_id),
        ),
        state.phase matches PhaseView::Level2 { start, end, transcript } ==> shrinks(
            EventView::Reply(Some(reply)),
            transcript,
        ) ==> keeps(
            c,
            state,
            start,
            end,
            summary_id,
            render::truncated(reply, c.config.summary_max_chars as nat, "..."@),
            2,
            message_id,
            c.next(state, EventView::Reply(Some(reply)), summary_id, message_id),
        ),
{
}

/// An accepted answer of at most the configured size stands in the history word for word, between
/// the messages before and those behind the ones that it stands for.
pub proof fn law_short_answer_stands_word_for_word(
    c: ContextCompressor,
    state: RunView,
    reply: Seq<char>,
    summary_id: Seq<char>,
    message_id: Seq<char>,
)
    requires
        state.wf(),
        c.session_id is None,
        state.phase is Level1 || state.phase is Level2,
        ({
            let transcript = if state.phase is Level1 {
                state.phase->Level1_transcript
            } else {
                state.phase->Level2_transcript
            };
            shrinks(EventView::Reply(Some(reply)), transcript)
        }),
        text::utf8_len(reply) <= c.config.summary_max_chars,
    ensures
        ({
            let (start, end) = run::phase_span(state.phase)->0;
            let after = c.next(state, EventView::Reply(Some(reply)), summary_id, message_id).0;
            let put = MessageView {
                id: message_id,
                role: "assistant"@,
                content: "[SUMMARY:"@ + summary_id + "]\n\n"@ + reply,
            };
            after.history == history::repaired(
                state.history.take(start) + seq![put] + state.history.skip(end),
            ) && after.history.contains(put)
        }),
{
    let (start, end) = run::phase_span(state.phase)->0;
    let put = MessageView {
        id: message_id,
        role: "assistant"@,
        content: "[SUMMARY:"@ + summary_id + "]\n\n"@ + reply,
    };
    let s = state.history.take(start) + seq![put] + state.history.skip(end);
    let p = PendingView { start, end, id: summary_id, summary: reply };
    law_pass_end(c, state, p, message_id);
    assert(s[start] == put);
    reveal_strlit("assistant");
    reveal_strlit("tool");
    assert("assistant"@.len() != "tool"@.len());
    lemma_spoken_stays(s, start);
}

/// A message that is no tool result stays through a repair.
proof fn lemma_spoken_stays(messages: Seq<MessageView>, k: int)
    requires
        0 <= k < messages.len(),
        messages[k].role != "tool"@,
    ensures
        history::repaired(messages).contains(messages[k]),
    decreases messages.len(),
{
    let front = messages.drop_last();
    let kept = history::repaired(front);
    if k == front.len() {
        assert(kept.push(messages.last())[kept.len() as int] == messages[k]);
    } else {
        lemma_spoken_stays(front, k);
        let i = choose|i: int| 0 <= i < kept.len() && kept[i] == messages[k];
        assert(kept.push(messages.last())[i] == messages[k]);
    }
}

/// After a first answer that does not shrink the transcript the model is asked once more for the
/// same messages, for ten short items at most, and the history stays as it is.
pub proof fn law_unhelpful_answer_is_asked_for_again(
    c: ContextCompressor,
    state: RunView,
    event: EventView,
    summary_id: Seq<char>,
    message_id: Seq<char>,
)
    requires
        state.phase is Level1,
        !shrinks(event, state.phase->Level1_transcript),
    ensures
        ({
            let start = state.phase->Level1_start;
            let end = state.phase->Level1_end;
            let transcript = state.phase->Level1_transcript;
            let after = c.next(state, event, summary_id, message_id);
            &&& after.0 == RunView {
                phase: PhaseView::Level2 { start, end, transcript },
                ..state
            }
            &&& after.1 == ActionView::Chat {
                model: state.model,
                prompt: "Summarize the following conversation history ("@ + render::decimal(
                    (end - start) as nat,
                )
                    + " messages). Output BULLET POINTS ONLY. Maximum 10 items. Each item ≤ 15 words. Total output must be half the input length."@
                    + reminder(c.config) + "\n\n"@ + transcript,
            }
        }),
{
}

/// After a second answer that does not shrink the transcript each message is told in a line of its
/// own, with its role and the first 512 bytes of its content, and that is the summary, at level 3.
pub proof fn law_unhelpful_model_is_done_without(
    c: ContextCompressor,
    state: RunView,
    event: EventView,
    summary_id: Seq<char>,
    message_id: Seq<char>,
)
    requires
        state.phase is Level2,
        !shrinks(event, state.phase->Level2_transcript),
    ensures
        ({
            let start = state.phase->Level2_start;
            let end = state.phase->Level2_end;
            let lines = state.history.subrange(start, end).map_values(
                |m: MessageView|
                    letters::uppered(m.role) + ": "@ + render::truncated(
                        text::trimmed(m.content),
                        512,
                        "..."@,
                    ),
            );
            keeps(
                c,
                state,
                start,
                end,
                summary_id,
                render::truncated(
                    render::joined(lines, "\n"@),
                    c.config.summary_max_chars as nat,
                    "..."@,
                ),
                3,
                message_id,
                c.next(state, event, summary_id, message_id),
            )
        }),
{
    let start = state.phase->Level2_start;
    let end = state.phase->Level2_end;
    let part = state.history.subrange(start, end);
    let lines = part.map_values(
        |m: MessageView|
            letters::uppered(m.role) + ": "@ + render::truncated(text::trimmed(m.content), 512, "..."@),
    );
    assert(part.map_values(|m: MessageView| history::digest_line(m)) =~= lines);
}

// ---------------------------------------------------------------------------
// Records
// ---------------------------------------------------------------------------

/// A recorded leaf summary is linked to the messages that it stands for, and then the leaf summaries
/// of the session are counted. One that could not be recorded stands for its messages all the same.
pub proof fn law_recorded_leaf_is_linked_and_counted(
    c: ContextCompressor,
    state: RunView,
    event: EventView,
    summary_id: Seq<char>,
    message_id: Seq<char>,
)
    ensures
        ({
            let after = c.next(state, event, summary_id, message_id);
            &&& state.phase matches PhaseView::StoringLeaf(p) ==> if event == EventView::Stored(
                true,
            ) {
                &&& after.0 == RunView { phase: PhaseView::LinkingLeaf(p), ..state }
                &&& after.1 == ActionView::LinkSources {
                    id: p.id,
                    sources: state.history.subrange(p.start, p.end).map_values(
                        |m: MessageView| (m.id, "message"@),
                    ),
                }
            } else {
                after == c.pass_ended(state, p, message_id)
            }
            &&& state.phase matches PhaseView::LinkingLeaf(p) ==> {
                &&& after.0 == RunView { phase: PhaseView::CountingLeaves(p), ..state }
                &&& after.1 == ActionView::CountLeaves { session: recorded_session(c) }
            }
        }),
{
}

/// Once a session has more leaf summaries than the limit, they are loaded, and the model is asked to
/// condense all of them, each under its number. Otherwise the pass ends.
pub proof fn law_many_leaves_are_condensed(
    c: ContextCompressor,
    state: RunView,
    event: EventView,
    summary_id: Seq<char>,
    message_id: Seq<char>,
)
    ensures
        ({
            let after = c.next(state, event, summary_id, message_id);
            let limit = c.config.condensed_summary_leaf_limit;
            &&& state.phase matches PhaseView::CountingLeaves(p) ==> if event matches EventView::LeafCount(
                Some(n),
            ) && n > limit {
                &&& after.0 == RunView { phase: PhaseView::LoadingLeaves(p), ..state }
                &&& after.1 == ActionView::LoadLeaves { session: recorded_session(c) }
            } else {
                after == c.pass_ended(state, p, message_id)
            }
            &&& state.phase matches PhaseView::LoadingLeaves(p) ==> match event {
                EventView::Leaves(Some(leaves)) if leaves.len() > limit => {
                    &&& after.0 == RunView { phase: PhaseView::Condensing(p, leaves), ..state }
                    &&& after.1 == ActionView::Chat {
                        model: state.model,
                        prompt: "Condense the following "@ + render::decimal(leaves.len())
                            + " session summaries into a single unified summary. Preserve all key facts, decisions, and identifiers.\n\n"@
                            + render::joined(
                            Seq::new(
                                leaves.len(),
                                |i: int|
                                    "Summary "@ + render::decimal((i + 1) as nat) + ": "@
                                        + leaves[i].content,
                            ),
                            "\n\n"@,
                        ),
                    }
                },
                _ => after == c.pass_ended(state, p, message_id),
            }
        }),
{
    if state.phase is LoadingLeaves && event is Leaves && event->Leaves_0 is Some {
        let leaves = event->Leaves_0->0;
        assert(Seq::new(leaves.len(), |i: int| run::numbered_leaf(leaves, i)) =~= Seq::new(
            leaves.len(),
            |i: int|
                "Summary "@ + render::decimal((i + 1) as nat) + ": "@ + leaves[i].content,
        ));
    }
}

/// Whether a level is the highest among leaves.
pub open spec fn is_highest(level: u32, leaves: Seq<LeafView>) -> bool {
    &&& forall|i: int| 0 <= i < leaves.len() ==> (#[trigger] leaves[i]).level <= level
    &&& exists|i: int| 0 <= i < leaves.len() && (#[trigger] leaves[i]).level == level
}

proof fn lemma_top_level(leaves: Seq<LeafView>)
    requires
        leaves.len() > 0,
    ensures
        is_highest(run::top_level(leaves), leaves),
    decreases leaves.len(),
{
    let top = run::top_level(leaves);
    if leaves.len() == 1 {
        assert(leaves[0].level == top);
    } else {
        let front = leaves.drop_last();
        lemma_top_level(front);
        let k = choose|k: int|
            0 <= k < front.len() && (#[trigger] front[k]).level == run::top_level(front);
        assert(leaves[k] == front[k]);
        assert forall|i: int| 0 <= i < leaves.len() implies (#[trigger] leaves[i]).level
            <= top by {
            if i < front.len() {
                assert(front[i].level <= run::top_level(front));
            }
        }
        if top == leaves.last().level {
            assert(leaves[leaves.len() - 1].level == top);
        } else {
            assert(leaves[k].level == top);
        }
    }
}

/// The answer of the model, or else the beginnings of all leaves, is recorded as the condensed
/// summary at the highest level among the leaves, and then linked to every one of them.
pub proof fn law_condensed_summary_stands_for_all_leaves(
    c: ContextCompressor,
    state: RunView,
    event: EventView,
    summary_id: Seq<char>,
    message_id: Seq<char>,
)
    ensures
        ({
            let after = c.next(state, event, summary_id, message_id);
            &&& state.phase matches PhaseView::Condensing(p, leaves) ==> {
                let answer = match event {
                    EventView::Reply(Some(s)) => s,
                    _ => render::joined(
                        leaves.map_values(
                            |l: LeafView| render::truncated(l.content, 512, "..."@),
                        ),
                        "\n"@,
                    ),
                };
                let content = render::truncated(
                    answer,
                    c.config.summary_max_chars as nat,
                    "..."@,
                );
                &&& after.0 == RunView {
                    phase: PhaseView::StoringCondensed(
                        p,
                        summary_id,
                        leaves.map_values(|l: LeafView| l.id),
                    ),
                    ..state
                }
                &&& after.1 matches ActionView::InsertSummary {
                    id,
                    kind,
                    content: recorded,
                    token_count,
                    session,
                    level,
                }
                &&& id == summary_id
                &&& kind == "condensed"@
                &&& recorded == content
                &&& token_count == (text::utf8_len(content) + 3) / 4
                &&& session == recorded_session(c)
                &&& leaves.len() > 0 ==> is_highest(level, leaves)
            }
            &&& state.phase matches PhaseView::StoringCondensed(p, id, ids) ==> if event
                == EventView::Stored(true) {
                &&& after.0 == RunView { phase: PhaseView::LinkingCondensed(p), ..state }
                &&& after.1 == ActionView::LinkSources {
                    id,
                    sources: ids.map_values(|s: Seq<char>| (s, "summary"@)),
                }
            } else {
                after == c.pass_ended(state, p, message_id)
            }
            &&& state.phase matches PhaseView::LinkingCondensed(p) ==> after == c.pass_ended(
                state,
                p,
                message_id,
            )
        }),
{
    if state.phase is Condensing {
        let leaves = state.phase->Condensing_1;
        assert(leaves.map_values(|l: LeafView| history::shortened(l.content, 512))
            =~= leaves.map_values(|l: LeafView| render::truncated(l.content, 512, "..."@)));
        if leaves.len() > 0 {
            lemma_top_level(leaves);
        }
    }
}

// ---------------------------------------------------------------------------
// Passes
// ---------------------------------------------------------------------------

/// Whether a compression is over, with the state as it is and a report of it.
pub open spec fn is_over(state: RunView, after: (RunView, ActionView)) -> bool {
    &&& after.0 == RunView { phase: PhaseView::Finished, ..state }
    &&& after.1 == ActionView::Finish {
        compressed: state.passes_used > 0,
        tokens_before: state.tokens_before,
        tokens_after: limits::estimate(state.history),
        passes_used: state.passes_used,
    }
}

/// The end of a pass: an assistant message with the summary and its identifier stands where the
/// messages stood, no tool result is orphaned, the pass is counted, and another one begins if the
/// history still exceeds the threshold.
pub proof fn law_pass_end(
    c: ContextCompressor,
    state: RunView,
    p: PendingView,
    message_id: Seq<char>,
)
    ensures
        ({
            let after = c.pass_ended(state, p, message_id);
            let next = RunView {
                history: history::repaired(
                    state.history.take(p.start) + seq![
                        MessageView {
                            id: message_id,
                            role: "assistant"@,
                            content: "[SUMMARY:"@ + p.id + "]\n\n"@ + p.summary,
                        },
                    ] + state.history.skip(p.end),
                ),
                passes_used: state.passes_used + 1,
                ..state
            };
            &&& after.0.history == next.history
            &&& after.0.passes_used == next.passes_used
            &&& limits::estimate(next.history) <= state.threshold ==> is_over(next, after)
            &&& limits::estimate(next.history) > state.threshold ==> after == c.pass_begun(next)
        }),
{
}

/// The beginning of a pass: if one is left and there is something to replace between the protected
/// ends, the model is asked to summarize it. Otherwise the compression is over.
pub proof fn law_pass_begin(c: ContextCompressor, state: RunView)
    ensures
        ({
            let after = c.pass_begun(state);
            let first = c.config.protect_first_n as int;
            let last = c.config.protect_last_n as int;
            let start = history::aligned_forward(state.history, first);
            let end = history::aligned_backward(state.history, state.history.len() - last);
            let rest = RunView { passes_left: (state.passes_left - 1) as nat, ..state };
            let transcript = render::truncated(
                history::transcript_lines(state.history.subrange(start, end)),
                c.config.source_max_chars as nat,
                "..."@,
            );
            if state.passes_left == 0 {
                is_over(state, after)
            } else if state.history.len() <= first + last || start >= end || transcript.len() == 0 {
                is_over(rest, after)
            } else {
                &&& after.0 == RunView {
                    phase: PhaseView::Level1 { start, end, transcript },
                    ..rest
                }
                &&& after.1 == ActionView::Chat {
                    model: state.model,
                    prompt: "Summarize the following conversation history ("@ + render::decimal(
                        (end - start) as nat,
                    )
                        + " messages) for context preservation. Keep it concise (max 20 bullet points)."@
                        + reminder(c.config) + "\n\n"@ + transcript,
                }
            }
        }),
{
}

/// A compression of a history over the threshold begins with its trimmed history: if trimming tool
/// results was enough it is over, and otherwise the first pass begins, with the configured model if
/// there is one.
pub proof fn law_compression_begin(
    c: ContextCompressor,
    messages: Seq<MessageView>,
    trimmed: Seq<MessageView>,
    model: Seq<char>,
    threshold: nat,
)
    requires
        c.config.enabled,
        limits::estimate(messages) > threshold,
    ensures
        ({
            let after = c.begun(messages, trimmed, model, threshold);
            let state = RunView {
                history: trimmed,
                model: match c.config.summary_model {
                    Some(m) => m@,
                    None => model,
                },
                threshold,
                tokens_before: limits::estimate(messages),
                passes_used: 0,
                passes_left: c.config.max_passes as nat,
                phase: PhaseView::Finished,
            };
            if config::bytes_lost(messages, trimmed) > 0 && limits::estimate(trimmed) <= threshold {
                &&& after.0 == state
                &&& after.1 == ActionView::Finish {
                    compressed: true,
                    tokens_before: limits::estimate(messages),
                    tokens_after: limits::estimate(trimmed),
                    passes_used: 0,
                }
            } else {
                after == c.pass_begun(state)
            }
        }),
{
}

/// A boundary before a history's end is moved over tool results alone: forward to the first message
/// that is none, backward to the last one.
pub proof fn law_boundaries_skip_tool_results(messages: Seq<MessageView>, i: int)
    requires
        0 <= i <= messages.len(),
    ensures
        ({
            let f = history::aligned_forward(messages, i);
            let b = history::aligned_backward(messages, i);
            &&& i <= f <= messages.len()
            &&& forall|k: int| i <= k < f ==> (#[trigger] messages[k]).role == "tool"@
            &&& f < messages.len() ==> messages[f].role != "tool"@
            &&& 0 <= b <= i
            &&& forall|k: int|
                b < k <= i && k < messages.len() ==> (#[trigger] messages[k]).role == "tool"@
            &&& 0 < b < messages.len() ==> messages[b].role != "tool"@
        }),
{
    history::law_aligned_forward(messages, i);
    history::law_aligned_backward(messages, i);
    let f = history::aligned_forward(messages, i);
    let b = history::aligned_backward(messages, i);
    assert forall|k: int| i <= k < f implies (#[trigger] messages[k]).role == "tool"@ by {
        assert(history::is_tool(messages[k]));
    }
    assert forall|k: int| b < k <= i && k < messages.len() implies (#[trigger] messages[k]).role
        == "tool"@ by {
        assert(history::is_tool(messages[k]));
    }
}

// ---------------------------------------------------------------------------
// Transcripts, estimates, repairs
// ---------------------------------------------------------------------------

/// The transcript tells every message in its order: the role in capitals and the whole trimmed
/// content.
pub proof fn law_transcript_tells_every_message(messages: Seq<MessageView>, m: MessageView)
    ensures
        history::transcript_lines(Seq::<MessageView>::empty()) == Seq::<char>::empty(),
        history::transcript_lines(messages.push(m)) == history::transcript_lines(messages)
            + letters::uppered(m.role) + ": "@ + text::trimmed(m.content) + "\n"@,
{
    assert(messages.push(m).drop_last() =~= messages);
}

/// What each message of a segment says stands in its transcript.
pub proof fn law_transcript_holds_every_content(messages: Seq<MessageView>, i: int)
    requires
        0 <= i < messages.len(),
    ensures
        render::contains_text(
            history::transcript_lines(messages),
            letters::uppered(messages[i].role) + ": "@ + text::trimmed(messages[i].content) + "\n"@,
        ),
    decreases messages.len(),
{
    let front = messages.drop_last();
    let lines = history::transcript_lines(front);
    let m = messages.last();
    let line = letters::uppered(m.role) + ": "@ + text::trimmed(m.content) + "\n"@;
    let e = Seq::<char>::empty();
    assert(history::transcript_lines(messages) =~= lines + line + e);
    if i == front.len() {
        text_laws::law_text_is_contained(lines, line, e);
    } else {
        law_transcript_holds_every_content(front, i);
        let n = letters::uppered(front[i].role) + ": "@ + text::trimmed(front[i].content) + "\n"@;
        text_laws::law_contained_text_stands_inside(lines, n);
        let (a, b) = choose|a: Seq<char>, b: Seq<char>| lines == #[trigger] (a + n + b);
        assert(history::transcript_lines(messages) =~= a + n + (b + line));
        text_laws::law_text_is_contained(a, n, b + line);
    }
}

/// The tokens of a history: a quarter of each content's bytes, rounded up, and four for each
/// message, with a fifth added to the sum.
pub proof fn law_estimate_counts_every_message(messages: Seq<MessageView>, m: MessageView)
    ensures
        limits::raw_tokens(Seq::<MessageView>::empty()) == 0,
        limits::raw_tokens(messages.push(m)) == limits::raw_tokens(messages) + (text::utf8_len(
            m.content,
        ) + 3) / 4 + 4,
        limits::raw_tokens(messages) * 6 / 5 <= usize::MAX ==> limits::estimate(messages)
            == limits::raw_tokens(messages) * 6 / 5,
        limits::raw_tokens(messages) * 6 / 5 > usize::MAX ==> limits::estimate(messages)
            == usize::MAX,
{
    assert(messages.push(m).drop_last() =~= messages);
}

/// The window to try next is the largest of the known sizes below the current one, or else the
/// smallest.
pub proof fn law_next_window_is_the_largest_below(current: nat, size: nat)
    ensures
        ({
            let known = |n: nat|
                n == 2_000_000 || n == 1_000_000 || n == 512_000 || n == 200_000 || n == 128_000
                    || n == 64_000 || n == 32_000;
            let next = limits::probe_tier(current);
            &&& known(next)
            &&& next < current || next == 32_000
            &&& known(size) && size < current ==> size <= next
        }),
{
}

/// A number that an error message states as the limit.
pub open spec fn is_believable(group: Option<Seq<char>>, n: nat) -> bool {
    group matches Some(s) && render::parsed_number(s, usize::MAX as nat) == Some(n) && 1024 <= n
        <= 10_000_000
}

/// The limit that an error message states is the first believable number that was captured.
pub proof fn law_first_believable_limit_counts(groups: Seq<Option<Seq<char>>>, i: int, n: nat)
    ensures
        0 <= i < groups.len() && is_believable(groups[i], n) && (forall|j: int, m: nat|
            0 <= j < i ==> !#[trigger] is_believable(groups[j], m)) ==> limits::limit_in_groups(
            groups,
        ) == Some(n),
        (forall|j: int, m: nat|
            0 <= j < groups.len() ==> !#[trigger] is_believable(groups[j], m))
            ==> limits::limit_in_groups(groups) is None,
    decreases groups.len(),
{
    if groups.len() > 0 {
        let rest = groups.skip(1);
        law_first_believable_limit_counts(rest, i - 1, n);
        assert(limits::limit_in_group(groups[0]) matches Some(m) ==> is_believable(groups[0], m));
        assert forall|j: int, m: nat| #![trigger is_believable(rest[j], m)]
            0 <= j < rest.len() implies rest[j] == groups[j + 1] by {}
    }
}

/// The limit that an error message states is looked for in its lower-case form, by five patterns,
/// the more telling ones first.
pub proof fn law_limit_is_looked_for_in_order(message: Seq<char>)
    ensures
        ({
            let hay = letters::lowered(message);
            limits::stated_limit(message) == limits::limit_in_groups(
                seq![
                    patterns::first_group(
                        r"(?:max(?:imum)?|limit)\s*(?:context\s*)?(?:length|size|window)?\s*(?:is|of|:)?\s*(\d{4,})"@,
                        hay,
                    ),
                    patterns::first_group(
                        r"context\s*(?:length|size|window)\s*(?:is|of|:)?\s*(\d{4,})"@,
                        hay,
                    ),
                    patterns::first_group(
                        r"(\d{4,})\s*(?:tokens?\s*)?(?:context|limit)"@,
                        hay,
                    ),
                    patterns::first_group(r"available context size\s*\(\s*(\d{4,})"@, hay),
                    patterns::first_group(
                        r">\s*(\d{4,})\s*(?:maximum|max)?\s*(?:context)?\s*(?:length|size|window|tokens?)"@,
                        hay,
                    ),
                ],
            )
        }),
{
    let hay = letters::lowered(message);
    let found = limits::limit_patterns().map_values(
        |p: Seq<char>| patterns::first_group(p, letters::lowered(message)),
    );
    assert(found =~= seq![found[0], found[1], found[2], found[3], found[4]]);
}

/// Whether the message at a position stays through a repair: a tool result does if an assistant
/// message that is no summary is before it, with nothing but tool results between the two.
pub open spec fn stays(messages: Seq<MessageView>, k: int) -> bool {
    messages[k].role == "tool"@ ==> exists|j: int|
        0 <= j < k && is_asking(#[trigger] messages[j]) && forall|x: int|
            j < x < k ==> (#[trigger] messages[x]).role == "tool"@
}

/// Whether a message may have called tools: it is one of the assistant's, and no summary.
pub open spec fn is_asking(m: MessageView) -> bool {
    &&& m.role == "assistant"@
    &&& !render::contains_text(m.content, "[SUMMARY:"@)
    &&& !render::contains_text(m.content, "[CONTEXT SUMMARY"@)
}

/// The messages of a history that stay.
pub open spec fn staying(messages: Seq<MessageView>) -> Seq<MessageView> {
    Seq::new(messages.len(), |k: int| k).filter(|k: int| stays(messages, k)).map_values(
        |k: int| messages[k],
    )
}

proof fn lemma_staying_step(messages: Seq<MessageView>)
    requires
        messages.len() > 0,
    ensures
        staying(messages) == if stays(messages, messages.len() - 1) {
            staying(messages.drop_last()).push(messages.last())
        } else {
            staying(messages.drop_last())
        },
{
    reveal(Seq::filter);
    let n = messages.len();
    let front = messages.drop_last();
    let all = Seq::new(n, |k: int| k);
    let some = Seq::new((n - 1) as nat, |k: int| k);
    let keep = |k: int| stays(messages, k);
    let keep_front = |k: int| stays(front, k);
    assert(all.drop_last() =~= some);
    assert forall|k: int| 0 <= k < n - 1 implies stays(messages, k) == stays(front, k) by {
        if stays(messages, k) && messages[k].role == "tool"@ {
            let j = choose|j: int|
                0 <= j < k && is_asking(#[trigger] messages[j]) && forall|x: int|
                    j < x < k ==> (#[trigger] messages[x]).role == "tool"@;
            assert(is_asking(front[j]));
            assert forall|x: int| j < x < k implies (#[trigger] front[x]).role == "tool"@ by {
                assert(messages[x].role == "tool"@);
            }
        }
        if stays(front, k) && front[k].role == "tool"@ {
            let j = choose|j: int|
                0 <= j < k && is_asking(#[trigger] front[j]) && forall|x: int|
                    j < x < k ==> (#[trigger] front[x]).role == "tool"@;
            assert(is_asking(messages[j]));
            assert forall|x: int| j < x < k implies (#[trigger] messages[x]).role == "tool"@ by {
                assert(front[x].role == "tool"@);
            }
        }
    }
    lemma_same_filter(some, keep, keep_front);
    let kept = some.filter(keep);
    assert forall|i: int| 0 <= i < kept.len() implies 0 <= #[trigger] kept[i] < n - 1 by {
        assert(kept.contains(kept[i]));
        some.lemma_filter_contains_rev(keep, kept[i]);
    }
    assert(kept.map_values(|k: int| messages[k]) =~= kept.map_values(|k: int| front[k]));
    if keep(n - 1) {
        assert(all.filter(keep) == kept.push(n - 1));
        assert(kept.push(n - 1).map_values(|k: int| messages[k]) =~= kept.map_values(
            |k: int| messages[k],
        ).push(messages.last()));
    }
}

proof fn lemma_same_filter(s: Seq<int>, a: spec_fn(int) -> bool, b: spec_fn(int) -> bool)
    requires
        forall|i: int| 0 <= i < s.len() ==> a(#[trigger] s[i]) == b(s[i]),
    ensures
        s.filter(a) == s.filter(b),
    decreases s.len(),
{
    reveal(Seq::filter);
    if s.len() > 0 {
        let front = s.drop_last();
        assert forall|i: int| 0 <= i < front.len() implies a(#[trigger] front[i]) == b(
            front[i],
        ) by {
            assert(a(s[i]) == b(s[i]));
        }
        lemma_same_filter(front, a, b);
        assert(a(s[s.len() - 1]) == b(s[s.len() - 1]));
    }
}

/// A repair keeps the messages that stay, in their order, and no others.
pub proof fn law_repair_keeps_what_stays(messages: Seq<MessageView>)
    ensures
        history::repaired(messages) == staying(messages),
    decreases messages.len(),
{
    reveal(Seq::filter);
    if messages.len() == 0 {
        assert(staying(messages) =~= messages);
    } else {
        let n = messages.len() - 1;
        let front = messages.drop_last();
        law_repair_keeps_what_stays(front);
        lemma_staying_step(messages);
        if messages.last().role == "tool"@ {
            lemma_last_result(messages);
        }
    }
}

/// A tool result at the end stays if and only if what is kept before it ends with a message that it
/// may answer, or with another result.
proof fn lemma_last_result(messages: Seq<MessageView>)
    requires
        messages.len() > 0,
        messages.last().role == "tool"@,
    ensures
        ({
            let kept = history::repaired(messages.drop_last());
            stays(messages, messages.len() - 1) <==> kept.len() > 0 && history::takes_result(
                kept.last(),
            )
        }),
    decreases messages.len(),
{
    let n = messages.len() - 1;
    let front = messages.drop_last();
    let kept = history::repaired(front);
    reveal_strlit("assistant");
    reveal_strlit("tool");
    assert("assistant"@.len() != "tool"@.len());
    if front.len() > 0 {
        let m = front.last();
        if m.role == "tool"@ {
            lemma_last_result(front);
            let before = history::repaired(front.drop_last());
            // The result at the end is matched just as the one before it.
            if stays(messages, n) {
                let j = choose|j: int|
                    0 <= j < n && is_asking(#[trigger] messages[j]) && forall|x: int|
                        j < x < n ==> (#[trigger] messages[x]).role == "tool"@;
                assert(messages[n - 1] == m);
                assert(j < n - 1);
                assert(is_asking(front[j]));
                assert forall|x: int| j < x < n - 1 implies (#[trigger] front[x]).role
                    == "tool"@ by {
                    assert(messages[x].role == "tool"@);
                }
                assert(stays(front, n - 1));
                assert(kept.last() == m);
            }
            if stays(front, n - 1) {
                let j = choose|j: int|
                    0 <= j < n - 1 && is_asking(#[trigger] front[j]) && forall|x: int|
                        j < x < n - 1 ==> (#[trigger] front[x]).role == "tool"@;
                assert(is_asking(messages[j]));
                assert forall|x: int| j < x < n implies (#[trigger] messages[x]).role
                    == "tool"@ by {
                    if x < n - 1 {
                        assert(front[x].role == "tool"@);
                    }
                }
                assert(stays(messages, n));
            } else {
                assert(kept == before);
                assert(!(before.len() > 0 && history::takes_result(before.last())));
            }
        } else {
            assert(kept.last() == m);
            assert(messages[n - 1] == m);
            if stays(messages, n) {
                let j = choose|j: int|
                    0 <= j < n && is_asking(#[trigger] messages[j]) && forall|x: int|
                        j < x < n ==> (#[trigger] messages[x]).role == "tool"@;
                if j < n - 1 {
                    assert(messages[n - 1].role == "tool"@);
                }
            }
            if is_asking(m) {
                assert(is_asking(messages[n - 1]));
                assert(stays(messages, n));
            }
        }
    }
}

// ---------------------------------------------------------------------------
// Trimming
// ---------------------------------------------------------------------------

/// Whether a message is a tool result that may be trimmed: an oversized one between the protected
/// ends that holds neither an image nor a mark that exempts it.
pub open spec fn is_oversized(
    config: ContextCompressionConfig,
    messages: Seq<MessageView>,
    i: int,
) -> bool {
    &&& 0 < config.tool_result_retrim_chars < text::utf8_len(messages[i].content)
    &&& config.protect_first_n <= i < messages.len() - config.protect_last_n
    &&& messages[i].role == "tool"@
    &&& !render::contains_text(messages[i].content, "data:image/"@)
    &&& forall|k: int|
        0 <= k < config.tool_result_trim_exempt@.len() ==> !render::contains_text(
            messages[i].content,
            (#[trigger] config.tool_result_trim_exempt@[k])@,
        )
}

/// Trimming cuts the oversized tool results between the protected ends and changes nothing else:
/// every other message stays, and those that are cut keep their identifier and role.
pub proof fn law_trim_cuts_oversized_results_alone<F: Fn(&str, usize) -> String>(
    config: ContextCompressionConfig,
    truncate: F,
    before: Seq<MessageView>,
    after: Seq<MessageView>,
    i: int,
)
    requires
        config::is_trimmed(config, truncate, before, after),
        0 <= i < before.len(),
    ensures
        after.len() == before.len(),
        after[i].id == before[i].id,
        after[i].role == before[i].role,
        !is_oversized(config, before, i) ==> after[i] == before[i],
        is_oversized(config, before, i) ==> exists|s: &str, r: String|
            s@ == before[i].content && r@ == after[i].content && #[trigger] truncate.ensures(
                (s, config.tool_result_retrim_chars),
                r,
            ),
{
    assert(config::is_trimmed_at(config, truncate, before, after[i], i));
    let marks = config.tool_result_trim_exempt.deep_view();
    if is_oversized(config, before, i) {
        assert(!config::is_exempt(before[i].content, marks)) by {
            if config::is_exempt(before[i].content, marks) {
                let k = choose|k: int|
                    0 <= k < marks.len() && render::contains_text(
                        before[i].content,
                        #[trigger] marks[k],
                    );
                assert(marks[k] == config.tool_result_trim_exempt@[k]@);
            }
        }
        assert(config::is_trimmable(config, before, i));
    } else if config::is_trimmable(config, before, i) {
        assert forall|k: int| 0 <= k < config.tool_result_trim_exempt@.len() implies
            !render::contains_text(
            before[i].content,
            (#[trigger] config.tool_result_trim_exempt@[k])@,
        ) by {
            assert(marks[k] == config.tool_result_trim_exempt@[k]@);
        }
    }
}

/// The bytes that trimming saves are those by which contents became shorter.
pub proof fn law_savings_are_counted(
    before: Seq<MessageView>,
    after: Seq<MessageView>,
    b: MessageView,
    a: MessageView,
)
    requires
        before.len() == after.len(),
    ensures
        config::bytes_lost(Seq::<MessageView>::empty(), Seq::<MessageView>::empty()) == 0,
        text::utf8_len(a.content) < text::utf8_len(b.content) ==> config::bytes_lost(
            before.push(b),
            after.push(a),
        ) == config::bytes_lost(before, after) + text::utf8_len(b.content) - text::utf8_len(
            a.content,
        ),
        text::utf8_len(a.content) >= text::utf8_len(b.content) ==> config::bytes_lost(
            before.push(b),
            after.push(a),
        ) == config::bytes_lost(before, after),
{
    assert(before.push(b).drop_last() =~= before);
    assert(after.push(a).drop_last() =~= after);
}

} // verus!
