//! What holds of every compression.
use crate::context_compressor::config;
use crate::context_compressor::config::ContextCompressionConfig;
use crate::context_compressor::config::ContextCompressor;
use crate::context_compressor::history;
use crate::context_compressor::limits;
use crate::context_compressor::run;
use crate::context_compressor::run::ActionView;
use crate::context_compressor::run::EventView;
use crate::context_compressor::run::PendingView;
use crate::context_compressor::run::PhaseView;
use crate::context_compressor::run::RunView;
use crate::letters;
use crate::messages::MessageView;
use crate::text;
use vstd::prelude::*;

verus! {

/// How far a phase is from the end of its pass.
pub open spec fn steps_left_in_pass(phase: PhaseView) -> nat {
    match phase {
        PhaseView::Level1 { start, end, transcript } => 9,
        PhaseView::Level2 { start, end, transcript } => 8,
        PhaseView::StoringLeaf(p) => 7,
        PhaseView::LinkingLeaf(p) => 6,
        PhaseView::CountingLeaves(p) => 5,
        PhaseView::LoadingLeaves(p) => 4,
        PhaseView::Condensing(p, leaves) => 3,
        PhaseView::StoringCondensed(p, id, sources) => 2,
        PhaseView::LinkingCondensed(p) => 1,
        PhaseView::Finished => 0,
    }
}

/// A bound on the steps that a compression still takes.
pub open spec fn steps_left(state: RunView) -> nat {
    if state.phase is Finished {
        0
    } else {
        10 * state.passes_left + steps_left_in_pass(state.phase)
    }
}

/// Compression always terminates: whatever comes back, every step brings a compression that is
/// not over nearer to its end.
pub proof fn law_compression_terminates(
    c: ContextCompressor,
    state: RunView,
    event: EventView,
    summary_id: Seq<char>,
    message_id: Seq<char>,
)
    requires
        !(state.phase is Finished),
    ensures
        steps_left(c.next(state, event, summary_id, message_id).0) < steps_left(state),
{
}

/// A compression that is over stays over, with the same history.
pub proof fn law_finished_stays_finished(
    c: ContextCompressor,
    state: RunView,
    event: EventView,
    summary_id: Seq<char>,
    message_id: Seq<char>,
)
    requires
        state.phase is Finished,
    ensures
        c.next(state, event, summary_id, message_id).0 == state,
{
}

proof fn lemma_replaced_len(messages: Seq<MessageView>, p: PendingView, message_id: Seq<char>)
    requires
        0 <= p.start < p.end <= messages.len(),
    ensures
        history::repaired(run::replaced(messages, p, message_id)).len() <= messages.len(),
{
    history::law_repair_removes_orphans(run::replaced(messages, p, message_id));
}

/// A step never makes the history longer, and passes used and left never exceed what was granted.
pub proof fn law_step_never_grows(
    c: ContextCompressor,
    state: RunView,
    event: EventView,
    summary_id: Seq<char>,
    message_id: Seq<char>,
)
    requires
        state.wf(),
    ensures
        ({
            let after = c.next(state, event, summary_id, message_id).0;
            let in_pass = |s: RunView| if s.phase is Finished { 0nat } else { 1nat };
            &&& after.history.len() <= state.history.len()
            &&& after.passes_used + after.passes_left + in_pass(after) <= state.passes_used
                + state.passes_left + in_pass(state)
        }),
{
    match state.phase {
        PhaseView::Level1 { start, end, transcript } => {
            if run::is_accepted(run::reply_in(event), transcript) {
                lemma_replaced_len(
                    state.history,
                    c.as_pending(start, end, summary_id, run::reply_in(event)->0),
                    message_id,
                );
            }
        },
        PhaseView::Level2 { start, end, transcript } => {
            lemma_replaced_len(
                state.history,
                c.as_pending(start, end, summary_id, run::reply_in(event)->0),
                message_id,
            );
            lemma_replaced_len(
                state.history,
                c.as_pending(
                    start,
                    end,
                    summary_id,
                    history::digest(state.history.subrange(start, end)),
                ),
                message_id,
            );
        },
        PhaseView::StoringLeaf(p) => {
            lemma_replaced_len(state.history, p, message_id);
        },
        PhaseView::LinkingLeaf(p) => {},
        PhaseView::CountingLeaves(p) => {
            lemma_replaced_len(state.history, p, message_id);
        },
        PhaseView::LoadingLeaves(p) => {
            lemma_replaced_len(state.history, p, message_id);
        },
        PhaseView::Condensing(p, leaves) => {},
        PhaseView::StoringCondensed(p, id, sources) => {
            lemma_replaced_len(state.history, p, message_id);
        },
        PhaseView::LinkingCondensed(p) => {
            lemma_replaced_len(state.history, p, message_id);
        },
        PhaseView::Finished => {},
    }
}

/// The end of a pass keeps every message outside the span that is no tool result, in order, with
/// the placeholder between head and tail, and leaves no orphaned tool result.
pub proof fn law_pass_keeps_both_ends(
    messages: Seq<MessageView>,
    p: PendingView,
    message_id: Seq<char>,
)
    requires
        0 <= p.start < p.end <= messages.len(),
    ensures
        history::spoken(history::repaired(run::replaced(messages, p, message_id)))
            == history::spoken(messages.take(p.start)).push(
            run::placeholder(p.id, p.summary, message_id),
        ) + history::spoken(messages.skip(p.end)),
        history::is_sound(history::repaired(run::replaced(messages, p, message_id))),
{
    let after = run::replaced(messages, p, message_id);
    history::law_repair_removes_orphans(after);
    let keep = |m: MessageView| !history::is_tool(m);
    let put = run::placeholder(p.id, p.summary, message_id);
    let head = messages.take(p.start);
    let tail = messages.skip(p.end);
    reveal_strlit("assistant");
    reveal_strlit("tool");
    assert("assistant"@.len() != "tool"@.len());
    assert(keep(put));
    Seq::filter_distributes_over_add(head + seq![put], tail, keep);
    Seq::filter_distributes_over_add(head, seq![put], keep);
    reveal(Seq::filter);
    assert(seq![put].drop_last() =~= Seq::empty());
    assert(Seq::<MessageView>::empty().filter(keep) =~= Seq::empty());
    assert(seq![put].filter(keep) =~= seq![put]);
    assert(head.filter(keep) + seq![put] =~= head.filter(keep).push(put));
}

/// The summary that a phase holds.
pub open spec fn pending_of(phase: PhaseView) -> Option<PendingView> {
    match phase {
        PhaseView::StoringLeaf(p) => Some(p),
        PhaseView::LinkingLeaf(p) => Some(p),
        PhaseView::CountingLeaves(p) => Some(p),
        PhaseView::LoadingLeaves(p) => Some(p),
        PhaseView::Condensing(p, leaves) => Some(p),
        PhaseView::StoringCondensed(p, id, sources) => Some(p),
        PhaseView::LinkingCondensed(p) => Some(p),
        _ => None,
    }
}

/// Once a summary is found it replaces its span, whatever happens to the records: each step either
/// leaves the history and the summary as they are or ends the pass with that summary.
pub proof fn law_found_summary_replaces_its_span(
    c: ContextCompressor,
    state: RunView,
    event: EventView,
    summary_id: Seq<char>,
    message_id: Seq<char>,
)
    requires
        pending_of(state.phase) is Some,
    ensures
        ({
            let p = pending_of(state.phase)->0;
            let after = c.next(state, event, summary_id, message_id);
            ||| after.0.history == state.history && pending_of(after.0.phase) == Some(p)
            ||| after == c.pass_ended(state, p, message_id)
        }),
{
}

/// The sources that are linked to a leaf summary are the identifiers of exactly the messages that
/// its placeholder replaces, in order.
pub proof fn law_sources_are_the_replaced_messages(
    c: ContextCompressor,
    state: RunView,
    event: EventView,
    summary_id: Seq<char>,
    message_id: Seq<char>,
)
    requires
        state.wf(),
        state.phase is StoringLeaf,
        run::stored_in(event),
    ensures
        ({
            let p = state.phase->StoringLeaf_0;
            let after = c.next(state, event, summary_id, message_id);
            &&& after.1 matches ActionView::LinkSources { id, sources }
            &&& id == p.id
            &&& sources.len() == p.end - p.start
            &&& forall|i: int|
                0 <= i < sources.len() ==> #[trigger] sources[i] == (
                    state.history[p.start + i].id,
                    "message"@,
                )
            &&& state.history == state.history.take(p.start) + state.history.subrange(
                p.start,
                p.end,
            ) + state.history.skip(p.end)
            &&& pending_of(after.0.phase) == Some(p)
            &&& after.0.history == state.history
        }),
{
    let p = state.phase->StoringLeaf_0;
    assert(state.history =~= state.history.take(p.start) + state.history.subrange(p.start, p.end)
        + state.history.skip(p.end));
}

/// Escalation: after two answers that do not shrink the transcript the deterministic summary is
/// used, at level 3, without asking the model again.
pub proof fn law_two_unhelpful_answers_fall_back(
    c: ContextCompressor,
    state: RunView,
    first: EventView,
    second: EventView,
    summary_id: Seq<char>,
    message_id: Seq<char>,
)
    requires
        state.phase is Level1,
        !run::is_accepted(run::reply_in(first), state.phase->Level1_transcript),
        !run::is_accepted(run::reply_in(second), state.phase->Level1_transcript),
    ensures
        ({
            let start = state.phase->Level1_start;
            let end = state.phase->Level1_end;
            let asked = c.next(state, first, summary_id, message_id);
            &&& asked.1 is Chat
            &&& c.next(asked.0, second, summary_id, message_id) == c.summary_found(
                asked.0,
                c.as_pending(
                    start,
                    end,
                    summary_id,
                    history::digest(state.history.subrange(start, end)),
                ),
                3,
                message_id,
            )
        }),
{
}

/// A line of the deterministic summary exceeds its role by at most 517 bytes.
pub proof fn law_digest_line_bound(m: MessageView)
    ensures
        text::utf8_len(history::digest_line(m)) <= text::utf8_len(letters::uppered(m.role)) + 517,
{
    let role = letters::uppered(m.role);
    let body = history::shortened(text::trimmed(m.content), 512);
    history::law_shortened_bound(text::trimmed(m.content), 512);
    text::lemma_utf8_len_concat(role + ": "@, body);
    text::lemma_utf8_len_concat(role, ": "@);
    reveal_strlit(": ");
    reveal_with_fuel(text::utf8_len, 3);
}

/// A history within the threshold is left alone, and so is any history while compression is
/// switched off.
pub proof fn law_within_threshold_is_left_alone(
    c: ContextCompressor,
    messages: Seq<MessageView>,
    trimmed: Seq<MessageView>,
    model: Seq<char>,
    threshold: nat,
)
    requires
        limits::estimate(messages) <= threshold || !c.config.enabled,
    ensures
        ({
            let begun = c.begun(messages, trimmed, model, threshold);
            &&& begun.0.history == messages
            &&& begun.0.phase is Finished
            &&& begun.1 == ActionView::Finish {
                compressed: false,
                tokens_before: limits::estimate(messages),
                tokens_after: limits::estimate(messages),
                passes_used: 0,
            }
        }),
{
}

/// The span that a pass replaces spares the protected ends, and parts no tool result from its
/// call: it does not begin with a tool result, and none follows it.
pub proof fn law_span_spares_protected_ends(
    config: ContextCompressionConfig,
    messages: Seq<MessageView>,
)
    requires
        run::span(config, messages) is Some,
    ensures
        ({
            let (start, end) = run::span(config, messages)->0;
            &&& config.protect_first_n <= start < end <= messages.len() - config.protect_last_n
            &&& !history::is_tool(messages[start])
            &&& end < messages.len() ==> !history::is_tool(messages[end])
        }),
{
    history::law_aligned_forward(messages, config.protect_first_n as int);
    history::law_aligned_backward(messages, messages.len() - config.protect_last_n);
}

/// A pass over a history without orphaned tool results changes nothing but its span: every message
/// before and behind it stays, and no repair is needed.
pub proof fn law_pass_changes_only_its_span(
    config: ContextCompressionConfig,
    messages: Seq<MessageView>,
    p: PendingView,
    message_id: Seq<char>,
)
    requires
        history::is_sound(messages),
        run::span(config, messages) == Some((p.start, p.end)),
    ensures
        history::repaired(run::replaced(messages, p, message_id)) == run::replaced(
            messages,
            p,
            message_id,
        ),
        history::is_sound(run::replaced(messages, p, message_id)),
{
    law_span_spares_protected_ends(config, messages);
    let after = run::replaced(messages, p, message_id);
    reveal_strlit("assistant");
    reveal_strlit("tool");
    assert("assistant"@.len() != "tool"@.len());
    assert forall|k: int| 0 <= k < after.len() implies #[trigger] history::is_well_placed(
        after,
        k,
    ) by {
        if k < p.start {
            assert(history::is_well_placed(messages, k));
        } else if k > p.start {
            let x = k - p.start - 1 + p.end;
            assert(after[k] == messages[x]);
            if x > p.end {
                assert(history::is_well_placed(messages, x));
                assert(after[k - 1] == messages[x - 1]);
            }
        }
    }
    history::law_sound_history_needs_no_repair(after);
}

/// The fast trim of tool results orphans none of them.
pub proof fn law_trim_keeps_history_sound<F: Fn(&str, usize) -> String>(
    config: ContextCompressionConfig,
    truncate: F,
    before: Seq<MessageView>,
    after: Seq<MessageView>,
)
    requires
        config::is_trimmed(config, truncate, before, after),
        history::is_sound(before),
    ensures
        history::is_sound(after),
{
    assert forall|k: int| 0 <= k < after.len() implies #[trigger] history::is_well_placed(
        after,
        k,
    ) by {
        assert(history::is_well_placed(before, k));
        assert(config::is_trimmed_at(config, truncate, before, after[k], k));
        if k > 0 {
            assert(config::is_trimmed_at(config, truncate, before, after[k - 1], k - 1));
        }
    }
}

/// Whether a compression is over or works on the span of its history.
pub open spec fn is_on_span(c: ContextCompressor, state: RunView) -> bool {
    state.phase is Finished || run::phase_span(state.phase) == run::span(c.config, state.history)
}

/// A compression works on the span of its history from its beginning on.
pub proof fn law_begins_on_its_span(
    c: ContextCompressor,
    messages: Seq<MessageView>,
    trimmed: Seq<MessageView>,
    model: Seq<char>,
    threshold: nat,
)
    ensures
        is_on_span(c, c.begun(messages, trimmed, model, threshold).0),
{
}

/// A history without orphaned tool results stays one, whatever comes back, and the compression
/// goes on to work on the span of its history.
pub proof fn law_sound_history_stays_sound(
    c: ContextCompressor,
    state: RunView,
    event: EventView,
    summary_id: Seq<char>,
    message_id: Seq<char>,
)
    requires
        is_on_span(c, state),
        history::is_sound(state.history),
    ensures
        is_on_span(c, c.next(state, event, summary_id, message_id).0),
        history::is_sound(c.next(state, event, summary_id, message_id).0.history),
{
    match state.phase {
        PhaseView::Level1 { start, end, transcript } => {
            let p = c.as_pending(start, end, summary_id, run::reply_in(event)->0);
            law_pass_changes_only_its_span(c.config, state.history, p, message_id);
        },
        PhaseView::Level2 { start, end, transcript } => {
            let p = c.as_pending(start, end, summary_id, run::reply_in(event)->0);
            law_pass_changes_only_its_span(c.config, state.history, p, message_id);
            let q = c.as_pending(
                start,
                end,
                summary_id,
                history::digest(state.history.subrange(start, end)),
            );
            law_pass_changes_only_its_span(c.config, state.history, q, message_id);
        },
        PhaseView::Finished => {},
        _ => {
            let p = pending_of(state.phase)->0;
            law_pass_changes_only_its_span(c.config, state.history, p, message_id);
        },
    }
}

/// A compression begins with no more passes than configured, so with a bounded number of steps.
pub proof fn law_passes_are_bounded_at_the_start(
    c: ContextCompressor,
    messages: Seq<MessageView>,
    trimmed: Seq<MessageView>,
    model: Seq<char>,
    threshold: nat,
)
    ensures
        ({
            let begun = c.begun(messages, trimmed, model, threshold).0;
            &&& begun.passes_used == 0
            &&& begun.passes_left <= c.config.max_passes
            &&& !(begun.phase is Finished) ==> begun.passes_left < c.config.max_passes
            &&& steps_left(begun) <= 10 * c.config.max_passes
        }),
{
}

} // verus!
