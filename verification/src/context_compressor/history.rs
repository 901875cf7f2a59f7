//! The parts of a history: boundaries, orphaned tool results, transcripts.
use crate::letters;
use crate::messages::ChatMessage;
use crate::messages::MessageView;
use crate::render;
use crate::text;
use vstd::prelude::*;

verus! {

// ---------------------------------------------------------------------------
// Boundary alignment
// ---------------------------------------------------------------------------

/// Whether a message is a tool result.
pub open spec fn is_tool(m: MessageView) -> bool {
    m.role == "tool"@
}

/// The first position from `i` on that holds no tool result.
pub open spec fn aligned_forward(messages: Seq<MessageView>, i: int) -> int
    decreases messages.len() - i,
{
    if 0 <= i < messages.len() && is_tool(messages[i]) {
        aligned_forward(messages, i + 1)
    } else {
        i
    }
}

/// The last position from `i` down that holds no tool result, or the start.
pub open spec fn aligned_backward(messages: Seq<MessageView>, i: int) -> int
    decreases i,
{
    if 0 < i < messages.len() && is_tool(messages[i]) {
        aligned_backward(messages, i - 1)
    } else {
        i
    }
}

/// Move boundary forward past any orphaned tool results at the start.
pub fn align_boundary_forward(messages: &[ChatMessage], idx: usize) -> (r: usize)
    ensures
        r == aligned_forward(messages.deep_view(), idx as int),
        idx <= r,
        idx <= messages@.len() ==> r <= messages@.len(),
{
    let ghost all = messages.deep_view();
    let mut i: usize = idx;
    while i < messages.len() && messages[i].has_role("tool")
        invariant
            idx <= i,
            idx <= messages@.len() ==> i <= messages@.len(),
            all == messages.deep_view(),
            aligned_forward(all, idx as int) == aligned_forward(all, i as int),
        decreases messages@.len() - i,
    {
        i += 1;
    }
    i
}

/// Move boundary backward past any tool_call-bearing assistant messages at the end
/// so their results stay in the protected tail.
pub fn align_boundary_backward(messages: &[ChatMessage], idx: usize) -> (r: usize)
    ensures
        r == aligned_backward(messages.deep_view(), idx as int),
        r <= idx,
{
    let ghost all = messages.deep_view();
    let mut i: usize = idx;
    while i > 0 && i < messages.len() && messages[i].has_role("tool")
        invariant
            i <= idx,
            all == messages.deep_view(),
            aligned_backward(all, idx as int) == aligned_backward(all, i as int),
        decreases i,
    {
        i -= 1;
    }
    i
}

/// A forward boundary skips tool results only, and stops behind the last of them.
pub proof fn law_aligned_forward(messages: Seq<MessageView>, i: int)
    requires
        0 <= i <= messages.len(),
    ensures
        i <= aligned_forward(messages, i) <= messages.len(),
        forall|k: int| i <= k < aligned_forward(messages, i) ==> is_tool(#[trigger] messages[k]),
        aligned_forward(messages, i) < messages.len() ==> !is_tool(
            messages[aligned_forward(messages, i)],
        ),
    decreases messages.len() - i,
{
    if i < messages.len() && is_tool(messages[i]) {
        law_aligned_forward(messages, i + 1);
    }
}

/// A backward boundary leaves every tool result that it passes in the tail, and never begins the
/// tail with a tool result unless the tail is the whole history.
pub proof fn law_aligned_backward(messages: Seq<MessageView>, i: int)
    requires
        0 <= i <= messages.len(),
    ensures
        0 <= aligned_backward(messages, i) <= i,
        forall|k: int|
            aligned_backward(messages, i) < k <= i && k < messages.len() ==> is_tool(
                #[trigger] messages[k],
            ),
        0 < aligned_backward(messages, i) < messages.len() ==> !is_tool(
            messages[aligned_backward(messages, i)],
        ),
    decreases i,
{
    if 0 < i < messages.len() && is_tool(messages[i]) {
        law_aligned_backward(messages, i - 1);
    }
}

// ---------------------------------------------------------------------------
// Tool pair repair
// ---------------------------------------------------------------------------

/// Whether a message stands for messages that were summarized away.
pub open spec fn is_summary(m: MessageView) -> bool {
    ||| render::contains_text(m.content, "[SUMMARY:"@)
    ||| render::contains_text(m.content, "[CONTEXT SUMMARY"@)
}

/// Whether a message may be answered by tool results: it is one of the assistant's, and stands for
/// itself.
pub open spec fn is_caller(m: MessageView) -> bool {
    m.role == "assistant"@ && !is_summary(m)
}

/// Whether a tool result may directly follow a message: a caller, or another result of its calls.
pub open spec fn takes_result(m: MessageView) -> bool {
    is_tool(m) || is_caller(m)
}

/// The history without orphaned tool results: a run of tool results stays only if it directly
/// follows a caller.
pub open spec fn repaired(messages: Seq<MessageView>) -> Seq<MessageView>
    decreases messages.len(),
{
    if messages.len() == 0 {
        messages
    } else {
        let kept = repaired(messages.drop_last());
        if is_tool(messages.last()) && !(kept.len() > 0 && takes_result(kept.last())) {
            kept
        } else {
            kept.push(messages.last())
        }
    }
}

/// Whether the message stands for messages that were summarized away.
fn stands_for_summary(m: &ChatMessage) -> (r: bool)
    ensures
        r == is_summary(m.deep_view()),
{
    render::contains(m.content.as_str(), "[SUMMARY:") || render::contains(
        m.content.as_str(),
        "[CONTEXT SUMMARY",
    )
}

/// Whether a tool result may directly follow the message.
fn may_take_result(m: &ChatMessage) -> (r: bool)
    ensures
        r == takes_result(m.deep_view()),
{
    m.has_role("tool") || (m.has_role("assistant") && !stands_for_summary(m))
}

/// Remove the message at a position.
fn remove_at(messages: &mut Vec<ChatMessage>, at: usize)
    requires
        at < old(messages)@.len(),
    ensures
        final(messages).deep_view() == old(messages).deep_view().remove(at as int),
        final(messages)@.len() == old(messages)@.len() - 1,
{
    let ghost before = messages.deep_view();
    let _ = messages.remove(at);
    assert(messages.deep_view() =~= before.remove(at as int));
}

/// Remove orphaned tool results.
///
/// After compression, some tool results may belong to calls that were summarized away. This
/// function cleans up the history so that every tool result has a matching assistant message. A
/// message does not show whether it called tools, so no call is given a result here; the spans
/// that are replaced part none from its results.
pub fn repair_tool_pairs(messages: &mut Vec<ChatMessage>)
    ensures
        final(messages).deep_view() == repaired(old(messages).deep_view()),
{
    let ghost all = messages.deep_view();
    let ghost mut seen: int = 0;
    let mut i: usize = 0;
    assert(all.take(0) =~= Seq::empty());
    assert(messages.deep_view().take(0) =~= Seq::empty());
    assert(messages.deep_view().skip(0) =~= all.skip(0));
    while i < messages.len()
        invariant
            i <= messages@.len(),
            0 <= seen <= all.len(),
            messages.deep_view().take(i as int) == repaired(all.take(seen)),
            messages.deep_view().skip(i as int) == all.skip(seen),
        decreases all.len() - seen,
    {
        let ghost now = messages.deep_view();
        proof {
            assert(now.skip(i as int).len() == all.skip(seen).len());
            assert(now.skip(i as int)[0] == now[i as int]);
            assert(all.skip(seen)[0] == all[seen]);
            assert(all.take(seen + 1).drop_last() =~= all.take(seen));
            assert(all.skip(seen + 1) =~= all.skip(seen).skip(1));
            if i > 0 {
                assert(now.take(i as int).last() == now[i - 1]);
            }
            seen = seen + 1;
        }
        if messages[i].has_role("tool") && !(i > 0 && may_take_result(&messages[i - 1])) {
            remove_at(messages, i);
            proof {
                assert(now.remove(i as int).take(i as int) =~= now.take(i as int));
                assert(now.remove(i as int).skip(i as int) =~= now.skip(i as int).skip(1));
            }
        } else {
            proof {
                assert(now.take(i as int).push(now[i as int]) =~= now.take(i + 1));
                assert(now.skip(i + 1) =~= now.skip(i as int).skip(1));
            }
            i += 1;
        }
    }
    proof {
        assert(messages.deep_view().skip(i as int).len() == 0);
        assert(all.skip(seen).len() == all.len() - seen);
        assert(all.take(seen) =~= all);
        assert(messages.deep_view().take(i as int) =~= messages.deep_view());
    }
}

/// Whether the message at a position is no tool result, or directly follows one that may take it.
pub open spec fn is_well_placed(messages: Seq<MessageView>, k: int) -> bool {
    is_tool(messages[k]) ==> k > 0 && takes_result(messages[k - 1])
}

/// Whether a history holds no orphaned tool result.
pub open spec fn is_sound(messages: Seq<MessageView>) -> bool {
    forall|k: int| 0 <= k < messages.len() ==> #[trigger] is_well_placed(messages, k)
}

/// The messages that are no tool results.
pub open spec fn spoken(messages: Seq<MessageView>) -> Seq<MessageView> {
    messages.filter(|m: MessageView| !is_tool(m))
}

/// In a sound history every tool result has a matching assistant message: one before it that may
/// be answered, with nothing but tool results between the two.
pub proof fn law_results_are_matched(messages: Seq<MessageView>, k: int)
    requires
        is_sound(messages),
        0 <= k < messages.len(),
        is_tool(messages[k]),
    ensures
        exists|j: int|
            0 <= j < k && is_caller(#[trigger] messages[j]) && (forall|x: int|
                j < x <= k ==> is_tool(#[trigger] messages[x])),
    decreases k,
{
    assert(is_well_placed(messages, k));
    if is_tool(messages[k - 1]) {
        law_results_are_matched(messages, k - 1);
        let j = choose|j: int|
            0 <= j < k - 1 && is_caller(#[trigger] messages[j]) && (forall|x: int|
                j < x <= k - 1 ==> is_tool(#[trigger] messages[x]));
        assert(is_caller(messages[j]));
    } else {
        assert(is_caller(messages[k - 1]));
    }
}

/// A history without orphaned tool results needs no repair.
pub proof fn law_sound_history_needs_no_repair(messages: Seq<MessageView>)
    requires
        is_sound(messages),
    ensures
        repaired(messages) == messages,
    decreases messages.len(),
{
    if messages.len() > 0 {
        let front = messages.drop_last();
        assert forall|k: int| 0 <= k < front.len() implies #[trigger] is_well_placed(front, k) by {
            assert(is_well_placed(messages, k));
        }
        law_sound_history_needs_no_repair(front);
        assert(is_well_placed(messages, messages.len() - 1));
        assert(front.push(messages.last()) =~= messages);
    }
}

/// After a repair no tool result is orphaned, the messages that are no tool results are all there
/// in their order, and the history did not grow.
pub proof fn law_repair_removes_orphans(messages: Seq<MessageView>)
    ensures
        is_sound(repaired(messages)),
        spoken(repaired(messages)) == spoken(messages),
        repaired(messages).len() <= messages.len(),
    decreases messages.len(),
{
    reveal(Seq::filter);
    if messages.len() > 0 {
        law_repair_removes_orphans(messages.drop_last());
        let kept = repaired(messages.drop_last());
        let longer = kept.push(messages.last());
        assert(longer.drop_last() =~= kept);
        if repaired(messages) == longer {
            assert forall|k: int| 0 <= k < longer.len() implies #[trigger] is_well_placed(
                longer,
                k,
            ) by {
                if k < kept.len() {
                    assert(is_well_placed(kept, k));
                }
            }
        }
    }
}

/// Repairing twice is repairing once.
pub proof fn law_repair_is_idempotent(messages: Seq<MessageView>)
    ensures
        repaired(repaired(messages)) == repaired(messages),
{
    law_repair_removes_orphans(messages);
    law_sound_history_needs_no_repair(repaired(messages));
}

// ---------------------------------------------------------------------------
// Transcripts
// ---------------------------------------------------------------------------

/// A text cut to `max` bytes at a character boundary, with three dots behind the cut.
pub open spec fn shortened(s: Seq<char>, max: nat) -> Seq<char> {
    render::truncated(s, max, "..."@)
}

/// Cut a text to `max` bytes at a character boundary, with three dots behind the cut.
pub fn truncate_chars(s: &str, max: usize) -> (r: String)
    ensures
        r@ == shortened(s@, max as nat),
{
    render::truncate_with(s, max, "...")
}

/// A cut text holds at most three bytes more than the limit.
pub proof fn law_shortened_bound(s: Seq<char>, max: nat)
    ensures
        text::utf8_len(shortened(s, max)) <= max + 3,
{
    render::lemma_truncated_bound(s, max, "..."@);
    reveal_strlit("...");
    reveal_with_fuel(text::utf8_len, 4);
}

/// One line for each message: its role in capitals and its trimmed content.
pub open spec fn transcript_lines(messages: Seq<MessageView>) -> Seq<char>
    decreases messages.len(),
{
    if messages.len() == 0 {
        Seq::empty()
    } else {
        let m = messages.last();
        transcript_lines(messages.drop_last()) + letters::uppered(m.role) + ": "@ + text::trimmed(
            m.content,
        ) + "\n"@
    }
}

/// The transcript of a segment, cut to `max` bytes.
pub open spec fn transcript(messages: Seq<MessageView>, max: nat) -> Seq<char> {
    shortened(transcript_lines(messages), max)
}

/// The transcript of a segment, cut to `max_chars` bytes.
pub fn build_transcript(messages: &[ChatMessage], max_chars: usize) -> (r: String)
    ensures
        r@ == transcript(messages.deep_view(), max_chars as nat),
{
    let ghost all = messages.deep_view();
    let mut out = String::new();
    let mut i: usize = 0;
    assert(all.take(0) =~= Seq::empty());
    while i < messages.len()
        invariant
            i <= messages@.len(),
            all == messages.deep_view(),
            out@ == transcript_lines(all.take(i as int)),
        decreases messages@.len() - i,
    {
        proof {
            assert(all.take(i + 1).drop_last() =~= all.take(i as int));
            assert(all.take(i + 1).last() == messages@[i as int].deep_view());
        }
        let role = letters::to_upper(messages[i].role.as_str());
        let body = text::trim(messages[i].content.as_str());
        out.append(role.as_str());
        out.append(": ");
        out.append(body.as_str());
        out.append("\n");
        i += 1;
    }
    assert(all.take(all.len() as int) =~= all);
    truncate_chars(out.as_str(), max_chars)
}

/// One line of the deterministic summary: the role in capitals and the content cut to 512 bytes.
pub open spec fn digest_line(m: MessageView) -> Seq<char> {
    letters::uppered(m.role) + ": "@ + shortened(text::trimmed(m.content), 512)
}

/// The deterministic summary of a segment.
pub open spec fn digest(messages: Seq<MessageView>) -> Seq<char> {
    render::joined(messages.map_values(|m: MessageView| digest_line(m)), "\n"@)
}

/// Level 3 deterministic summarization: truncate each message to 512 chars and join.
/// No LLM call — always terminates.
pub fn level3_deterministic(messages: &[ChatMessage]) -> (r: String)
    ensures
        r@ == digest(messages.deep_view()),
{
    let ghost all = messages.deep_view();
    let mut lines: Vec<String> = Vec::new();
    let mut i: usize = 0;
    while i < messages.len()
        invariant
            i <= messages@.len(),
            all == messages.deep_view(),
            lines.deep_view() == all.take(i as int).map_values(|m: MessageView| digest_line(m)),
        decreases messages@.len() - i,
    {
        let ghost before = lines.deep_view();
        let mut line = letters::to_upper(messages[i].role.as_str());
        let body = text::trim(messages[i].content.as_str());
        let short = truncate_chars(body.as_str(), 512);
        line.append(": ");
        line.append(short.as_str());
        let ghost written = line@;
        assert(written == digest_line(all[i as int]));
        lines.push(line);
        assert(lines.deep_view() =~= before.push(written));
        i += 1;
        assert(lines.deep_view() =~= all.take(i as int).map_values(
            |m: MessageView| digest_line(m),
        ));
    }
    assert(all.take(all.len() as int) =~= all);
    render::join(&lines, "\n")
}

} // verus!
