//! Settings of the compressor, and the trimming of old tool results.
use crate::context_compressor::limits;
use crate::messages::ChatMessage;
use crate::messages::MessageView;
use crate::context_compressor::history;
use crate::render;
use crate::text;
use vstd::prelude::*;

verus! {

/// The bit pattern of the double 0.5.
pub const HALF_BITS: u64 = 0x3FE0_0000_0000_0000;

/// The bit pattern of the double 0.8.
pub const FOUR_FIFTHS_BITS: u64 = 0x3FE9_9999_9999_999A;

/// Settings of the context compressor. The two ratios of the context window are doubles, carried
/// by their bit patterns.
#[derive(Debug)]
pub struct ContextCompressionConfig {
    pub enabled: bool,
    pub threshold_ratio_bits: u64,
    pub hard_threshold_ratio_bits: u64,
    pub protect_first_n: usize,
    pub protect_last_n: usize,
    pub max_passes: u32,
    pub summary_max_chars: usize,
    pub source_max_chars: usize,
    pub timeout_secs: u64,
    pub summary_model: Option<String>,
    pub identifier_policy: String,
    pub tool_result_retrim_chars: usize,
    pub tool_result_trim_exempt: Vec<String>,
    pub condensed_summary_leaf_limit: usize,
}

impl Default for ContextCompressionConfig {
    fn default() -> (r: ContextCompressionConfig)
        ensures
            r.enabled,
            r.threshold_ratio_bits == HALF_BITS,
            r.hard_threshold_ratio_bits == FOUR_FIFTHS_BITS,
            r.protect_first_n == 3,
            r.protect_last_n == 4,
            r.max_passes == 3,
            r.summary_max_chars == 4_000,
            r.source_max_chars == 50_000,
            r.timeout_secs == 60,
            r.summary_model is None,
            r.identifier_policy@ == "strict"@,
            r.tool_result_retrim_chars == 2_000,
            r.tool_result_trim_exempt@.len() == 0,
            r.condensed_summary_leaf_limit == 10,
    {
        ContextCompressionConfig {
            enabled: true,
            threshold_ratio_bits: HALF_BITS,
            hard_threshold_ratio_bits: FOUR_FIFTHS_BITS,
            protect_first_n: 3,
            protect_last_n: 4,
            max_passes: 3,
            summary_max_chars: 4_000,
            source_max_chars: 50_000,
            timeout_secs: 60,
            summary_model: None,
            identifier_policy: "strict".to_owned(),
            tool_result_retrim_chars: 2_000,
            tool_result_trim_exempt: Vec::new(),
            condensed_summary_leaf_limit: 10,
        }
    }
}

/// Compresses histories that outgrow the context window.
#[derive(Debug)]
pub struct ContextCompressor {
    pub config: ContextCompressionConfig,
    pub context_window: usize,
    /// Session of the summary records. Without one no summary is recorded.
    pub session_id: Option<String>,
}

/// Whether a text holds one of the marks that exempt it from trimming.
pub open spec fn is_exempt(content: Seq<char>, marks: Seq<Seq<char>>) -> bool {
    exists|i: int| 0 <= i < marks.len() && render::contains_text(content, #[trigger] marks[i])
}

/// Whether the message at `i` is an oversized tool result outside the protected ends.
pub open spec fn is_trimmable(
    config: ContextCompressionConfig,
    messages: Seq<MessageView>,
    i: int,
) -> bool {
    &&& config.tool_result_retrim_chars > 0
    &&& config.protect_first_n <= i < messages.len() - config.protect_last_n
    &&& history::is_tool(messages[i])
    &&& text::utf8_len(messages[i].content) > config.tool_result_retrim_chars
    &&& !is_exempt(messages[i].content, config.tool_result_trim_exempt.deep_view())
    &&& !render::contains_text(messages[i].content, "data:image/"@)
}

/// Whether the message at `i` of `after` is that of `before`, or what `truncate` makes of it where
/// it is trimmable.
pub open spec fn is_trimmed_at<F: Fn(&str, usize) -> String>(
    config: ContextCompressionConfig,
    truncate: F,
    before: Seq<MessageView>,
    after: MessageView,
    i: int,
) -> bool {
    if is_trimmable(config, before, i) {
        &&& after.id == before[i].id
        &&& after.role == before[i].role
        &&& is_cut(truncate, before[i].content, config.tool_result_retrim_chars, after.content)
    } else {
        after == before[i]
    }
}

/// Whether `after` is `before` with the trimmable contents, and nothing else, replaced by what
/// `truncate` makes of them.
pub open spec fn is_trimmed<F: Fn(&str, usize) -> String>(
    config: ContextCompressionConfig,
    truncate: F,
    before: Seq<MessageView>,
    after: Seq<MessageView>,
) -> bool {
    &&& after.len() == before.len()
    &&& forall|i: int|
        0 <= i < before.len() ==> is_trimmed_at(config, truncate, before, #[trigger] after[i], i)
}

/// Whether `truncate` may make `after` of `before`.
pub open spec fn is_cut<F: Fn(&str, usize) -> String>(
    truncate: F,
    before: Seq<char>,
    max: usize,
    after: Seq<char>,
) -> bool {
    exists|s: &str, r: String|
        s@ == before && r@ == after && #[trigger] truncate.ensures((s, max), r)
}

/// The bytes that contents lost, those that grew counted as unchanged.
pub open spec fn bytes_lost(before: Seq<MessageView>, after: Seq<MessageView>) -> nat
    decreases before.len(),
{
    if before.len() == 0 || after.len() != before.len() {
        0
    } else {
        let b = text::utf8_len(before.last().content);
        let a = text::utf8_len(after.last().content);
        bytes_lost(before.drop_last(), after.drop_last()) + if a < b {
            (b - a) as nat
        } else {
            0
        }
    }
}

fn holds_mark(content: &str, marks: &Vec<String>) -> (r: bool)
    ensures
        r == is_exempt(content@, marks.deep_view()),
{
    let mut i: usize = 0;
    while i < marks.len()
        invariant
            i <= marks@.len(),
            forall|k: int|
                0 <= k < i ==> !render::contains_text(content@, #[trigger] marks.deep_view()[k]),
        decreases marks@.len() - i,
    {
        assert(marks.deep_view()[i as int] == marks@[i as int]@);
        if render::contains(content, marks[i].as_str()) {
            return true;
        }
        i += 1;
    }
    false
}

impl ContextCompressor {
    pub fn new(config: ContextCompressionConfig, context_window: usize) -> (r: ContextCompressor)
        ensures
            r.config == config,
            r.context_window == context_window,
            r.session_id is None,
    {
        ContextCompressor { config, context_window, session_id: None }
    }

    /// Record summaries under a session: every compression then records a summary and the
    /// messages that it stands for.
    pub fn with_sqlite_memory(self, session_id: String) -> (r: ContextCompressor)
        ensures
            r.config == self.config,
            r.context_window == self.context_window,
            r.session_id == Some(session_id),
    {
        ContextCompressor {
            config: self.config,
            context_window: self.context_window,
            session_id: Some(session_id),
        }
    }

    /// Update the context window size (e.g. after error-driven probing).
    pub fn set_context_window(&mut self, window: usize)
        ensures
            final(self).context_window == window,
            final(self).config == old(self).config,
            final(self).session_id == old(self).session_id,
    {
        self.context_window = window;
    }

    /// Adjust the window to what a context-length error says: to the limit that its message
    /// states, or else to the next probe tier.
    pub fn adjust_window(&mut self, error_msg: &str)
        ensures
            final(self).config == old(self).config,
            final(self).session_id == old(self).session_id,
            final(self).context_window == match limits::stated_limit(error_msg@) {
                Some(limit) => limit,
                None => limits::probe_tier(old(self).context_window as nat),
            },
    {
        match limits::parse_context_limit_from_error(error_msg) {
            Some(limit) => {
                self.context_window = limit;
            },
            None => {
                self.context_window = limits::next_probe_tier(self.context_window);
            },
        }
    }

    /// Whether the message at `i` is an oversized tool result outside the protected ends.
    fn may_trim(&self, messages: &Vec<ChatMessage>, i: usize) -> (r: bool)
        requires
            i < messages@.len(),
        ensures
            r == is_trimmable(self.config, messages.deep_view(), i as int),
    {
        let max: usize = self.config.tool_result_retrim_chars;
        if max == 0 || i < self.config.protect_first_n || messages.len() - i
            <= self.config.protect_last_n {
            return false;
        }
        let content = messages[i].content.as_str();
        assert(messages.deep_view()[i as int] == messages@[i as int].deep_view());
        messages[i].has_role("tool") && text::byte_len(content) > max && !holds_mark(
            content,
            &self.config.tool_result_trim_exempt,
        ) && !render::contains(content, "data:image/")
    }

    /// Fast-path: trim oversized tool results in non-protected messages with `truncate`.
    /// Returns the bytes saved. No LLM call needed.
    pub fn fast_trim_tool_results<F: Fn(&str, usize) -> String>(
        &self,
        history: &mut Vec<ChatMessage>,
        truncate: &F,
    ) -> (saved: usize)
        requires
            forall|s: &str| #[trigger] truncate.requires((s, self.config.tool_result_retrim_chars)),
        ensures
            is_trimmed(
                self.config,
                *truncate,
                old(history).deep_view(),
                final(history).deep_view(),
            ),
            saved == bytes_lost(old(history).deep_view(), final(history).deep_view()) || saved
                == usize::MAX && bytes_lost(old(history).deep_view(), final(history).deep_view())
                > usize::MAX,
    {
        let ghost before = history.deep_view();
        let max: usize = self.config.tool_result_retrim_chars;
        let mut saved: usize = 0;
        let ghost mut lost: nat = 0;
        let mut i: usize = 0;
        while i < history.len()
            invariant
                i <= history@.len(),
                history@.len() == before.len(),
                max == self.config.tool_result_retrim_chars,
                forall|s: &str| #[trigger] truncate.requires((s, max)),
                forall|k: int|
                    i <= k < before.len() ==> #[trigger] history.deep_view()[k] == before[k],
                forall|k: int|
                    0 <= k < i ==> is_trimmed_at(
                        self.config,
                        *truncate,
                        before,
                        #[trigger] history.deep_view()[k],
                        k,
                    ),
                lost == bytes_lost(before.take(i as int), history.deep_view().take(i as int)),
                saved == lost || saved == usize::MAX && lost > usize::MAX,
            decreases history@.len() - i,
        {
            let ghost now = history.deep_view();
            assert(now[i as int] == before[i as int]);
            proof {
                lemma_trimmable_here(self.config, before, now, i as int);
            }
            if self.may_trim(history, i) {
                let size: usize = text::byte_len(history[i].content.as_str());
                let content = truncate(history[i].content.as_str(), max);
                let left: usize = text::byte_len(content.as_str());
                proof {
                    assert(is_cut(*truncate, before[i as int].content, max, content@));
                }
                saved = saved.saturating_add(size.saturating_sub(left));
                let id = history[i].id.clone();
                let role = history[i].role.clone();
                history.set(i, ChatMessage { id, role, content });
            }
            proof {
                let after = history.deep_view();
                assert(before.take(i + 1).drop_last() =~= before.take(i as int));
                assert(after.take(i + 1).drop_last() =~= now.take(i as int));
                assert(before.take(i + 1).last() == before[i as int]);
                assert(after.take(i + 1).last() == after[i as int]);
                lost = bytes_lost(before.take(i + 1), after.take(i + 1));
                assert forall|k: int| 0 <= k < before.len() && k != i implies #[trigger] after[k]
                    == now[k] by {}
            }
            i += 1;
        }
        proof {
            let after = history.deep_view();
            assert(before.take(before.len() as int) =~= before);
            assert(after.take(before.len() as int) =~= after);
        }
        saved
    }
}

/// Whether a message may be trimmed depends on it and the length of the history alone.
proof fn lemma_trimmable_here(
    config: ContextCompressionConfig,
    a: Seq<MessageView>,
    b: Seq<MessageView>,
    i: int,
)
    requires
        a.len() == b.len(),
        0 <= i < a.len(),
        a[i] == b[i],
    ensures
        is_trimmable(config, a, i) == is_trimmable(config, b, i),
{
}

} // verus!
