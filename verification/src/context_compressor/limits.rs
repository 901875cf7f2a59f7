//! Token estimates and context window limits.
use crate::letters;
use crate::messages::ChatMessage;
use crate::messages::MessageView;
use crate::patterns;
use crate::render;
use crate::text;
use vstd::prelude::*;

verus! {

// ---------------------------------------------------------------------------
// Probe tiers
// ---------------------------------------------------------------------------

/// The next smaller window to try when the model's own limit is unknown.
pub open spec fn probe_tier(current: nat) -> nat {
    if current > 2_000_000 {
        2_000_000
    } else if current > 1_000_000 {
        1_000_000
    } else if current > 512_000 {
        512_000
    } else if current > 200_000 {
        200_000
    } else if current > 128_000 {
        128_000
    } else if current > 64_000 {
        64_000
    } else {
        32_000
    }
}

/// The next smaller window to try when the model's own limit is unknown.
pub fn next_probe_tier(current: usize) -> (r: usize)
    ensures
        r == probe_tier(current as nat),
{
    let tiers: [usize; 7] = [2_000_000, 1_000_000, 512_000, 200_000, 128_000, 64_000, 32_000];
    let mut i: usize = 0;
    while i < 7
        invariant
            i <= 7,
            tiers@ == seq![
                2_000_000usize, 1_000_000, 512_000, 200_000, 128_000, 64_000, 32_000,
            ],
            forall|k: int| 0 <= k < i ==> tiers@[k] >= current,
        decreases 7 - i,
    {
        if tiers[i] < current {
            assert(i > 0 ==> tiers@[i - 1] >= current);
            return tiers[i];
        }
        i += 1;
    }
    assert(tiers@[5] >= current);
    32_000
}

/// Above the floor a probe step always goes down, and it never goes below the floor.
pub proof fn law_probe_tier_steps_down(current: nat)
    ensures
        current > 32_000 ==> probe_tier(current) < current,
        probe_tier(current) >= 32_000,
        probe_tier(32_000) == 32_000,
{
}

/// Seven probe steps reach the floor from any window.
pub proof fn law_probe_tiers_reach_the_floor(current: nat)
    ensures
        probe_tier(
            probe_tier(
                probe_tier(probe_tier(probe_tier(probe_tier(probe_tier(current))))),
            ),
        ) == 32_000,
{
}

// ---------------------------------------------------------------------------
// Limits in error messages
// ---------------------------------------------------------------------------

/// The smallest limit that an error message is believed to state.
pub const MIN_LIMIT: usize = 1024;

/// The largest limit that an error message is believed to state.
pub const MAX_LIMIT: usize = 10_000_000;

/// The patterns that find a limit in a provider's error message, the more telling ones first.
pub open spec fn limit_patterns() -> Seq<Seq<char>> {
    seq![
        r"(?:max(?:imum)?|limit)\s*(?:context\s*)?(?:length|size|window)?\s*(?:is|of|:)?\s*(\d{4,})"@,
        r"context\s*(?:length|size|window)\s*(?:is|of|:)?\s*(\d{4,})"@,
        r"(\d{4,})\s*(?:tokens?\s*)?(?:context|limit)"@,
        r"available context size\s*\(\s*(\d{4,})"@,
        r">\s*(\d{4,})\s*(?:maximum|max)?\s*(?:context)?\s*(?:length|size|window|tokens?)"@,
    ]
}

/// The limit that a captured group states: a number in the believable range.
pub open spec fn limit_in_group(group: Option<Seq<char>>) -> Option<nat> {
    match group {
        Some(s) => match render::parsed_number(s, usize::MAX as nat) {
            Some(n) => if MIN_LIMIT <= n <= MAX_LIMIT {
                Some(n)
            } else {
                None
            },
            None => None,
        },
        None => None,
    }
}

/// The limit that the first telling group states.
pub open spec fn limit_in_groups(groups: Seq<Option<Seq<char>>>) -> Option<nat>
    decreases groups.len(),
{
    if groups.len() == 0 {
        None
    } else if limit_in_group(groups[0]) is Some {
        limit_in_group(groups[0])
    } else {
        limit_in_groups(groups.skip(1))
    }
}

/// The limit that an error message states.
pub open spec fn stated_limit(message: Seq<char>) -> Option<nat> {
    limit_in_groups(
        limit_patterns().map_values(
            |p: Seq<char>| patterns::first_group(p, letters::lowered(message)),
        ),
    )
}

/// The limit that the first telling group states.
pub fn limit_from_groups(groups: &Vec<Option<String>>) -> (r: Option<usize>)
    ensures
        match r {
            Some(n) => limit_in_groups(groups.deep_view()) == Some(n as nat),
            None => limit_in_groups(groups.deep_view()) is None,
        },
{
    let ghost all = groups.deep_view();
    let mut i: usize = 0;
    assert(all.skip(0) =~= all);
    while i < groups.len()
        invariant
            i <= groups@.len(),
            all == groups.deep_view(),
            limit_in_groups(all) == limit_in_groups(all.skip(i as int)),
        decreases groups@.len() - i,
    {
        proof {
            assert(all.skip(i as int)[0] == groups@[i as int].deep_view());
            assert(all.skip(i as int).skip(1) =~= all.skip(i + 1));
        }
        match &groups[i] {
            Some(s) => {
                match render::parse_usize(s.as_str()) {
                    Some(n) => {
                        if MIN_LIMIT <= n && n <= MAX_LIMIT {
                            return Some(n);
                        }
                    },
                    None => {},
                }
            },
            None => {},
        }
        i += 1;
    }
    None
}

/// Try to extract the actual context window limit from a provider error message.
pub fn parse_context_limit_from_error(msg: &str) -> (r: Option<usize>)
    ensures
        match r {
            Some(n) => stated_limit(msg@) == Some(n as nat),
            None => stated_limit(msg@) is None,
        },
{
    let lower = letters::to_lower(msg);
    let hay = lower.as_str();
    let groups = vec![
        patterns::capture_first(
            r"(?:max(?:imum)?|limit)\s*(?:context\s*)?(?:length|size|window)?\s*(?:is|of|:)?\s*(\d{4,})",
            hay,
        ),
        patterns::capture_first(
            r"context\s*(?:length|size|window)\s*(?:is|of|:)?\s*(\d{4,})",
            hay,
        ),
        patterns::capture_first(r"(\d{4,})\s*(?:tokens?\s*)?(?:context|limit)", hay),
        patterns::capture_first(r"available context size\s*\(\s*(\d{4,})", hay),
        patterns::capture_first(
            r">\s*(\d{4,})\s*(?:maximum|max)?\s*(?:context)?\s*(?:length|size|window|tokens?)",
            hay,
        ),
    ];
    assert(groups.deep_view() =~= limit_patterns().map_values(
        |p: Seq<char>| patterns::first_group(p, letters::lowered(msg@)),
    ));
    limit_from_groups(&groups)
}

/// A limit read from an error message is always in the believable range.
pub proof fn law_stated_limit_in_range(groups: Seq<Option<Seq<char>>>)
    ensures
        limit_in_groups(groups) matches Some(n) ==> MIN_LIMIT <= n <= MAX_LIMIT,
    decreases groups.len(),
{
    if groups.len() > 0 {
        law_stated_limit_in_range(groups.skip(1));
    }
}

// ---------------------------------------------------------------------------
// Token estimates
// ---------------------------------------------------------------------------

/// The tokens of a text at four bytes each, rounded up.
pub open spec fn text_tokens(s: Seq<char>) -> nat {
    (text::utf8_len(s) + 3) / 4
}

/// The tokens of a text at four bytes each, rounded up.
pub fn count_text_tokens(s: &str) -> (r: usize)
    ensures
        r == text_tokens(s@),
        r <= usize::MAX / 4 + 1,
{
    let n: usize = text::byte_len(s);
    n / 4 + (if n % 4 == 0 { 0 } else { 1 })
}

/// The tokens of a history before the safety margin: those of each content and four for its
/// framing.
pub open spec fn raw_tokens(messages: Seq<MessageView>) -> nat
    decreases messages.len(),
{
    if messages.len() == 0 {
        0
    } else {
        raw_tokens(messages.drop_last()) + text_tokens(messages.last().content) + 4
    }
}

/// The estimate for a history: a fifth more than the raw count, rounded down, as far as a `usize`
/// holds it.
pub open spec fn estimate(messages: Seq<MessageView>) -> nat {
    let with_margin = raw_tokens(messages) * 6 / 5;
    if with_margin <= usize::MAX {
        with_margin
    } else {
        usize::MAX as nat
    }
}

/// Estimate token count for a message history using ~4 chars/token heuristic
/// with a 1.2x safety margin.
pub fn estimate_tokens(messages: &[ChatMessage]) -> (r: usize)
    ensures
        r == estimate(messages.deep_view()),
{
    let ghost all = messages.deep_view();
    let mut raw: u128 = 0;
    let mut i: usize = 0;
    assert(all.take(0) =~= Seq::empty());
    while i < messages.len()
        invariant
            i <= messages@.len(),
            all == messages.deep_view(),
            raw == raw_tokens(all.take(i as int)),
            raw <= i * (usize::MAX / 4 + 5),
        decreases messages@.len() - i,
    {
        let t: usize = count_text_tokens(messages[i].content.as_str());
        proof {
            assert(all.take(i + 1).drop_last() =~= all.take(i as int));
            assert(all.take(i + 1).last() == messages@[i as int].deep_view());
            assert(i * (usize::MAX / 4 + 5) + usize::MAX / 4 + 5 == (i + 1) * (usize::MAX / 4 + 5))
                by (nonlinear_arith);
            assert((i + 1) * (usize::MAX / 4 + 5) <= 0xffff_ffff_ffff_ffff * 0x4000_0000_0000_0005)
                by (nonlinear_arith)
                requires
                    i + 1 <= usize::MAX <= 0xffff_ffff_ffff_ffff,
            ;
        }
        raw += t as u128 + 4;
        i += 1;
    }
    assert(all.take(all.len() as int) =~= all);
    let margin: u128 = raw / 5;
    if raw > usize::MAX as u128 || margin > usize::MAX as u128 - raw {
        usize::MAX
    } else {
        (raw + margin) as usize
    }
}

/// A history estimates no lower than its head: dropping messages never raises the estimate.
pub proof fn law_estimate_grows(messages: Seq<MessageView>, n: int)
    requires
        0 <= n <= messages.len(),
    ensures
        estimate(messages.take(n)) <= estimate(messages),
    decreases messages.len() - n,
{
    if n < messages.len() {
        law_estimate_grows(messages, n + 1);
        assert(messages.take(n + 1).drop_last() =~= messages.take(n));
    } else {
        assert(messages.take(n) =~= messages);
    }
}

} // verus!
