use zeroclaw_memory::context_compressor::config::{ContextCompressionConfig, ContextCompressor};
use zeroclaw_memory::context_compressor::history::{
    align_boundary_backward, align_boundary_forward, build_transcript, level3_deterministic,
    repair_tool_pairs, truncate_chars,
};
use zeroclaw_memory::context_compressor::limits::{
    estimate_tokens, limit_from_groups, next_probe_tier, parse_context_limit_from_error,
};
use zeroclaw_memory::context_compressor::run::{Action, CompressionResult, Event, LeafSummary};
use zeroclaw_memory::messages::ChatMessage;

fn msg(role: &str, content: &str) -> ChatMessage {
    ChatMessage {
        id: String::new(),
        role: role.to_string(),
        content: content.to_string(),
    }
}

/// A recorded summary.
struct Record {
    id: String,
    kind: String,
    content: String,
    tokens: usize,
    session: String,
    level: u32,
}

/// The outside of a compression: scripted answers of the model, and the records.
struct World {
    answers: Vec<Option<String>>,
    calls: usize,
    prompts: Vec<String>,
    models: Vec<String>,
    records: Vec<Record>,
    sources: Vec<(String, String, String)>,
    refuse: bool,
}

impl World {
    fn new(answers: &[&str]) -> World {
        World {
            answers: answers.iter().map(|a| Some(a.to_string())).collect(),
            calls: 0,
            prompts: vec![],
            models: vec![],
            records: vec![],
            sources: vec![],
            refuse: false,
        }
    }
}

fn window_share(window: usize, bits: u64) -> usize {
    (window as f64 * f64::from_bits(bits)) as usize
}

fn compress(
    compressor: &ContextCompressor,
    history: &mut Vec<ChatMessage>,
    threshold: usize,
    world: &mut World,
) -> CompressionResult {
    let cut = |s: &str, max: usize| truncate_chars(s, max);
    let (mut state, mut action) = compressor.begin(history.clone(), "model", threshold, &cut);
    loop {
        let event = match action {
            Action::Finish(result) => {
                *history = state.history;
                return result;
            }
            Action::Chat { model, prompt } => {
                world.calls += 1;
                world.prompts.push(prompt);
                world.models.push(model);
                if world.answers.is_empty() {
                    Event::Reply(Some("short summary".to_string()))
                } else {
                    Event::Reply(world.answers.remove(0))
                }
            }
            Action::InsertSummary { id, kind, content, token_count, session, level } => {
                if world.refuse {
                    Event::Stored(false)
                } else {
                    world.records.push(Record {
                        id,
                        kind,
                        content,
                        tokens: token_count,
                        session,
                        level,
                    });
                    Event::Stored(true)
                }
            }
            Action::LinkSources { id, sources } => {
                for (source, kind) in sources {
                    world.sources.push((id.clone(), source, kind));
                }
                Event::Stored(true)
            }
            Action::CountLeaves { session } => Event::LeafCount(Some(
                world.records.iter().filter(|r| r.kind == "leaf" && r.session == session).count(),
            )),
            Action::LoadLeaves { session } => Event::Leaves(Some(
                world
                    .records
                    .iter()
                    .filter(|r| r.kind == "leaf" && r.session == session)
                    .map(|r| LeafSummary {
                        id: r.id.clone(),
                        content: r.content.clone(),
                        level: r.level,
                    })
                    .collect(),
            )),
        };
        let next = compressor.step(state, event);
        state = next.0;
        action = next.1;
    }
}

fn compress_if_needed(
    compressor: &ContextCompressor,
    history: &mut Vec<ChatMessage>,
    world: &mut World,
) -> CompressionResult {
    let threshold =
        window_share(compressor.context_window, compressor.config.threshold_ratio_bits);
    compress(compressor, history, threshold, world)
}

fn test_compressor(context_window: usize) -> ContextCompressor {
    let config = ContextCompressionConfig {
        enabled: true,
        threshold_ratio_bits: 0.50f64.to_bits(),
        hard_threshold_ratio_bits: 0.80f64.to_bits(),
        protect_first_n: 1,
        protect_last_n: 1,
        max_passes: 3,
        summary_max_chars: 4_000,
        source_max_chars: 50_000,
        timeout_secs: 60,
        summary_model: None,
        identifier_policy: "strict".to_string(),
        tool_result_retrim_chars: 2_000,
        tool_result_trim_exempt: vec![],
        condensed_summary_leaf_limit: 10,
    };
    ContextCompressor::new(config, context_window)
}

fn three_messages(len: usize) -> Vec<ChatMessage> {
    vec![msg("system", "sys"), msg("user", &"a".repeat(len)), msg("assistant", "response")]
}

#[test]
fn level1_compresses_normally() {
    let compressor = test_compressor(1000);
    let mut history = three_messages(1700);
    let mut world = World::new(&["• discussed topic A", "• key decision made"]);

    let result = compress_if_needed(&compressor, &mut history, &mut world);
    assert!(result.compressed, "Should have compressed");
    assert_eq!(world.calls, 1, "Level 1 only: 1 LLM call");
    assert!(history.iter().any(|m| m.content.contains("[SUMMARY:")));
    assert_eq!(result.passes_used, 1);
    assert_eq!(result.tokens_before, 528);
    assert_eq!(history.len(), 3);
    assert_eq!(history[1].role, "assistant");
    assert_eq!(history[1].id.len(), 36);
    assert!(history[1].content.ends_with("]\n\n• discussed topic A"));
    assert!(world.prompts[0].starts_with(
        "Summarize the following conversation history (1 messages) for context preservation. \
         Keep it concise (max 20 bullet points).\nIMPORTANT: Preserve all identifiers exactly as \
         they appear.\n\nUSER: aaa"
    ));
}

#[test]
fn level2_fires_when_level1_output_not_smaller() {
    let compressor = test_compressor(1000);
    let mut history = three_messages(1700);
    let l1_response = "a".repeat(10_000);
    let l2_response = "• brief bullet point summary";
    let mut world = World::new(&[l1_response.as_str(), l2_response]);

    let result = compress_if_needed(&compressor, &mut history, &mut world);
    assert!(result.compressed);
    assert_eq!(world.calls, 2, "Level 1 + Level 2 = 2 LLM calls");
    assert!(history.iter().any(|m| m.content.contains("[SUMMARY:")));
    assert!(world.prompts[1].contains("Each item ≤ 15 words. Total output must be half"));
}

#[test]
fn level3_fires_deterministically() {
    let compressor = test_compressor(1000);
    let mut history = three_messages(1700);
    let huge = "a".repeat(50_000);
    let mut world = World::new(&[huge.as_str(), huge.as_str()]);

    let result = compress_if_needed(&compressor, &mut history, &mut world);
    assert!(result.compressed);
    assert_eq!(world.calls, 2, "L1 + L2 attempted, L3 is deterministic (no LLM)");
    assert!(history.iter().any(|m| m.content.contains("[SUMMARY:")));
    assert!(history[1].content.contains(&format!("USER: {}...", "a".repeat(512))));
}

#[test]
fn failed_answers_escalate_to_level3() {
    let compressor = test_compressor(1000).with_sqlite_memory("s".to_string());
    let mut history = three_messages(1700);
    let mut world = World::new(&[]);
    world.answers = vec![None, Some(String::new())];
    let result = compress_if_needed(&compressor, &mut history, &mut world);
    assert!(result.compressed);
    assert_eq!(world.calls, 2);
    assert_eq!(world.records[0].level, 3);
}

#[test]
fn level3_always_terminates_with_very_long_input() {
    let content = "x".repeat(10_000);
    let messages: Vec<ChatMessage> = (0..5).map(|_| msg("user", &content)).collect();
    let result = level3_deterministic(&messages);
    assert!(result.len() < content.len() * 5, "Level 3 must produce shorter output");
    assert!(!result.is_empty());
    assert_eq!(result.len(), 5 * (6 + 512 + 3) + 4);
}

#[test]
fn summary_dag_insert() {
    let config = ContextCompressionConfig {
        protect_first_n: 1,
        protect_last_n: 1,
        condensed_summary_leaf_limit: 10,
        ..ContextCompressionConfig::default()
    };
    let compressor =
        ContextCompressor::new(config, 1000).with_sqlite_memory("session-dag".to_string());
    let mut history = three_messages(1700);
    let mut world = World::new(&["compact summary"]);
    compress_if_needed(&compressor, &mut history, &mut world);

    let count = world.records.iter().filter(|r| r.session == "session-dag").count();
    assert_eq!(count, 1, "One summary row inserted");
    assert_eq!(world.records[0].kind, "leaf");
    assert_eq!(world.records[0].level, 1);
    assert_eq!(world.records[0].tokens, 4);
    assert_eq!(world.records[0].content, "compact summary");
    assert!(history[1].content.starts_with(&format!("[SUMMARY:{}]", world.records[0].id)));
}

#[test]
fn refused_records_do_not_stop_a_compression() {
    let compressor = test_compressor(1000).with_sqlite_memory("s".to_string());
    let mut history = three_messages(1700);
    let mut world = World::new(&["compact summary"]);
    world.refuse = true;
    let result = compress_if_needed(&compressor, &mut history, &mut world);
    assert!(result.compressed);
    assert!(world.records.is_empty() && world.sources.is_empty());
    assert!(history[1].content.contains("compact summary"));
}

#[test]
fn summary_sources_link_messages_test() {
    let user_id = "7d9b8f1e-0000-4000-8000-000000000001".to_string();
    let config = ContextCompressionConfig {
        protect_first_n: 0,
        protect_last_n: 0,
        condensed_summary_leaf_limit: 10,
        ..ContextCompressionConfig::default()
    };
    let compressor =
        ContextCompressor::new(config, 100).with_sqlite_memory("session-s".to_string());

    let known_msg = ChatMessage {
        id: user_id.clone(),
        role: "user".to_string(),
        content: "a".repeat(1000),
    };
    let mut history = vec![known_msg];
    let mut world = World::new(&["summary text"]);
    compress_if_needed(&compressor, &mut history, &mut world);

    let linked = world
        .sources
        .iter()
        .filter(|s| s.1 == user_id && s.2 == "message")
        .count();
    assert_eq!(linked, 1, "Known message ID must be linked as a source");
    assert_eq!(world.sources[0].0, world.records[0].id);
}

#[test]
fn history_vec_contains_placeholder_after_compression() {
    let compressor = test_compressor(1000);
    let mut history = three_messages(1700);
    let mut world = World::new(&["brief summary"]);
    compress_if_needed(&compressor, &mut history, &mut world);

    assert!(
        history.iter().any(|m| m.content.starts_with("[SUMMARY:")),
        "History must contain a [SUMMARY:{{id}}] placeholder"
    );
}

#[test]
fn hard_threshold_fires_at_hard_ratio() {
    let config = ContextCompressionConfig {
        enabled: true,
        threshold_ratio_bits: 0.50f64.to_bits(),
        hard_threshold_ratio_bits: 0.80f64.to_bits(),
        protect_first_n: 1,
        protect_last_n: 1,
        condensed_summary_leaf_limit: 10,
        ..ContextCompressionConfig::default()
    };
    let compressor = ContextCompressor::new(config, 1000);
    let hard = window_share(1000, compressor.config.hard_threshold_ratio_bits);
    assert_eq!(hard, 800);

    let mut history_big = three_messages(3000);
    let mut history_med = three_messages(1700);

    let mut world = World::new(&["summary"]);
    let result = compress(&compressor, &mut history_big, hard, &mut world);
    assert!(result.compressed, "Hard threshold should fire at ~900 tokens (> 800)");

    let mut world2 = World::new(&[]);
    let result2 = compress(&compressor, &mut history_med, hard, &mut world2);
    assert!(
        !result2.compressed,
        "~527-token history is under hard threshold (800), should not compress"
    );
    assert_eq!(world2.calls, 0);
    assert_eq!(history_med.len(), 3);
    assert_eq!(result2.tokens_after, result2.tokens_before);
}

#[test]
fn condensed_summary_created_when_leaf_limit_exceeded() {
    let config = ContextCompressionConfig {
        enabled: true,
        threshold_ratio_bits: 0.5f64.to_bits(),
        hard_threshold_ratio_bits: 0.80f64.to_bits(),
        protect_first_n: 0,
        protect_last_n: 0,
        max_passes: 1,
        summary_max_chars: 4_000,
        source_max_chars: 50_000,
        timeout_secs: 60,
        summary_model: None,
        identifier_policy: "strict".to_string(),
        tool_result_retrim_chars: 2_000,
        tool_result_trim_exempt: vec![],
        condensed_summary_leaf_limit: 2,
    };
    let compressor =
        ContextCompressor::new(config, 50).with_sqlite_memory("session-cond".to_string());

    let mut world = World::new(&[]);
    for _ in 0..3 {
        let mut history = vec![msg("user", &"x".repeat(200))];
        world.answers = vec![
            Some("leaf summary content".to_string()),
            Some("condensed content".to_string()),
        ];
        compress_if_needed(&compressor, &mut history, &mut world);
    }

    let condensed: Vec<&Record> =
        world.records.iter().filter(|r| r.kind == "condensed").collect();
    assert!(condensed.len() >= 1, "At least one condensed summary should have been created");
    assert_eq!(condensed[0].session, "session-cond");
    assert_eq!(condensed[0].content, "condensed content");
    assert_eq!(condensed[0].level, 1);
    let links: Vec<&str> = world
        .sources
        .iter()
        .filter(|s| s.0 == condensed[0].id)
        .map(|s| s.2.as_str())
        .collect();
    assert_eq!(links, vec!["summary", "summary", "summary"]);
    let prompt = world.prompts.last().unwrap();
    assert!(prompt.starts_with("Condense the following 3 session summaries into a single"));
    assert!(prompt.ends_with("\n\nSummary 3: leaf summary content"));
}

#[test]
fn condensing_falls_back_to_the_leaves() {
    let config = ContextCompressionConfig {
        protect_first_n: 0,
        protect_last_n: 0,
        condensed_summary_leaf_limit: 1,
        max_passes: 1,
        ..ContextCompressionConfig::default()
    };
    let compressor = ContextCompressor::new(config, 50).with_sqlite_memory("s".to_string());
    let mut world = World::new(&[]);
    for i in 0..2 {
        let mut history = vec![msg("user", &"x".repeat(200))];
        world.answers = vec![Some(format!("leaf {i}")), None];
        compress_if_needed(&compressor, &mut history, &mut world);
    }
    let condensed = world.records.iter().find(|r| r.kind == "condensed").unwrap();
    assert_eq!(condensed.content, "leaf 0\nleaf 1");
}

#[test]
fn passes_are_bounded_and_the_configured_model_summarizes() {
    let config = ContextCompressionConfig {
        protect_first_n: 0,
        protect_last_n: 1,
        max_passes: 2,
        summary_model: Some("small".to_string()),
        identifier_policy: "loose".to_string(),
        ..ContextCompressionConfig::default()
    };
    let compressor = ContextCompressor::new(config, 10);
    let mut history: Vec<ChatMessage> =
        (0..6).map(|i| msg("user", &format!("{i} {}", "y".repeat(400)))).collect();
    let mut world = World::new(&[]);
    let result = compress_if_needed(&compressor, &mut history, &mut world);
    assert!(result.passes_used <= 2);
    assert!(history.len() <= 6);
    assert!(world.models.iter().all(|m| m == "small"));
    assert!(!world.prompts[0].contains("IMPORTANT"));
}

#[test]
fn short_histories_are_left_alone() {
    let compressor = test_compressor(10);
    let mut history = vec![msg("system", "sys"), msg("user", &"a".repeat(500))];
    let mut world = World::new(&[]);
    let result = compress_if_needed(&compressor, &mut history, &mut world);
    assert!(!result.compressed);
    assert_eq!((world.calls, history.len(), result.passes_used), (0, 2, 0));

    let config = ContextCompressionConfig {
        enabled: false,
        protect_first_n: 0,
        protect_last_n: 0,
        ..ContextCompressionConfig::default()
    };
    let off = ContextCompressor::new(config, 10);
    let mut history = three_messages(5000);
    let result = compress_if_needed(&off, &mut history, &mut world);
    assert!(!result.compressed);
    assert_eq!(history[1].content.len(), 5000);
}

#[test]
fn fast_trim_may_be_enough() {
    let config = ContextCompressionConfig {
        protect_first_n: 1,
        protect_last_n: 1,
        tool_result_retrim_chars: 100,
        ..ContextCompressionConfig::default()
    };
    let compressor = ContextCompressor::new(config, 1000);
    let mut history =
        vec![msg("user", "q"), msg("tool", &"x".repeat(4000)), msg("assistant", "a")];
    let mut world = World::new(&[]);
    let result = compress_if_needed(&compressor, &mut history, &mut world);
    assert!(result.compressed);
    assert_eq!((result.passes_used, world.calls), (0, 0));
    assert_eq!(history[1].content.len(), 103);
    assert!(result.tokens_after < result.tokens_before);
}

#[test]
fn test_estimate_tokens() {
    let messages = vec![msg("user", "hello world")];
    let tokens = estimate_tokens(&messages);
    assert!(tokens > 0);
    assert_eq!(tokens, 8);
}

#[test]
fn test_estimate_tokens_empty() {
    assert_eq!(estimate_tokens(&[]), 0);
}

#[test]
fn test_parse_context_limit_anthropic() {
    let msg = "prompt is too long: 150000 tokens > 128000 maximum context length";
    assert_eq!(parse_context_limit_from_error(msg), Some(128_000));
}

#[test]
fn test_parse_context_limit_openai() {
    let msg = "This model's maximum context length is 128000 tokens. However, your messages resulted in 150000 tokens.";
    assert_eq!(parse_context_limit_from_error(msg), Some(128_000));
}

#[test]
fn test_parse_context_limit_llamacpp() {
    let msg = "request (8968 tokens) exceeds the available context size (8448 tokens)";
    assert_eq!(parse_context_limit_from_error(msg), Some(8448));
}

#[test]
fn test_parse_context_limit_none() {
    assert_eq!(parse_context_limit_from_error("some random error"), None);
}

#[test]
fn test_parse_context_limit_rejects_small() {
    let msg = "limit is 100 tokens";
    assert_eq!(parse_context_limit_from_error(msg), None);
}

#[test]
fn context_limit_is_case_insensitive_and_bounded() {
    assert_eq!(parse_context_limit_from_error("CONTEXT WINDOW OF 131072"), Some(131_072));
    assert_eq!(parse_context_limit_from_error("limit of 20000000 tokens"), None);
    let groups = vec![
        None,
        Some("99".to_string()),
        Some("99999999999999999999999".to_string()),
        Some("2048".to_string()),
        Some("4096".to_string()),
    ];
    assert_eq!(limit_from_groups(&groups), Some(2048));
}

#[test]
fn test_next_probe_tier() {
    assert_eq!(next_probe_tier(2_000_001), 2_000_000);
    assert_eq!(next_probe_tier(2_000_000), 1_000_000);
    assert_eq!(next_probe_tier(200_000), 128_000);
    assert_eq!(next_probe_tier(64_000), 32_000);
    assert_eq!(next_probe_tier(32_000), 32_000);
    assert_eq!(next_probe_tier(10_000), 32_000);
}

#[test]
fn errors_adjust_the_window() {
    let mut compressor = test_compressor(200_000);
    compressor.adjust_window("maximum context length is 65536 tokens");
    assert_eq!(compressor.context_window, 65_536);
    compressor.adjust_window("too long");
    assert_eq!(compressor.context_window, 64_000);
    compressor.set_context_window(5);
    assert_eq!(compressor.context_window, 5);
}

#[test]
fn test_align_boundary_forward_skips_tool() {
    let messages = vec![
        msg("system", "sys"),
        msg("user", "q"),
        msg("tool", "result1"),
        msg("tool", "result2"),
        msg("user", "next"),
    ];
    assert_eq!(align_boundary_forward(&messages, 2), 4);
}

#[test]
fn test_align_boundary_forward_noop() {
    let messages = vec![msg("system", "sys"), msg("user", "q"), msg("assistant", "a")];
    assert_eq!(align_boundary_forward(&messages, 1), 1);
}

#[test]
fn boundary_moves_backward_over_tool_results() {
    let messages =
        vec![msg("user", "q"), msg("assistant", "call"), msg("tool", "1"), msg("tool", "2")];
    assert_eq!(align_boundary_backward(&messages, 3), 1);
    assert_eq!(align_boundary_backward(&messages, 4), 4);
    assert_eq!(align_boundary_backward(&messages, 0), 0);
}

#[test]
fn test_repair_tool_pairs_removes_orphaned() {
    let mut messages = vec![
        msg("system", "sys"),
        msg("assistant", "[SUMMARY:abc-123-def]\n\nstuff"),
        msg("tool", "orphaned result"),
        msg("user", "next question"),
    ];
    repair_tool_pairs(&mut messages);
    assert_eq!(messages.len(), 3);
    assert_eq!(messages[2].role, "user");
}

#[test]
fn test_repair_tool_pairs_legacy_context_summary() {
    let mut messages = vec![
        msg("system", "sys"),
        msg("assistant", "[CONTEXT SUMMARY — 5 earlier messages compressed]\nstuff"),
        msg("tool", "orphaned result"),
        msg("user", "next question"),
    ];
    repair_tool_pairs(&mut messages);
    assert_eq!(messages.len(), 3);
    assert_eq!(messages[2].role, "user");
}

#[test]
fn test_repair_tool_pairs_no_false_positives() {
    let mut messages = vec![
        msg("system", "sys"),
        msg("user", "q"),
        msg("assistant", "calling tool"),
        msg("tool", "result"),
        msg("user", "thanks"),
    ];
    repair_tool_pairs(&mut messages);
    assert_eq!(messages.len(), 5);
}

#[test]
fn repair_removes_leading_tool_results() {
    let mut messages =
        vec![msg("system", "sys"), msg("tool", "1"), msg("tool", "2"), msg("user", "q")];
    repair_tool_pairs(&mut messages);
    assert_eq!(messages.len(), 2);
    assert_eq!(messages[1].role, "user");
    let mut both = vec![msg("tool", "1"), msg("system", "sys"), msg("tool", "2")];
    repair_tool_pairs(&mut both);
    assert_eq!(both.len(), 1);
}

#[test]
fn every_tool_result_has_its_assistant_message() {
    let mut messages =
        vec![msg("system", "sys"), msg("user", "q"), msg("tool", "r"), msg("user", "next")];
    repair_tool_pairs(&mut messages);
    let left: Vec<&str> = messages.iter().map(|m| m.content.as_str()).collect();
    assert_eq!(left, vec!["sys", "q", "next"]);

    let mut several = vec![
        msg("assistant", "calling two"),
        msg("tool", "1"),
        msg("tool", "mentions [SUMMARY:"),
        msg("tool", "3"),
        msg("user", "q"),
        msg("tool", "orphan"),
        msg("tool", "orphan"),
    ];
    repair_tool_pairs(&mut several);
    assert_eq!(several.len(), 5);
}

#[test]
fn test_build_transcript() {
    let messages = vec![msg("user", "hello"), msg("assistant", "hi there")];
    let t = build_transcript(&messages, 10_000);
    assert!(t.contains("USER: hello"));
    assert!(t.contains("ASSISTANT: hi there"));
    assert_eq!(t, "USER: hello\nASSISTANT: hi there\n");
}

#[test]
fn transcript_roles_outside_ascii_are_capitalized() {
    let t = build_transcript(&[msg("größe", "  x\n")], 100);
    assert_eq!(t, "GRÖSSE: x\n");
}

#[test]
fn test_build_transcript_truncates() {
    let messages = vec![msg("user", &"x".repeat(1000))];
    let t = build_transcript(&messages, 100);
    assert!(t.len() <= 103);
}

#[test]
fn test_truncate_chars() {
    assert_eq!(truncate_chars("hello world", 5), "hello...");
    assert_eq!(truncate_chars("hi", 10), "hi");
}

#[test]
fn truncation_respects_character_boundaries() {
    assert_eq!(truncate_chars("aé漢", 2), "a...");
    assert_eq!(truncate_chars("aé漢", 3), "aé...");
    assert_eq!(truncate_chars("aé漢", 5), "aé...");
    assert_eq!(truncate_chars("aé漢", 6), "aé漢");
    assert_eq!(truncate_chars("漢", 0), "...");
}

#[test]
fn test_config_defaults() {
    let config = ContextCompressionConfig::default();
    assert!(config.enabled);
    assert!((f64::from_bits(config.threshold_ratio_bits) - 0.50).abs() < f64::EPSILON);
    assert!((f64::from_bits(config.hard_threshold_ratio_bits) - 0.80).abs() < f64::EPSILON);
    assert_eq!(config.protect_first_n, 3);
    assert_eq!(config.protect_last_n, 4);
    assert_eq!(config.max_passes, 3);
    assert_eq!(config.summary_max_chars, 4_000);
    assert_eq!(config.source_max_chars, 50_000);
    assert_eq!(config.timeout_secs, 60);
    assert!(config.summary_model.is_none());
    assert_eq!(config.identifier_policy, "strict");
    assert_eq!(config.condensed_summary_leaf_limit, 10);
}

fn fast_trim(config: ContextCompressionConfig, history: &mut Vec<ChatMessage>) -> usize {
    let compressor = ContextCompressor::new(config, 128_000);
    let cut = |s: &str, max: usize| truncate_chars(s, max);
    compressor.fast_trim_tool_results(history, &cut)
}

#[test]
fn test_fast_trim_protects_first_and_last_n() {
    let config = ContextCompressionConfig {
        protect_first_n: 2,
        protect_last_n: 2,
        tool_result_retrim_chars: 100,
        ..Default::default()
    };
    let big = "x".repeat(5_000);
    let mut history = vec![
        msg("system", "sys"),
        msg("tool", &big),
        msg("user", "q"),
        msg("tool", &big),
        msg("user", "next"),
        msg("tool", &big),
    ];
    let saved = fast_trim(config, &mut history);
    assert!(saved > 0);
    assert_eq!(saved, 4_897);
    assert_eq!(history[1].content.len(), 5_000);
    assert_eq!(history[5].content.len(), 5_000);
    assert!(history[3].content.len() <= 200);
}

#[test]
fn test_fast_trim_skips_images() {
    let config = ContextCompressionConfig {
        protect_first_n: 0,
        protect_last_n: 0,
        tool_result_retrim_chars: 100,
        ..Default::default()
    };
    let img = format!("data:image/{}", "x".repeat(5_000));
    let mut history = vec![msg("tool", &img)];
    let saved = fast_trim(config, &mut history);
    assert_eq!(saved, 0);
    assert!(history[0].content.len() > 5_000);
}

#[test]
fn test_fast_trim_skips_exempt_tools() {
    let config = ContextCompressionConfig {
        protect_first_n: 0,
        protect_last_n: 0,
        tool_result_retrim_chars: 100,
        tool_result_trim_exempt: vec!["KEEPME".to_string()],
        ..Default::default()
    };
    let content = format!("KEEPME {}", "x".repeat(5_000));
    let mut history = vec![msg("tool", &content)];
    let saved = fast_trim(config, &mut history);
    assert_eq!(saved, 0);
}

#[test]
fn test_fast_trim_skips_small_results() {
    let config = ContextCompressionConfig {
        protect_first_n: 0,
        protect_last_n: 0,
        tool_result_retrim_chars: 2_000,
        ..Default::default()
    };
    let mut history = vec![msg("tool", "small result")];
    let saved = fast_trim(config, &mut history);
    assert_eq!(saved, 0);
}

#[test]
fn test_fast_trim_skips_non_tool_messages() {
    let config = ContextCompressionConfig {
        protect_first_n: 0,
        protect_last_n: 0,
        tool_result_retrim_chars: 100,
        ..Default::default()
    };
    let big = "x".repeat(5_000);
    let mut history = vec![msg("user", &big), msg("assistant", &big)];
    let saved = fast_trim(config, &mut history);
    assert_eq!(saved, 0);
}

#[test]
fn test_fast_trim_config_defaults() {
    let config = ContextCompressionConfig::default();
    assert_eq!(config.tool_result_retrim_chars, 2_000);
    assert!(config.tool_result_trim_exempt.is_empty());
}

#[test]
fn test_fast_trim_disabled_when_zero() {
    let config = ContextCompressionConfig {
        protect_first_n: 0,
        protect_last_n: 0,
        tool_result_retrim_chars: 0,
        ..Default::default()
    };
    let big = "x".repeat(5_000);
    let mut history = vec![msg("tool", &big)];
    let saved = fast_trim(config, &mut history);
    assert_eq!(saved, 0);
}

#[test]
fn old_memories_daily_write_removed() {
    let config = ContextCompressionConfig {
        protect_first_n: 1,
        protect_last_n: 1,
        ..ContextCompressionConfig::default()
    };
    let compressor = ContextCompressor::new(config, 1000);
    let mut history = three_messages(1700);
    let mut world = World::new(&["summary"]);
    let result = compress_if_needed(&compressor, &mut history, &mut world);
    assert!(result.compressed);
    let count = world.records.iter().filter(|r| r.id.starts_with("compressed_context_")).count();
    assert_eq!(count, 0, "No compressed_context_* entries should be written");
    assert!(world.records.is_empty(), "Nothing is recorded without a session");
}

#[test]
fn repaired_histories_need_no_repair() {
    let mut once = vec![
        msg("system", "sys"),
        msg("tool", "orphan"),
        msg("assistant", "[SUMMARY:x]\n\ntext"),
        msg("tool", "orphan"),
        msg("tool", "orphan"),
        msg("assistant", "call"),
        msg("tool", "kept"),
    ];
    repair_tool_pairs(&mut once);
    let roles: Vec<String> = once.iter().map(|m| m.role.clone()).collect();
    assert_eq!(roles, vec!["system", "assistant", "assistant", "tool"]);
    let mut twice = once.clone();
    repair_tool_pairs(&mut twice);
    assert_eq!(twice.len(), once.len());
    assert!(twice.iter().zip(&once).all(|(a, b)| a.role == b.role && a.content == b.content));
}

#[test]
fn finished_compressions_stay_finished() {
    let compressor = test_compressor(1_000_000);
    let cut = |s: &str, max: usize| truncate_chars(s, max);
    let (state, action) = compressor.begin(three_messages(10), "model", 500_000, &cut);
    assert!(matches!(action, Action::Finish(_)));
    let (state, action) = compressor.step(state, Event::Reply(Some("late".to_string())));
    assert_eq!(state.history.len(), 3);
    match action {
        Action::Finish(result) => {
            assert!(!result.compressed);
            assert_eq!(result.tokens_before, result.tokens_after);
            assert_eq!(result.passes_used, 0);
        }
        _ => panic!("a finished compression has nothing left to do"),
    }
}

#[test]
fn estimates_grow_with_the_history() {
    let mut history = three_messages(400);
    let before = estimate_tokens(&history);
    history.push(msg("user", ""));
    assert!(estimate_tokens(&history) > before);
}

#[test]
fn protected_ends_outlast_every_pass() {
    let config = ContextCompressionConfig {
        protect_first_n: 2,
        protect_last_n: 2,
        ..ContextCompressionConfig::default()
    };
    let compressor = ContextCompressor::new(config, 1000);
    let mut history: Vec<ChatMessage> =
        (0..8).map(|i| msg("user", &format!("{i}{}", "x".repeat(300)))).collect();
    assert_eq!(compressor.find_span(&history), Some((2, 6)));
    let mut world = World::new(&["gist"]);
    compress_if_needed(&compressor, &mut history, &mut world);
    assert_eq!(history.len(), 5);
    assert!(history[0].content.starts_with('0') && history[1].content.starts_with('1'));
    assert!(history[3].content.starts_with('6') && history[4].content.starts_with('7'));
}
