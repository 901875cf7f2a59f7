use zeroclaw_memory::consolidation::dream::{
    effective_cap, write_synthesis_prompt, DreamAction, DreamRun, SynthesisReport,
};
use zeroclaw_memory::consolidation::media::{strip_fences, strip_media_markers};
use zeroclaw_memory::consolidation::turn::{
    parse_consolidation_response, ConsolidationResult, EntityExtractionResult, EntityMention,
    RelationMention, TurnAction, TurnEvent, TurnRun,
};
use zeroclaw_memory::knowledge_graph::graph::KnowledgeGraph;
use zeroclaw_memory::knowledge_graph::rows::{KnowledgeNode, NodeEvent};

fn test_kg() -> KnowledgeGraph {
    KnowledgeGraph::new(10_000)
}

fn add_stale_node(kg: &mut KnowledgeGraph, slug: &str, node_type: &str, content: &str) -> String {
    let (id, _) = kg.find_or_create_by_slug(slug, node_type, slug, content).unwrap();
    kg.add_event(&id, "initial fact", None, None).unwrap();
    id
}

/// A dream cycle against a model that gives a fixed answer and an embedder of some dimensions.
/// Returns the report and the prompts.
fn synthesize(
    kg: &mut KnowledgeGraph,
    answer: Option<&str>,
    dims: usize,
    max_per_run: usize,
) -> (SynthesisReport, Vec<String>) {
    let mut prompts = Vec::new();
    let mut run = DreamRun::begin(kg, max_per_run);
    loop {
        match run.action(kg) {
            DreamAction::Finish(report) => return (report, prompts),
            DreamAction::Synthesize { prompt } => {
                prompts.push(prompt);
                let embedding = vec![0.1f32.to_bits(); dims];
                run.take(kg, answer.map(|a| a.to_string()), embedding);
            }
        }
    }
}

#[test]
fn synthesize_stale_updates_synthesis_at() {
    let mut kg = test_kg();
    let id = add_stale_node(&mut kg, "alice", "person", "");
    let (report, _) = synthesize(&mut kg, Some("Alice is a lead engineer."), 4, 10);

    assert_eq!(report.nodes_processed, 1);
    let node = kg.get_node(&id).unwrap();
    assert!(node.synthesis_at.is_some(), "synthesis_at should be set after synthesis");
    assert_eq!(node.synthesis.as_deref(), Some("Alice is a lead engineer."));
}

#[test]
fn synthesize_stale_updates_embedding() {
    let mut kg = test_kg();
    add_stale_node(&mut kg, "bob", "person", "");
    synthesize(&mut kg, Some("Bob is a backend developer."), 4, 10);

    let stale_after = kg.list_stale_nodes(100);
    assert!(stale_after.is_empty(), "node should no longer be stale");
    assert_eq!(kg.nodes[0].embedding.as_ref().unwrap().len(), 16);
    assert_eq!(&kg.nodes[0].embedding.as_ref().unwrap()[0..4], &0.1f32.to_le_bytes());
}

#[test]
fn empty_embeddings_count_as_none() {
    let mut kg = test_kg();
    add_stale_node(&mut kg, "bob", "person", "");
    synthesize(&mut kg, Some("Bob"), 0, 10);
    assert_eq!(kg.nodes[0].embedding, None);
    assert_eq!(kg.nodes[0].synthesis.as_deref(), Some("Bob"));
}

#[test]
fn synthesize_respects_cap() {
    let mut kg = test_kg();
    for i in 0..5 {
        add_stale_node(&mut kg, &format!("entity_{i}"), "thing", "");
    }
    let (report, _) = synthesize(&mut kg, Some("synthesis text"), 4, 3);

    assert_eq!(report.nodes_processed, 3, "should process exactly cap");
    assert_eq!(report.nodes_remaining, 2, "2 nodes should remain");
}

#[test]
fn first_run_cap_is_5x() {
    let mut kg = test_kg();
    for i in 0..25 {
        add_stale_node(&mut kg, &format!("ent_{i}"), "item", "");
    }
    let (report, _) = synthesize(&mut kg, Some("synth"), 4, 4);

    assert_eq!(report.nodes_processed, 20);
    assert_eq!(report.nodes_remaining, 5);
}

#[test]
fn failed_syntheses_leave_nodes_stale() {
    let mut kg = test_kg();
    add_stale_node(&mut kg, "alice", "person", "");
    let (report, prompts) = synthesize(&mut kg, None, 4, 10);
    assert_eq!(report, SynthesisReport { nodes_processed: 0, nodes_remaining: 0 });
    assert_eq!(prompts.len(), 1);
    assert_eq!(kg.list_stale_nodes(10).len(), 1);
}

#[test]
fn caps_of_a_run() {
    assert_eq!(effective_cap(20, 4), 4);
    assert_eq!(effective_cap(21, 4), 20);
    assert_eq!(effective_cap(3, 0), 0);
    assert_eq!(effective_cap(10, usize::MAX), usize::MAX);
}

#[test]
fn synthesis_uses_all_events() {
    let mut kg = test_kg();
    let id = add_stale_node(&mut kg, "carol", "person", "");
    kg.add_event(&id, "event two", None, None).unwrap();
    kg.add_event(&id, "event three", None, None).unwrap();
    kg.add_event(&id, "event four", None, None).unwrap();
    kg.add_event(&id, "event five", None, None).unwrap();

    let (_, prompts) = synthesize(&mut kg, Some("Carol synthesis"), 4, 10);

    assert!(!prompts.is_empty());
    let combined = prompts.join(" ");
    assert!(combined.contains("event two"), "prompt should include event two");
    assert!(combined.contains("event five"), "prompt should include event five");
    assert!(combined.contains("initial fact"), "prompt should include the first event");
}

#[test]
fn synthesis_prompts_read_chronologically() {
    let node = KnowledgeNode {
        id: "1".to_string(),
        node_type: "person".to_string(),
        title: "carol".to_string(),
        content: String::new(),
        tags: vec![],
        created_at: String::new(),
        updated_at: String::new(),
        source_project: None,
        synthesis: None,
        synthesis_at: None,
    };
    let event = |content: &str, at: &str| NodeEvent {
        id: String::new(),
        node_id: "1".to_string(),
        content: content.to_string(),
        source_message_id: None,
        session_id: None,
        created_at: at.to_string(),
    };
    let events = vec![
        event("second", "2026-04-13T10:00:00.250+00:00"),
        event("first", "2026-04-12T10:00:00+00:00"),
    ];
    assert_eq!(
        write_synthesis_prompt(&node, &events),
        "Synthesize everything known about carol (person). Preserve all facts and dates.\n\n\
         Events:\n- [2026-04-12 10:00:00 UTC] first\n- [2026-04-13 10:00:00.250 UTC] second\n"
    );
    assert_eq!(
        write_synthesis_prompt(&node, &vec![]),
        "Synthesize everything known about carol (person).\n\nNo events recorded yet."
    );
}

#[test]
fn already_fresh_nodes_skipped() {
    let mut kg = test_kg();
    let id = add_stale_node(&mut kg, "dave", "person", "");
    kg.update_synthesis(&id, "Dave is fresh", None);

    let (report, prompts) = synthesize(&mut kg, Some("should not be called"), 4, 10);

    assert_eq!(report.nodes_processed, 0, "fresh node should be skipped");
    assert_eq!(prompts.len(), 0, "provider should not be called");
}

#[test]
fn dream_cycle_report_reflects_reality() {
    let mut kg = test_kg();
    for i in 0..10 {
        add_stale_node(&mut kg, &format!("node_{i}"), "item", "");
    }
    let (report, _) = synthesize(&mut kg, Some("synth"), 4, 20);

    assert_eq!(report.nodes_processed, 10);
    assert_eq!(report.nodes_remaining, 0);
}

fn decode(raw: &str) -> Option<ConsolidationResult> {
    let value: serde_json::Value = serde_json::from_str(&strip_fences(raw)).ok()?;
    Some(ConsolidationResult {
        history_entry: value.get("history_entry")?.as_str()?.to_string(),
        memory_update: value
            .get("memory_update")
            .and_then(|v| v.as_str())
            .map(|s| s.to_string()),
        facts: vec![],
        trend: None,
    })
}

fn parse(raw: &str, fallback: &str) -> ConsolidationResult {
    parse_consolidation_response(decode(raw), fallback)
}

#[test]
fn parse_valid_json_response() {
    let raw = r#"{"history_entry": "User asked about Rust.", "memory_update": "User prefers Rust over Go."}"#;
    let result = parse(raw, "fallback");
    assert_eq!(result.history_entry, "User asked about Rust.");
    assert_eq!(result.memory_update.as_deref(), Some("User prefers Rust over Go."));
}

#[test]
fn parse_json_with_null_memory() {
    let raw = r#"{"history_entry": "Routine greeting.", "memory_update": null}"#;
    let result = parse(raw, "fallback");
    assert_eq!(result.history_entry, "Routine greeting.");
    assert!(result.memory_update.is_none());
}

#[test]
fn parse_json_wrapped_in_code_block() {
    let raw =
        "```json\n{\"history_entry\": \"Discussed deployment.\", \"memory_update\": null}\n```";
    let result = parse(raw, "fallback");
    assert_eq!(result.history_entry, "Discussed deployment.");
}

#[test]
fn fences_are_stripped_repeatedly() {
    assert_eq!(strip_fences("  ```json\n{}\n```  "), "{}");
    assert_eq!(strip_fences("```{}```"), "{}");
    assert_eq!(strip_fences("```json```json``` x ``````"), "x");
    assert_eq!(strip_fences("plain"), "plain");
    assert_eq!(strip_fences("``````"), "");
}

#[test]
fn fallback_on_malformed_response() {
    let raw = "I'm sorry, I can't do that.";
    let result = parse(raw, "User: hello\nAssistant: hi");
    assert_eq!(result.history_entry, "User: hello\nAssistant: hi");
    assert!(result.memory_update.is_none());
}

#[test]
fn fallback_truncates_long_text() {
    let long_text = "x".repeat(500);
    let result = parse("invalid", &long_text);
    assert!(result.history_entry.len() <= 203);
    assert_eq!(result.history_entry, format!("{}…", "x".repeat(200)));
}

#[test]
fn fallback_truncates_cjk_text_without_panic() {
    let cjk_text = "二手书项目".repeat(50);
    let result = parse("invalid", &cjk_text);
    assert!(result.history_entry.is_char_boundary(result.history_entry.len()));
    assert!(result.history_entry.ends_with('…'));
    assert_eq!(result.history_entry.chars().count(), 67);
}

#[test]
fn stripped_texts_tell_no_path() {
    for head in ["", "see ", "[IMAGE:", "[IMA", "[FILE:a] b", "[FILE:a"] {
        let strip = |path: &str| strip_media_markers(&format!("{head}[VIDEO:{path}] tail]"));
        assert_eq!(strip("/home/u/a.mp4"), strip(""));
        assert_eq!(strip("/home/u/a.mp4"), strip("[IMAGE:x"));
    }
}

#[test]
fn media_markers_are_replaced() {
    assert_eq!(
        strip_media_markers("see [IMAGE:/home/u/a.png] and [VOICE:x]."),
        "see [media attachment] and [media attachment]."
    );
    assert_eq!(strip_media_markers("[IMAGE:[FILE:a] b]"), "[media attachment] b]");
    assert_eq!(strip_media_markers("[image:/x] [IMAGE /x] [IMAGE:"), "[image:/x] [IMAGE /x] [IMAGE:");
    assert_eq!(strip_media_markers("[DOCUMENT:a\nb][VIDEO:][AUDIO:ü]"), "[media attachment]".repeat(3));
}

/// The outside of a consolidation: what was stored, and what fails.
#[derive(Default)]
struct Outside {
    prompts: Vec<String>,
    daily: Vec<(String, String)>,
    core: Vec<(String, String)>,
    searched: usize,
    fail_daily: bool,
    fail_conflicts: bool,
}

fn consolidate(
    outside: &mut Outside,
    kg: Option<&mut KnowledgeGraph>,
    user: &str,
    assistant: &str,
    extraction: Option<&str>,
    entities: Option<EntityExtractionResult>,
) -> bool {
    let (mut run, mut action) = TurnRun::begin(user, assistant, kg.is_some());
    let mut entities = entities;
    loop {
        let event = match action {
            TurnAction::Finish(ok) => return ok,
            TurnAction::Record(found) => {
                kg.unwrap().record_extraction(&found);
                return true;
            }
            TurnAction::Extract { prompt } => {
                outside.prompts.push(prompt);
                match extraction {
                    Some(raw) => TurnEvent::Extracted(decode(raw)),
                    None => TurnEvent::Failed,
                }
            }
            TurnAction::StoreDaily { key, content } => {
                outside.daily.push((key, content));
                if outside.fail_daily { TurnEvent::Failed } else { TurnEvent::Done }
            }
            TurnAction::ResolveConflicts { .. } => {
                outside.searched += 1;
                if outside.fail_conflicts { TurnEvent::Failed } else { TurnEvent::Done }
            }
            TurnAction::StoreCore { key, content } => {
                outside.core.push((key, content));
                TurnEvent::Done
            }
            TurnAction::ExtractEntities { prompt } => {
                outside.prompts.push(prompt);
                TurnEvent::Entities(entities.take())
            }
        };
        let next = run.step(event);
        run = next.0;
        action = next.1;
    }
}

fn mention(entity_type: &str, slug: &str, fact: &str) -> EntityMention {
    EntityMention {
        entity_type: entity_type.to_string(),
        slug: slug.to_string(),
        fact: fact.to_string(),
    }
}

#[test]
fn turns_are_logged_and_remembered() {
    let mut outside = Outside::default();
    let raw = r#"{"history_entry": "Talked.", "memory_update": "Prefers Rust."}"#;
    let ok = consolidate(&mut outside, None, "hi [IMAGE:/a]", "yo", Some(raw), None);
    assert!(ok);
    assert_eq!(outside.prompts, vec!["User: hi [media attachment]\nAssistant: yo"]);
    assert_eq!(outside.daily.len(), 1);
    assert_eq!(outside.daily[0].1, "Talked.");
    assert!(outside.daily[0].0.starts_with("daily_20"));
    assert_eq!((&outside.daily[0].0[10..11], &outside.daily[0].0[13..14]), ("-", "-"));
    assert_eq!(outside.daily[0].0.len(), 6 + 10 + 1 + 36);
    assert_eq!(outside.core[0].1, "Prefers Rust.");
    assert!(outside.core[0].0.starts_with("core_"));
    assert_eq!(outside.searched, 1);
}

#[test]
fn blank_updates_are_not_stored() {
    let mut outside = Outside::default();
    let raw = r#"{"history_entry": "Talked.", "memory_update": "  \n"}"#;
    assert!(consolidate(&mut outside, None, "a", "b", Some(raw), None));
    assert!(outside.core.is_empty());
    assert_eq!(outside.searched, 0);
}

#[test]
fn failures_of_a_turn() {
    let mut outside = Outside::default();
    assert!(!consolidate(&mut outside, None, "a", "b", None, None));
    assert!(outside.daily.is_empty());

    let mut outside = Outside { fail_daily: true, ..Default::default() };
    let raw = r#"{"history_entry": "T", "memory_update": "U"}"#;
    assert!(!consolidate(&mut outside, None, "a", "b", Some(raw), None));
    assert!(outside.core.is_empty());

    let mut outside = Outside { fail_conflicts: true, ..Default::default() };
    assert!(consolidate(&mut outside, None, "a", "b", Some(raw), None));
    assert_eq!(outside.core.len(), 1);
}

#[test]
fn long_turns_are_cut() {
    let mut outside = Outside::default();
    let user = "é".repeat(3000);
    let raw = "no json";
    assert!(consolidate(&mut outside, None, &user, "b", Some(raw), None));
    assert!(outside.prompts[0].ends_with('…'));
    assert_eq!(outside.prompts[0].len(), 4000 + 3);
    assert_eq!(outside.daily[0].1.len(), 200 + 3);
}

#[test]
fn consolidation_creates_entity_in_knowledge_graph() {
    let mut kg = test_kg();
    let mut outside = Outside::default();
    let raw = r#"{"history_entry": "Discussed Alice at Acme.", "memory_update": null}"#;
    let entities = EntityExtractionResult {
        entities: vec![mention("person", "alice", "Lead engineer at Acme.")],
        relations: vec![],
    };
    let ok = consolidate(
        &mut outside,
        Some(&mut kg),
        "Alice from Acme wants to discuss the consensus rewrite.",
        "I'll set up a meeting with Alice to discuss the deployment timeline.",
        Some(raw),
        Some(entities),
    );
    assert!(ok);
    let (alice_id, created) = kg.find_or_create_by_slug("alice", "person", "alice", "").unwrap();
    assert!(!created, "alice node should already exist after consolidation");
    let (node, events) = kg.get_with_timeline(&alice_id, 10).unwrap();
    assert!(!events.is_empty(), "at least one node_event should exist for alice");
    assert!(
        events.iter().any(|e| e.content.contains("Lead engineer at Acme")),
        "alice timeline should contain the extracted fact"
    );
    assert!(node.synthesis_at.is_none(), "alice should be stale (synthesis_at IS NULL)");
}

#[test]
fn consolidation_creates_relation_between_entities() {
    let mut kg = test_kg();
    let (alice_id, _) =
        kg.find_or_create_by_slug("alice", "person", "alice", "Alice Chen").unwrap();
    let (acme_id, _) = kg.find_or_create_by_slug("acme", "company", "acme", "Acme Corp").unwrap();
    let mut outside = Outside::default();
    let raw = r#"{"history_entry": "Alice works at Acme.", "memory_update": null}"#;
    let entities = EntityExtractionResult {
        entities: vec![],
        relations: vec![RelationMention {
            from_slug: "alice".to_string(),
            relation: "employed_by".to_string(),
            to_slug: "acme".to_string(),
        }],
    };
    consolidate(
        &mut outside,
        Some(&mut kg),
        "Alice is employed by Acme Corp.",
        "Noted — Alice works at Acme Corp.",
        Some(raw),
        Some(entities),
    );
    let related = kg.find_related(&alice_id);
    assert!(
        related.iter().any(|(n, r)| n.id == acme_id && r == "employed_by"),
        "alice should have employed_by edge to acme"
    );
}

#[test]
fn entities_are_found_again_however_they_are_written() {
    let mut kg = test_kg();
    let extraction = EntityExtractionResult {
        entities: vec![
            mention("Person", "Alice Smith", "one"),
            mention("human", "alice-smith", "two"),
        ],
        relations: vec![RelationMention {
            from_slug: "ALICE SMITH".to_string(),
            relation: "Works At".to_string(),
            to_slug: "Acme".to_string(),
        }],
    };
    kg.record_extraction(&extraction);
    assert_eq!(kg.nodes.len(), 2);
    assert_eq!(kg.nodes[0].title, "alice_smith");
    assert_eq!(kg.nodes[0].node_type, "person");
    assert_eq!(kg.nodes[1].node_type, "entity");
    assert_eq!(kg.events.len(), 2);
    assert_eq!(kg.edges.len(), 1);
    assert_eq!(kg.edges[0].relation, "works_at");
}

#[test]
fn full_graphs_skip_new_entities() {
    let mut kg = KnowledgeGraph::new(1);
    let extraction = EntityExtractionResult {
        entities: vec![mention("a", "one", "1"), mention("b", "two", "2"), mention("a", "one", "3")],
        relations: vec![RelationMention {
            from_slug: "one".to_string(),
            relation: "r".to_string(),
            to_slug: "two".to_string(),
        }],
    };
    kg.record_extraction(&extraction);
    assert_eq!((kg.nodes.len(), kg.events.len(), kg.edges.len()), (1, 2, 0));
}
