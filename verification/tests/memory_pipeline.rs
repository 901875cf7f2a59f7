use zeroclaw_memory::consolidation::dream::{DreamAction, DreamRun};
use zeroclaw_memory::knowledge_graph::graph::KnowledgeGraph;
use zeroclaw_memory::knowledge_graph::searches::search_query;
use zeroclaw_memory::retrieval::pipeline::{
    MemoryCategory, MemoryEntry, RetrievalConfig, RetrievalPipeline,
};
use zeroclaw_memory::scores::RrfScore;

fn empty_world() -> KnowledgeGraph {
    KnowledgeGraph::new(10_000)
}

/// A full-text search of the graph's nodes: identifiers and ranks, best match first.
fn search(kg: &KnowledgeGraph, query: &str) -> Vec<(String, u64)> {
    let conn = rusqlite::Connection::open_in_memory().unwrap();
    conn.execute_batch("CREATE VIRTUAL TABLE f USING fts5(id UNINDEXED, title, content, tags)")
        .unwrap();
    for n in &kg.nodes {
        conn.execute(
            "INSERT INTO f (id, title, content, tags) VALUES (?1, ?2, ?3, ?4)",
            [&n.id, &n.title, &n.content, &n.tags],
        )
        .unwrap();
    }
    let mut stmt =
        conn.prepare("SELECT id, rank FROM f WHERE f MATCH ?1 ORDER BY rank").unwrap();
    let rows = stmt
        .query_map([search_query(query)], |r| {
            let id: String = r.get(0)?;
            let rank: f64 = r.get(1)?;
            Ok((id, rank.to_bits()))
        })
        .unwrap();
    rows.map(|r| r.unwrap()).collect()
}

#[test]
fn entity_events_written_and_queryable() {
    let mut kg = empty_world();
    let (alice_id, created) =
        kg.find_or_create_by_slug("alice", "person", "alice", "Alice Chen").unwrap();
    assert!(created, "alice should be newly created");

    let events = [
        "Alice joined Acme Corp as lead engineer.",
        "Alice opened PR #42 for the consensus rewrite.",
        "Alice prefers async communication.",
    ];
    for e in &events {
        kg.add_event(&alice_id, e, None, None).unwrap();
    }

    let (node, timeline) = kg.get_with_timeline(&alice_id, 10).unwrap();
    assert_eq!(node.title, "alice");
    assert_eq!(timeline.len(), 3, "expect exactly 3 events");
    let contents: Vec<_> = timeline.iter().map(|e| e.content.as_str()).collect();
    for e in &events {
        assert!(contents.contains(e), "event not found in timeline: {e}");
    }
}

#[test]
fn dream_cycle_synthesis_enables_vector_recall() {
    let mut kg = empty_world();
    let (alice_id, _) =
        kg.find_or_create_by_slug("alice", "person", "alice", "Alice Chen").unwrap();
    for e in [
        "alice is lead engineer at Acme.",
        "alice prefers async communication.",
        "alice is working on the consensus rewrite.",
    ] {
        kg.add_event(&alice_id, e, None, None).unwrap();
    }

    let stale = kg.list_stale_nodes(10);
    assert!(
        stale.iter().any(|n| n.id == alice_id),
        "alice should be stale before synthesis"
    );

    let mut run = DreamRun::begin(&kg, 10);
    let report = loop {
        match run.action(&kg) {
            DreamAction::Finish(report) => break report,
            DreamAction::Synthesize { .. } => run.take(
                &mut kg,
                Some("Alice Chen. Lead engineer at Acme. Prefers async comms. Working on consensus rewrite.".to_string()),
                vec![0; 8],
            ),
        }
    };

    assert_eq!(report.nodes_processed, 1);
    assert_eq!(report.nodes_remaining, 0);

    let (node, events) = kg.get_with_timeline(&alice_id, 0).unwrap();
    assert!(events.is_empty());
    assert!(node.synthesis.is_some(), "alice synthesis should be set after dream cycle");
    assert!(node.synthesis_at.is_some(), "alice synthesis_at should be set (not stale)");

    let hits = search(&kg, "alice");
    let results = kg.query_by_similarity("alice", 5, &hits);
    assert!(
        results.iter().any(|r| r.node.id == alice_id),
        "alice should appear in similarity search after synthesis"
    );
}

fn core_memory(key: &str, content: &str) -> MemoryEntry {
    MemoryEntry {
        id: key.to_string(),
        key: key.to_string(),
        content: content.to_string(),
        category: MemoryCategory::Core,
        timestamp: String::new(),
        session_id: None,
        score: None,
        namespace: "default".to_string(),
        importance: None,
        superseded_by: None,
    }
}

#[test]
fn rrf_item_in_two_sources_outranks_item_in_one_source() {
    let mut kg = empty_world();
    let (node_id, _) = kg
        .find_or_create_by_slug("alice", "person", "alice", "alice deployment deadline shared fact")
        .unwrap();
    kg.add_event(&node_id, "alice deployment deadline shared fact", None, None).unwrap();

    let memories = vec![
        core_memory("shared_fact", "alice deployment deadline shared fact"),
        core_memory("memory_only_fact", "alice deployment deadline memory only fact"),
    ];
    let query = "alice deployment deadline";
    let hits = search(&kg, query);
    let nodes = kg.query_by_similarity(query, 10, &hits);
    let mut pipeline = RetrievalPipeline::new(RetrievalConfig::default()).with_knowledge();
    let results = pipeline.recall_rrf(query, 10, None, &memories, &vec![], &nodes, 0);

    let score = |part: &str| -> f64 {
        match &results.iter().find(|e| e.content.contains(part)).unwrap().rrf_score {
            RrfScore::Fused(ds) => ds.iter().map(|d| 1.0 / *d as f64).sum(),
            _ => panic!("several sources are fused"),
        }
    };
    let shared = score("shared fact");
    let mem_only = score("memory only");
    assert!(
        shared >= mem_only,
        "shared-fact rrf_score ({}) should be >= memory-only rrf_score ({})",
        shared,
        mem_only
    );
}
