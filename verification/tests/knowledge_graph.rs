use zeroclaw_memory::knowledge_graph::graph::KnowledgeGraph;
use zeroclaw_memory::knowledge_graph::names::{normalize_slug, normalize_type};
use zeroclaw_memory::knowledge_graph::rows::{
    read_tags, row_to_node, GraphError, KnowledgeEdge, NodeEvent, NodeRow,
};
use zeroclaw_memory::knowledge_graph::searches::search_query;
use zeroclaw_memory::scores::Score;

fn test_graph() -> KnowledgeGraph {
    KnowledgeGraph::new(1000)
}

fn tags(list: &[&str]) -> Vec<String> {
    list.iter().map(|t| t.to_string()).collect()
}

fn row(id: &str, title: &str, updated_at: &str) -> NodeRow {
    NodeRow {
        id: id.to_string(),
        node_type: "person".to_string(),
        title: title.to_string(),
        content: String::new(),
        tags: String::new(),
        created_at: updated_at.to_string(),
        updated_at: updated_at.to_string(),
        source_project: None,
        synthesis: None,
        synthesis_at: None,
        embedding: None,
    }
}

#[test]
fn add_node_returns_unique_id() {
    let mut graph = test_graph();
    let id1 = graph
        .add_node("pattern", "Caching", "Use Redis for caching", &tags(&["redis"]), None)
        .unwrap();
    let id2 = graph.add_node("lesson", "Lesson A", "Content A", &vec![], None).unwrap();
    assert_ne!(id1, id2);
    assert_eq!(id1.len(), 36);
}

#[test]
fn get_node_returns_stored_data() {
    let mut graph = test_graph();
    let id = graph
        .add_node(
            "decision",
            "Use Postgres",
            "Chose Postgres over MySQL",
            &tags(&["database", "postgres"]),
            Some("project_alpha".to_string()),
        )
        .unwrap();

    let node = graph.get_node(&id).unwrap();
    assert_eq!(node.title, "Use Postgres");
    assert_eq!(node.node_type, "decision");
    assert_eq!(node.tags, vec!["database", "postgres"]);
    assert_eq!(node.source_project.as_deref(), Some("project_alpha"));
    assert_eq!(node.content, "Chose Postgres over MySQL");
    assert_eq!(node.created_at, node.updated_at);
    assert!(node.created_at.ends_with("+00:00"));
}

#[test]
fn get_node_missing_returns_none() {
    let graph = test_graph();
    assert!(graph.get_node("nonexistent").is_none());
}

#[test]
fn add_edge_creates_relationship() {
    let mut graph = test_graph();
    let id1 = graph.add_node("pattern", "P1", "Pattern one", &vec![], None).unwrap();
    let id2 = graph.add_node("technology", "T1", "Tech one", &vec![], None).unwrap();

    graph.add_edge(&id1, &id2, "uses").unwrap();

    let related = graph.find_related(&id1);
    assert!(related.iter().any(|(n, r)| n.id == id2 && r == "uses"));

    let related = graph.find_related(&id2);
    assert!(related.iter().any(|(n, r)| n.id == id1 && r == "uses"));
}

#[test]
fn add_edge_rejects_missing_node() {
    let mut graph = test_graph();
    let id = graph.add_node("lesson", "L1", "Lesson", &vec![], None).unwrap();
    let err = graph.add_edge(&id, "nonexistent", "extends").unwrap_err();
    assert!(err.message().contains("target node not found"));
    assert_eq!(err.message(), "target node not found: nonexistent");
}

#[test]
fn add_edge_rejects_missing_source() {
    let mut graph = test_graph();
    let id = graph.add_node("lesson", "L1", "Lesson", &vec![], None).unwrap();
    let err = graph.add_edge("nobody", &id, "extends").unwrap_err();
    assert_eq!(err.message(), "source node not found: nobody");
    assert_eq!(graph.edges.len(), 0);
}

#[test]
fn query_by_tags_filters_correctly() {
    let mut graph = test_graph();
    graph.add_node("pattern", "P1", "Content", &tags(&["rust", "async"]), None).unwrap();
    graph.add_node("pattern", "P2", "Content", &tags(&["rust"]), None).unwrap();
    graph.add_node("pattern", "P3", "Content", &tags(&["python"]), None).unwrap();

    let results = graph.query_by_tags(&tags(&["rust"]));
    assert_eq!(results.len(), 2);

    let results = graph.query_by_tags(&tags(&["rust", "async"]));
    assert_eq!(results.len(), 1);
    assert_eq!(results[0].title, "P1");
}

/// A full-text search of the graph's nodes: identifiers and ranks, best match first.
fn full_text_hits(graph: &KnowledgeGraph, query: &str) -> Vec<(String, u64)> {
    let conn = rusqlite::Connection::open_in_memory().unwrap();
    conn.execute_batch("CREATE VIRTUAL TABLE f USING fts5(id UNINDEXED, title, content, tags)")
        .unwrap();
    for n in &graph.nodes {
        conn.execute(
            "INSERT INTO f (id, title, content, tags) VALUES (?1, ?2, ?3, ?4)",
            [&n.id, &n.title, &n.content, &n.tags],
        )
        .unwrap();
    }
    let mut stmt =
        conn.prepare("SELECT id, rank FROM f WHERE f MATCH ?1 ORDER BY rank").unwrap();
    let rows = stmt
        .query_map([query], |r| {
            let id: String = r.get(0)?;
            let rank: f64 = r.get(1)?;
            Ok((id, rank.to_bits()))
        })
        .unwrap();
    rows.map(|r| r.unwrap()).collect()
}

#[test]
fn query_by_similarity_returns_ranked_results() {
    let mut graph = test_graph();
    graph
        .add_node(
            "decision",
            "Choose Rust for performance",
            "Rust gives memory safety and speed",
            &tags(&["rust"]),
            None,
        )
        .unwrap();
    graph
        .add_node(
            "lesson",
            "Python scaling issues",
            "Python had GIL bottleneck",
            &tags(&["python"]),
            None,
        )
        .unwrap();

    let query = "Rust performance";
    let hits = full_text_hits(&graph, &search_query(query));
    let results = graph.query_by_similarity(query, 10, &hits);
    assert!(!results.is_empty());
    match results[0].score {
        Score::Double(bits) => assert!(f64::from_bits(bits) > 0.0),
        _ => panic!("a rank becomes a double"),
    }
    assert_eq!(results[0].node.title, "Choose Rust for performance");
}

#[test]
fn similarity_limits_and_joins_hits() {
    let mut graph = test_graph();
    let a = graph.add_node("x", "A", "", &vec![], None).unwrap();
    let b = graph.add_node("x", "B", "", &vec![], None).unwrap();
    let hits = vec![
        ("gone".to_string(), (-3.0f64).to_bits()),
        (b.clone(), (-2.5f64).to_bits()),
        (a.clone(), (-1.0f64).to_bits()),
    ];
    let all = graph.query_by_similarity("q", 10, &hits);
    assert_eq!(all.len(), 2);
    assert_eq!(all[0].node.id, b);
    assert_eq!(all[0].score, Score::Double(2.5f64.to_bits()));
    assert_eq!(all[1].node.id, a);
    assert_eq!(graph.query_by_similarity("q", 1, &hits).len(), 1);
    assert_eq!(graph.query_by_similarity("   ", 10, &hits).len(), 0);
}

#[test]
fn search_query_quotes_words() {
    assert_eq!(search_query("Rust  performance"), "\"Rust\" \"performance\"");
    assert_eq!(search_query("a\"b OR c*"), "\"ab\" \"OR\" \"c*\"");
    assert_eq!(search_query(" \t"), "");
}

#[test]
fn subgraph_traversal_collects_connected_nodes() {
    let mut graph = test_graph();
    let a = graph.add_node("pattern", "A", "Node A", &vec![], None).unwrap();
    let b = graph.add_node("pattern", "B", "Node B", &vec![], None).unwrap();
    let c = graph.add_node("pattern", "C", "Node C", &vec![], None).unwrap();
    graph.add_edge(&a, &b, "extends").unwrap();
    graph.add_edge(&b, &c, "uses").unwrap();

    let (nodes, edges) = graph.get_subgraph(&a, 2).unwrap();
    assert_eq!(nodes.len(), 3);
    assert_eq!(edges.len(), 2);

    let (nodes, edges) = graph.get_subgraph(&c, 2).unwrap();
    assert_eq!(nodes.len(), 3);
    assert_eq!(edges.len(), 2);
}

#[test]
fn subgraph_depth_is_respected() {
    let mut graph = test_graph();
    let a = graph.add_node("pattern", "A", "Node A", &vec![], None).unwrap();
    let b = graph.add_node("pattern", "B", "Node B", &vec![], None).unwrap();
    let c = graph.add_node("pattern", "C", "Node C", &vec![], None).unwrap();
    graph.add_edge(&a, &b, "extends").unwrap();
    graph.add_edge(&b, &c, "uses").unwrap();

    let (nodes, edges) = graph.get_subgraph(&a, 1).unwrap();
    assert_eq!(nodes.len(), 2);
    assert_eq!(edges.len(), 1);
    let (nodes, _) = graph.get_subgraph(&a, 5000).unwrap();
    assert_eq!(nodes.len(), 3);
    let err = graph.get_subgraph(&a, 0).unwrap_err();
    assert_eq!(err.message(), "subgraph depth must be greater than 0");
    let (nodes, edges) = graph.get_subgraph("nobody", 3).unwrap();
    assert!(nodes.is_empty() && edges.is_empty());
}

#[test]
fn expert_ranking_by_authored_contributions() {
    let mut graph = test_graph();
    let expert =
        graph.add_node("expert", "zeroclaw_user", "Backend expert", &vec![], None).unwrap();
    let p1 = graph
        .add_node("pattern", "Cache pattern", "Redis caching", &tags(&["caching"]), None)
        .unwrap();
    let p2 = graph
        .add_node("pattern", "Queue pattern", "Message queue", &tags(&["caching"]), None)
        .unwrap();

    graph.add_edge(&p1, &expert, "authored_by").unwrap();
    graph.add_edge(&p2, &expert, "authored_by").unwrap();

    let experts = graph.find_experts(&tags(&["caching"]));
    assert_eq!(experts.len(), 1);
    assert_eq!(experts[0].node.title, "zeroclaw_user");
    assert_eq!(experts[0].score, Score::Count(2));
}

#[test]
fn experts_come_in_order_of_contributions() {
    let mut graph = test_graph();
    let one = graph.add_node("expert", "one", "", &vec![], None).unwrap();
    let two = graph.add_node("expert", "two", "", &vec![], None).unwrap();
    let clerk = graph.add_node("clerk", "clerk", "", &vec![], None).unwrap();
    for i in 0..3 {
        let p = graph
            .add_node("pattern", &format!("p{i}"), "", &tags(&["t"]), None)
            .unwrap();
        graph.add_edge(&p, &two, "authored_by").unwrap();
        graph.add_edge(&p, &clerk, "authored_by").unwrap();
        if i == 0 {
            graph.add_edge(&p, &one, "Authored By").unwrap();
        }
    }
    let experts = graph.find_experts(&tags(&["t"]));
    assert_eq!(experts.len(), 2);
    assert_eq!(experts[0].node.title, "two");
    assert_eq!(experts[0].score, Score::Count(3));
    assert_eq!(experts[1].node.title, "one");
    assert_eq!(experts[1].score, Score::Count(1));
    assert!(graph.find_experts(&tags(&["other"])).is_empty());
}

#[test]
fn max_nodes_limit_enforced() {
    let mut graph = KnowledgeGraph::new(2);

    graph.add_node("lesson", "L1", "C1", &vec![], None).unwrap();
    graph.add_node("lesson", "L2", "C2", &vec![], None).unwrap();
    let err = graph.add_node("lesson", "L3", "C3", &vec![], None).unwrap_err();
    assert!(err.message().contains("node limit reached"));
    assert_eq!(err.message(), "knowledge graph node limit reached (2/2)");
    assert_eq!(graph.nodes.len(), 2);
}

#[test]
fn tags_with_commas_are_refused() {
    let mut graph = test_graph();
    let err = graph.add_node("lesson", "L", "C", &tags(&["ok", "a,b"]), None).unwrap_err();
    assert_eq!(
        err.message(),
        "tag 'a,b' contains a comma, which is used as the tag separator"
    );
    assert!(graph.nodes.is_empty());
}

#[test]
fn tags_come_back_trimmed_without_empty_ones() {
    let mut graph = test_graph();
    let id = graph
        .add_node("lesson", "L", "C", &tags(&[" rust ", "", "async"]), None)
        .unwrap();
    assert_eq!(graph.get_node(&id).unwrap().tags, vec!["rust", "async"]);
    assert_eq!(read_tags(" a , ,b,"), vec!["a", "b"]);
}

#[test]
fn stats_reports_correct_counts() {
    let mut graph = test_graph();
    graph.add_node("pattern", "P", "C", &tags(&["rust"]), None).unwrap();
    graph.add_node("lesson", "L", "C", &tags(&["rust", "async"]), None).unwrap();

    let stats = graph.stats();
    assert_eq!(stats.total_nodes, 2);
    let count = |t: &str| stats.nodes_by_type.iter().find(|p| p.0 == t).map(|p| p.1);
    assert_eq!(count("pattern"), Some(1));
    assert_eq!(count("lesson"), Some(1));
    assert!(!stats.top_tags.is_empty());
    assert_eq!(stats.top_tags[0], ("rust".to_string(), 2));
    assert_eq!(stats.total_edges, 0);
}

#[test]
fn stats_keep_the_ten_most_frequent_tags() {
    let mut graph = test_graph();
    for i in 0..12 {
        let mut list = tags(&["all"]);
        list.push(format!("t{i}"));
        graph.add_node("x", &format!("n{i}"), "", &list, None).unwrap();
    }
    let stats = graph.stats();
    assert_eq!(stats.top_tags.len(), 10);
    assert_eq!(stats.top_tags[0], ("all".to_string(), 12));
    assert_eq!(stats.top_tags[1], ("t0".to_string(), 1));
}

#[test]
fn slug_normalization() {
    assert_eq!(normalize_slug("Alice from Acme"), "alice_from_acme");
    assert_eq!(normalize_slug("  LeadEngineer "), "leadengineer");
    assert_eq!(normalize_slug("my-company.inc"), "my_company_inc");
}

#[test]
fn slug_normalization_outside_ascii() {
    assert_eq!(normalize_slug("Größe ÄÖ"), "größe_äö");
    assert_eq!(normalize_slug("二手书 — 项目"), "二手书_项目");
    assert_eq!(normalize_slug("__a__B__"), "a_b");
    assert_eq!(normalize_slug("---"), "");
    let once = normalize_slug("My  Big--Corp.");
    assert_eq!(normalize_slug(&once), once);
    assert_eq!(normalize_slug("ALICE smith"), normalize_slug("Alice_Smith"));
}

#[test]
fn node_type_normalization() {
    assert_eq!(normalize_type("Person"), "person");
    assert_eq!(normalize_type("EmployedBy"), "employedby");
    assert_eq!(normalize_type("employed_by"), "employed_by");
}

#[test]
fn node_type_normalized_at_write() {
    let mut graph = test_graph();
    let id = graph.add_node("Pattern", "Cache", "Redis cache", &vec![], None).unwrap();
    let node = graph.get_node(&id).unwrap();
    assert_eq!(node.node_type, "pattern", "node_type must be normalized to lowercase");
}

#[test]
fn relation_type_normalized_at_write() {
    let mut graph = test_graph();
    let a = graph.add_node("pattern", "A", "A content", &vec![], None).unwrap();
    let b = graph.add_node("pattern", "B", "B content", &vec![], None).unwrap();
    graph.add_edge(&a, &b, "EmployedBy").unwrap();

    let related = graph.find_related(&a);
    assert!(related.iter().any(|(_, r)| r == "employedby"), "relation must be normalized");
}

#[test]
fn duplicate_relation_upsert() {
    let mut graph = test_graph();
    let a = graph.add_node("pattern", "A", "A", &vec![], None).unwrap();
    let b = graph.add_node("pattern", "B", "B", &vec![], None).unwrap();
    graph.add_edge(&a, &b, "uses").unwrap();
    graph.add_edge(&a, &b, "uses").unwrap();

    let count = graph
        .edges
        .iter()
        .filter(|e| e.from_id == a && e.to_id == b && e.relation == "uses")
        .count();
    assert_eq!(count, 1, "Duplicate edge must not create two rows");
}

#[test]
fn find_or_create_exact_match() {
    let mut graph = test_graph();
    let id = graph.add_node("person", "alice", "Engineer", &vec![], None).unwrap();

    let (found_id, created) =
        graph.find_or_create_by_slug("alice", "person", "alice", "new content").unwrap();
    assert_eq!(found_id, id, "Should return existing node id");
    assert!(!created, "created should be false for existing node");
    assert_eq!(graph.nodes.len(), 1);
}

#[test]
fn find_or_create_new_slug() {
    let mut graph = test_graph();
    let (id, created) =
        graph.find_or_create_by_slug("bob", "person", "bob", "New person").unwrap();
    assert!(!id.is_empty());
    assert!(created, "created should be true for new slug");
}

#[test]
fn add_event_marks_node_stale() {
    let mut graph = test_graph();
    let node_id = graph.add_node("person", "alice", "Engineer", &vec![], None).unwrap();

    graph.update_synthesis(&node_id, "Alice", None);
    assert!(
        graph.nodes[0].synthesis_at.is_some(),
        "synthesis_at should be set before add_event"
    );

    graph.add_event(&node_id, "New fact about alice", None, None).unwrap();

    assert!(
        graph.nodes[0].synthesis_at.is_none(),
        "synthesis_at should be NULL after add_event (node marked stale)"
    );
    assert_eq!(graph.nodes[0].updated_at, graph.events[0].created_at);
    assert_eq!(&graph.nodes[0].updated_at[10..11], "T");
}

#[test]
fn add_event_for_unknown_node_is_refused() {
    let mut graph = test_graph();
    let err = graph.add_event("nobody", "fact", None, None).unwrap_err();
    assert!(matches!(err, GraphError::UnknownNode(_)));
    assert_eq!(err.message(), "event for unknown node: nobody");
    assert!(graph.events.is_empty());
}

#[test]
fn list_stale_nodes_ordering() {
    let mut graph = test_graph();
    let a = graph.add_node("person", "alice", "A", &vec![], None).unwrap();
    let b = graph.add_node("person", "bob", "B", &vec![], None).unwrap();
    let c = graph.add_node("person", "charlie", "C", &vec![], None).unwrap();

    graph.update_synthesis(&b, "Bob synthesis", None);
    graph.update_synthesis(&c, "Charlie synthesis", None);

    let stale = graph.list_stale_nodes(10);
    assert!(stale.iter().any(|n| n.id == a), "alice (stale) should appear");
    assert!(!stale.iter().any(|n| n.id == b || n.id == c));
}

#[test]
fn stale_nodes_come_latest_first() {
    let mut graph = test_graph();
    graph.restore_node(row("1", "one", "2026-01-01T00:00:00+00:00")).unwrap();
    graph.restore_node(row("2", "two", "2026-03-01T00:00:00+00:00")).unwrap();
    graph.restore_node(row("3", "three", "2026-02-01T00:00:00+00:00")).unwrap();
    let ids: Vec<String> = graph.list_stale_nodes(10).into_iter().map(|n| n.id).collect();
    assert_eq!(ids, vec!["2", "3", "1"]);
    assert_eq!(graph.list_stale_nodes(2).len(), 2);
    let slugs = graph.list_entity_slugs(2);
    assert_eq!(slugs[0], ("two".to_string(), "person".to_string()));
    assert_eq!(slugs[1].0, "three");

    graph.update_synthesis_with("2026-02-15T00:00:00+00:00", "2", "s", None);
    graph.update_synthesis_with("2026-02-15T00:00:00+00:00", "3", "s", None);
    let ids: Vec<String> = graph.list_stale_nodes(10).into_iter().map(|n| n.id).collect();
    assert_eq!(ids, vec!["2", "1"]);
}

#[test]
fn get_with_timeline_returns_events() {
    let mut graph = test_graph();
    let node_id = graph.add_node("person", "alice", "Engineer", &vec![], None).unwrap();
    graph
        .add_event(&node_id, "Joined team 2026-01-01", None, Some("session-1".to_string()))
        .unwrap();
    graph
        .add_event(&node_id, "Promoted 2026-04-01", None, Some("session-2".to_string()))
        .unwrap();

    let (node, events) = graph.get_with_timeline(&node_id, 10).unwrap();
    assert_eq!(node.title, "alice");
    assert_eq!(events.len(), 2);
    assert_eq!(graph.get_with_timeline(&node_id, 1).unwrap().1.len(), 1);
    assert!(graph.get_with_timeline("nobody", 10).is_none());
}

#[test]
fn timeline_is_latest_first() {
    let mut graph = test_graph();
    graph.restore_node(row("n", "alice", "2026-01-01T00:00:00+00:00")).unwrap();
    graph.restore_node(row("m", "bob", "2026-01-01T00:00:00+00:00")).unwrap();
    for (id, node, at) in [
        ("e1", "n", "2026-01-02T00:00:00+00:00"),
        ("e2", "n", "2026-01-04T00:00:00+00:00"),
        ("e3", "m", "2026-01-05T00:00:00+00:00"),
        ("e4", "n", "2026-01-03T02:00:00+02:00"),
    ] {
        graph
            .restore_event(NodeEvent {
                id: id.to_string(),
                node_id: node.to_string(),
                content: id.to_string(),
                source_message_id: None,
                session_id: None,
                created_at: at.to_string(),
            })
            .unwrap();
    }
    let (_, events) = graph.get_with_timeline("n", 10).unwrap();
    let ids: Vec<&str> = events.iter().map(|e| e.id.as_str()).collect();
    assert_eq!(ids, vec!["e2", "e4", "e1"]);
    assert_eq!(events[1].created_at, "2026-01-03T00:00:00+00:00");
}

#[test]
fn update_synthesis_persists() {
    let mut graph = test_graph();
    let node_id = graph.add_node("company", "acme", "Big corp", &vec![], None).unwrap();
    graph.update_synthesis(&node_id, "Acme is a large enterprise company.", None);

    let node = graph.get_node(&node_id).unwrap();
    assert_eq!(node.synthesis.as_deref(), Some("Acme is a large enterprise company."));
    assert!(node.synthesis_at.is_some());
}

#[test]
fn embeddings_are_stored_little_endian() {
    let mut graph = test_graph();
    let id = graph.add_node("company", "acme", "", &vec![], None).unwrap();
    graph.update_synthesis(&id, "s", Some(vec![1.0f32.to_bits(), 0x0102_0304]));
    assert_eq!(
        graph.nodes[0].embedding,
        Some(vec![0x00, 0x00, 0x80, 0x3f, 0x04, 0x03, 0x02, 0x01])
    );
    graph.update_synthesis("nobody", "x", None);
    assert_eq!(graph.nodes[0].synthesis.as_deref(), Some("s"));
}

#[test]
fn list_entity_slugs_ordering() {
    let mut graph = test_graph();
    graph.add_node("person", "alice", "A", &vec![], None).unwrap();
    graph.add_node("company", "acme", "B", &vec![], None).unwrap();

    let slugs = graph.list_entity_slugs(10);
    assert_eq!(slugs.len(), 2);
    assert!(slugs.iter().any(|(t, _)| t == "alice"));
    assert!(slugs.iter().any(|(t, _)| t == "acme"));
}

#[test]
fn rows_are_read_in_canonical_form() {
    let mut r = row("1", "one", "2026-01-01T10:30:00+02:00");
    r.created_at = "yesterday".to_string();
    r.synthesis_at = Some("2026-05-05 10:00:00".to_string());
    let node = row_to_node(&r, "2030-01-01T00:00:00+00:00");
    assert_eq!(node.updated_at, "2026-01-01T08:30:00+00:00");
    assert_eq!(node.created_at, "2030-01-01T00:00:00+00:00");
    assert_eq!(node.synthesis_at, None);
    r.synthesis_at = Some("2026-05-05T10:00:00Z".to_string());
    let node = row_to_node(&r, "now");
    assert_eq!(node.synthesis_at.as_deref(), Some("2026-05-05T10:00:00+00:00"));
}

#[test]
fn restored_rows_keep_keys_and_references() {
    let mut graph = test_graph();
    graph.restore_node(row("1", "one", "t")).unwrap();
    let err = graph.restore_node(row("1", "again", "t")).unwrap_err();
    assert_eq!(err.message(), "duplicate id: 1");
    let edge = KnowledgeEdge {
        from_id: "1".to_string(),
        to_id: "2".to_string(),
        relation: "r".to_string(),
    };
    assert!(matches!(graph.restore_edge(edge), Err(GraphError::TargetNotFound(_))));
    assert_eq!(graph.nodes.len(), 1);
    assert!(graph.edges.is_empty());
}

#[test]
fn self_loops_are_related_twice() {
    let mut graph = test_graph();
    let a = graph.add_node("x", "A", "", &vec![], None).unwrap();
    graph.add_edge(&a, &a, "knows").unwrap();
    assert_eq!(graph.find_related(&a).len(), 2);
}

#[test]
fn slugs_are_stable_and_ignore_case() {
    for name in ["Alice from Acme", "--x__Y--", "", "a", "my-company.inc 2"] {
        let slug = normalize_slug(name);
        assert_eq!(normalize_slug(&slug), slug);
        assert_eq!(normalize_slug(&name.to_ascii_uppercase()), slug);
        assert!(!slug.starts_with('_') && !slug.ends_with('_') && !slug.contains("__"));
    }
}

#[test]
fn reach_goes_both_ways_and_subgraphs_are_closed() {
    let mut graph = test_graph();
    let ids: Vec<String> = ["a", "b", "c", "d"]
        .iter()
        .map(|t| graph.add_node("pattern", t, "", &vec![], None).unwrap())
        .collect();
    graph.add_edge(&ids[1], &ids[0], "uses").unwrap();
    graph.add_edge(&ids[1], &ids[2], "uses").unwrap();
    graph.add_edge(&ids[3], &ids[2], "uses").unwrap();
    let reach = |from: &str, depth: usize| -> Vec<String> {
        let (nodes, edges) = graph.get_subgraph(from, depth).unwrap();
        let found: Vec<String> = nodes.into_iter().map(|n| n.id).collect();
        assert!(edges.iter().all(|e| found.contains(&e.from_id) && found.contains(&e.to_id)));
        found
    };
    for depth in 1..5 {
        for a in &ids {
            for b in &ids {
                assert_eq!(reach(a, depth).contains(b), reach(b, depth).contains(a));
            }
            assert!(reach(a, depth).iter().all(|n| reach(a, depth + 1).contains(n)));
        }
    }
    assert_eq!(reach(&ids[0], 3).len(), 4);
}

#[test]
fn the_most_recently_active_node_comes_first() {
    let mut graph = test_graph();
    let a = graph.add_node("person", "alice", "A", &vec![], None).unwrap();
    graph.add_node("person", "bob", "B", &vec![], None).unwrap();
    graph.add_event(&a, "new fact", None, None).unwrap();
    let titles: Vec<String> = graph.list_stale_nodes(10).into_iter().map(|n| n.title).collect();
    assert_eq!(titles, vec!["alice", "bob"]);
    let slugs: Vec<String> = graph.list_entity_slugs(10).into_iter().map(|s| s.0).collect();
    assert_eq!(slugs, vec!["alice", "bob"]);
    let node = graph.get_node(&a).unwrap();
    assert_eq!(node.updated_at, graph.nodes[0].updated_at, "the stamp reads back as it is");
}

#[test]
fn equal_slugs_are_the_same_entity() {
    let mut graph = test_graph();
    let (id, created) =
        graph.find_or_create_by_slug("Alice Smith", "person", "Alice Smith", "").unwrap();
    assert!(created);
    assert_eq!(graph.nodes[0].title, "Alice Smith");
    let again = graph.find_or_create_by_slug("Alice Smith", "person", "Alice Smith", "").unwrap();
    assert_eq!(again, (id.clone(), false));
    let other = graph.find_or_create_by_slug("alice-SMITH", "company", "x", "y").unwrap();
    assert_eq!(other, (id, false));
    assert_eq!(graph.nodes.len(), 1);
}

#[test]
fn created_entities_keep_their_title() {
    let mut graph = test_graph();
    let (id, created) = graph.find_or_create_by_slug("alice", "Person", "Alice Chen", "x").unwrap();
    assert!(created);
    let node = graph.get_node(&id).unwrap();
    assert_eq!((node.title.as_str(), node.node_type.as_str()), ("Alice Chen", "person"));
    let found = graph.find_or_create_by_slug("alice_chen", "person", "", "").unwrap();
    assert_eq!(found, (id, false));

    let spelled = graph.add_node("person", "Bob Lee", "", &vec![], None).unwrap();
    let exact = graph.add_node("person", "bob_lee", "", &vec![], None).unwrap();
    let found = graph.find_or_create_by_slug("Bob Lee", "person", "Bob Lee", "").unwrap();
    assert_eq!(found, (exact, false));
    assert_ne!(found.0, spelled);
}

#[test]
fn stamps_have_the_shape_of_the_clock() {
    let mut graph = test_graph();
    let id = graph.add_node("person", "alice", "A", &vec![], None).unwrap();
    graph.add_event(&id, "fact", None, None).unwrap();
    graph.update_synthesis(&id, "s", None);
    let stamps = vec![
        graph.nodes[0].created_at.clone(),
        graph.nodes[0].synthesis_at.clone().unwrap(),
        graph.events[0].created_at.clone(),
    ];
    for stamp in stamps {
        assert!(stamp.len() >= 25);
        assert!(stamp.ends_with("+00:00"));
        assert_eq!(&stamp[4..5], "-");
        assert_eq!(&stamp[10..11], "T");
        assert!(chrono::DateTime::parse_from_rfc3339(&stamp).is_ok());
    }
}

#[test]
fn a_synthesis_before_the_update_leaves_the_node_stale() {
    let mut graph = test_graph();
    let early = "2026-04-12T08:00:00+00:00";
    let late = "2026-04-12T09:00:00+00:00";
    let id = graph
        .add_node_with("n".to_string(), early, "person", "alice", "A", &vec![], None)
        .unwrap();
    let _ = graph.add_event_with("e".to_string(), late, &id, "fact", None, None);
    graph.update_synthesis_with(early, &id, "s", None);
    assert_eq!(graph.list_stale_nodes(10).len(), 1);
    graph.update_synthesis_with(late, &id, "s", None);
    assert!(graph.list_stale_nodes(10).is_empty());
}

#[test]
fn nodes_are_stale_until_they_are_synthesized() {
    let mut graph = test_graph();
    let id = graph.add_node("person", "alice", "A", &vec![], None).unwrap();
    let listed = |g: &KnowledgeGraph| g.list_stale_nodes(10).iter().any(|n| n.id == id);
    assert!(listed(&graph));
    graph.update_synthesis(&id, "one", None);
    assert!(!listed(&graph));
    graph.update_synthesis(&id, "two", None);
    assert!(!listed(&graph));
    graph.add_event(&id, "fact", None, None).unwrap();
    assert!(listed(&graph));
    graph.add_event(&id, "fact", None, None).unwrap();
    graph.update_synthesis(&id, "three", None);
    assert!(!listed(&graph));
}
