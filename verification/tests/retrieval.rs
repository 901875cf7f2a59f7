use zeroclaw_memory::knowledge_graph::rows::{KnowledgeNode, SearchResult};
use zeroclaw_memory::retrieval::cache::Cache;
use zeroclaw_memory::retrieval::pipeline::{
    MemoryCategory, MemoryEntry, RecallAction, RetrievalConfig, RetrievalPipeline, RrfAction,
    SummaryEntry,
};
use zeroclaw_memory::retrieval::rrf::{rrf_merge, source_fingerprint, RrfEntry, RrfSource};
use zeroclaw_memory::scores::{RrfScore, Score};

fn value(score: &RrfScore) -> f64 {
    match score {
        RrfScore::Own(Score::Double(bits)) => f64::from_bits(*bits),
        RrfScore::Own(Score::Count(n)) => *n as f64,
        RrfScore::Fused(ds) => ds.iter().map(|d| 1.0 / *d as f64).sum(),
    }
}

fn memory(id: &str, content: &str, score: Option<f64>) -> MemoryEntry {
    MemoryEntry {
        id: id.to_string(),
        key: "k".to_string(),
        content: content.to_string(),
        category: MemoryCategory::Core,
        timestamp: "now".to_string(),
        session_id: None,
        score: score.map(|s| Score::Double(s.to_bits())),
        namespace: "default".to_string(),
        importance: None,
        superseded_by: None,
    }
}

/// A recall against a backend that answers each query with the next of `answers`. Returns what was
/// recalled and how often the backend was asked.
fn recall(
    pipeline: &mut RetrievalPipeline,
    query: &str,
    limit: usize,
    mut answers: Vec<Vec<MemoryEntry>>,
    now: u128,
) -> (Vec<MemoryEntry>, usize) {
    let mut asked = 0;
    let mut state = pipeline.begin_recall(query, limit, None, None);
    loop {
        match pipeline.next_stage(&mut state, now) {
            RecallAction::Cached(hit) => return (hit, asked),
            RecallAction::NoResults => return (Vec::new(), asked),
            RecallAction::QueryBackend => {}
        }
        asked += 1;
        let answer = if answers.is_empty() { Vec::new() } else { answers.remove(0) };
        match pipeline.take_answer(state, answer, now) {
            Ok(results) => return (results, asked),
            Err(rest) => state = rest,
        }
    }
}

#[test]
fn pipeline_returns_empty_from_none_backend() {
    let mut pipeline = RetrievalPipeline::new(RetrievalConfig::default());
    let (results, asked) = recall(&mut pipeline, "test", 10, vec![], 0);
    assert!(results.is_empty());
    assert_eq!(asked, 2);
    assert_eq!(pipeline.cache_size(), 0);
}

#[test]
fn pipeline_cache_invalidation() {
    let mut pipeline = RetrievalPipeline::new(RetrievalConfig::default());

    let ck = RetrievalPipeline::cache_key("test", 10, None, None, pipeline.sources_fp);
    pipeline.store_in_cache(ck, vec![], 0);

    assert_eq!(pipeline.cache_size(), 1);
    pipeline.invalidate_cache();
    assert_eq!(pipeline.cache_size(), 0);
}

#[test]
fn cache_key_includes_all_params() {
    let fp = source_fingerprint(false, false);
    let k1 = RetrievalPipeline::cache_key("hello", 10, Some("sess-a"), Some("ns1"), fp);
    let k2 = RetrievalPipeline::cache_key("hello", 10, Some("sess-b"), Some("ns1"), fp);
    let k3 = RetrievalPipeline::cache_key("hello", 10, Some("sess-a"), Some("ns2"), fp);

    assert_ne!(k1, k2);
    assert_ne!(k1, k3);
    assert_eq!(k1, "hello:10:sess-a:ns1:1");
}

#[test]
fn cache_key_differs_by_source_fingerprint() {
    let k1 = RetrievalPipeline::cache_key("q", 5, None, None, source_fingerprint(false, false));
    let k2 = RetrievalPipeline::cache_key("q", 5, None, None, source_fingerprint(true, false));
    let k3 = RetrievalPipeline::cache_key("q", 5, None, None, source_fingerprint(true, true));
    assert_ne!(k1, k2);
    assert_ne!(k2, k3);
    assert_ne!(k1, k3);
}

#[test]
fn pipeline_caches_results() {
    let config = RetrievalConfig {
        stages: vec!["cache".into()],
        ..Default::default()
    };
    let mut pipeline = RetrievalPipeline::new(config);

    let (results, asked) = recall(&mut pipeline, "test", 10, vec![], 0);
    assert!(results.is_empty());
    assert_eq!(asked, 0);

    let ck = RetrievalPipeline::cache_key("cached_query", 5, None, None, pipeline.sources_fp);
    pipeline.store_in_cache(ck, vec![memory("1", "cached content", Some(0.9))], 0);

    let (results, _) = recall(&mut pipeline, "cached_query", 5, vec![], 1);
    assert_eq!(results.len(), 1);
    assert_eq!(results[0].content, "cached content");
}

#[test]
fn recall_asks_once_and_then_answers_from_the_cache() {
    let mut pipeline = RetrievalPipeline::new(RetrievalConfig::default());
    let answers = vec![vec![memory("1", "one", Some(0.5))]];
    let (results, asked) = recall(&mut pipeline, "q", 5, answers, 100);
    assert_eq!((results.len(), asked), (1, 1));
    let (results, asked) = recall(&mut pipeline, "q", 5, vec![], 200);
    assert_eq!((results.len(), asked), (1, 0));
    let ttl = pipeline.config.cache_ttl;
    let (results, asked) = recall(&mut pipeline, "q", 5, vec![], 100 + ttl);
    assert_eq!((results.len(), asked), (0, 2));
    let (results, asked) =
        recall(&mut pipeline, "late", 5, vec![vec![], vec![memory("2", "two", None)]], 0);
    assert_eq!((results.len(), asked), (1, 2));
}

#[test]
fn unknown_stages_are_skipped() {
    let config = RetrievalConfig {
        stages: vec!["rerank".into(), "vector".into()],
        ..Default::default()
    };
    let mut pipeline = RetrievalPipeline::new(config);
    let (results, asked) =
        recall(&mut pipeline, "q", 5, vec![vec![memory("1", "one", None)]], 0);
    assert_eq!((results.len(), asked), (1, 1));
}

#[test]
fn retrieval_config_defaults() {
    let config = RetrievalConfig::default();
    assert_eq!(config.stages, vec!["cache", "fts", "vector"]);
    assert_eq!(f64::from_bits(config.fts_early_return_score_bits), 0.85);
    assert_eq!(config.cache_max_entries, 256);
    assert_eq!(config.cache_ttl, 300 * 1_000_000_000);
}

fn held(cache: &mut Cache<u32>, key: &str, now: u128) -> Option<u32> {
    cache.check(key, now, 100).map(|i| cache.slots[i].value)
}

#[test]
fn cache_evicts_the_least_recently_used_entry() {
    let mut cache: Cache<u32> = Cache::new();
    cache.store(2, "a".to_string(), 1, 10);
    cache.store(2, "b".to_string(), 2, 10);
    assert_eq!(held(&mut cache, "a", 10), Some(1));
    cache.store(2, "c".to_string(), 3, 20);
    assert_eq!(cache.len(), 2);
    assert_eq!(held(&mut cache, "b", 20), None);
    assert_eq!(held(&mut cache, "a", 20), Some(1));
    assert_eq!(held(&mut cache, "c", 20), Some(3));
    cache.store(5, "c".to_string(), 4, 30);
    assert_eq!(cache.len(), 2);
    assert_eq!(held(&mut cache, "c", 30), Some(4));
    assert_eq!(held(&mut cache, "c", 130), None);
    cache.store(0, "d".to_string(), 5, 30);
    assert_eq!(cache.len(), 2);
    assert_eq!(held(&mut cache, "a", 30), None);
    cache.clear();
    cache.store(0, "d".to_string(), 5, 30);
    assert_eq!(cache.len(), 1);
}

#[test]
fn expired_entries_are_not_used() {
    let mut cache: Cache<u32> = Cache::new();
    cache.store(2, "a".to_string(), 1, 0);
    cache.store(2, "b".to_string(), 2, 90);
    assert_eq!(held(&mut cache, "a", 100), None);
    cache.store(2, "c".to_string(), 3, 100);
    assert_eq!(held(&mut cache, "b", 100), Some(2));
}

#[test]
fn hits_keep_recalls_in_the_hot_cache() {
    let config = RetrievalConfig { cache_max_entries: 2, ..Default::default() };
    let mut pipeline = RetrievalPipeline::new(config);
    pipeline.store_in_cache("k1".to_string(), vec![memory("1", "one", None)], 0);
    pipeline.store_in_cache("k2".to_string(), vec![memory("2", "two", None)], 1);
    assert_eq!(pipeline.check_cache("k1", 2).unwrap()[0].id, "1");
    pipeline.store_in_cache("k3".to_string(), vec![memory("3", "three", None)], 3);
    assert_eq!(pipeline.cache_size(), 2);
    assert_eq!(pipeline.check_cache("k3", 4).unwrap()[0].id, "3");
    assert!(pipeline.check_cache("k2", 4).is_none());
    assert_eq!(pipeline.check_cache("k1", 4).unwrap()[0].id, "1");
}

fn make_entries(ids: &[&str], source: RrfSource) -> Vec<RrfEntry> {
    ids.iter()
        .map(|id| RrfEntry {
            id: id.to_string(),
            content: format!("content of {id}"),
            source,
            original_score: None,
            rrf_score: RrfScore::Own(Score::Count(0)),
            node_type: None,
            key: None,
            created_at: "2026-01-01T00:00:00Z".into(),
        })
        .collect()
}

#[test]
fn rrf_merge_empty_sources() {
    let result = rrf_merge(vec![], 10, 60);
    assert!(result.is_empty());
}

#[test]
fn rrf_merge_single_source_preserves_order() {
    let list = make_entries(&["a", "b", "c", "d", "e"], RrfSource::Memory);
    let result = rrf_merge(vec![list], 3, 60);
    assert_eq!(result.len(), 3);
    assert!(value(&result[0].rrf_score) >= value(&result[1].rrf_score));
    assert!(value(&result[1].rrf_score) >= value(&result[2].rrf_score));
    assert_eq!(result[0].id, "a");
    assert_eq!(result[1].id, "b");
    assert_eq!(result[2].id, "c");
}

#[test]
fn rrf_merge_cross_source_fusion() {
    let mem_list = make_entries(&["shared", "mem_only"], RrfSource::Memory);
    let kg_list = make_entries(&["shared", "kg_only"], RrfSource::KnowledgeNode);
    let result = rrf_merge(vec![mem_list, kg_list], 10, 60);

    let score = |id: &str| value(&result.iter().find(|e| e.id == id).unwrap().rrf_score);
    let shared_score = score("shared");
    let mem_only_score = score("mem_only");
    assert!(shared_score > mem_only_score, "cross-source item should score higher");
    let shared = result.iter().find(|e| e.id == "shared").unwrap();
    assert_eq!(shared.source, RrfSource::Memory);
    assert_eq!(result.len(), 3);
}

#[test]
fn rrf_merge_respects_limit() {
    let list1 = make_entries(&["a", "b", "c", "d", "e"], RrfSource::Memory);
    let list2 = make_entries(&["f", "g", "h", "i", "j"], RrfSource::Summary);
    let result = rrf_merge(vec![list1, list2], 3, 60);
    assert_eq!(result.len(), 3);
}

#[test]
fn rrf_score_formula() {
    let list = make_entries(&["x"], RrfSource::Memory);
    let result = rrf_merge(vec![list], 1, 60);
    let expected = 1.0 / 61.0;
    assert!((value(&result[0].rrf_score) - expected).abs() < 1e-9);
    assert!(matches!(&result[0].rrf_score, RrfScore::Fused(ds) if *ds == vec![61]));
}

#[test]
fn recall_rrf_single_source_no_rrf_overhead() {
    let mut pipeline = RetrievalPipeline::new(RetrievalConfig::default());
    let result = pipeline.recall_rrf("test query", 5, None, &vec![], &vec![], &vec![], 0);
    assert!(result.is_empty());
}

#[test]
fn recall_rrf_cache_hit_on_second_call() {
    let mut pipeline = RetrievalPipeline::new(RetrievalConfig::default());

    let ck = RetrievalPipeline::cache_key("q", 5, None, None, pipeline.sources_fp);
    let fake = RrfEntry {
        id: "z".into(),
        content: "cached".into(),
        source: RrfSource::Memory,
        original_score: None,
        rrf_score: RrfScore::Own(Score::Double(0.5f64.to_bits())),
        node_type: None,
        key: Some("k".into()),
        created_at: "now".into(),
    };
    pipeline.store_rrf_cache(ck, vec![fake], 0);

    let result = match pipeline.begin_rrf("q", 5, None, 1) {
        RrfAction::Cached(entries) => entries,
        RrfAction::QuerySources => panic!("the cache has an answer"),
    };
    assert_eq!(result.len(), 1);
    assert_eq!(result[0].content, "cached");
}

#[test]
fn recalls_over_all_sources_are_cached_until_their_time_is_up() {
    let mut pipeline = RetrievalPipeline::new(RetrievalConfig::default());
    assert!(matches!(pipeline.begin_rrf("q", 5, Some("s"), 0), RrfAction::QuerySources));
    let memories = vec![memory("a", "mem a", Some(0.9))];
    let first = pipeline.recall_rrf("q", 5, Some("s"), &memories, &vec![], &vec![], 0);
    let ttl = pipeline.config.cache_ttl;
    match pipeline.begin_rrf("q", 5, Some("s"), ttl - 1) {
        RrfAction::Cached(again) => {
            assert_eq!(again.len(), first.len());
            assert_eq!(again[0].id, first[0].id);
        }
        RrfAction::QuerySources => panic!("the cache has an answer"),
    }
    assert!(matches!(pipeline.begin_rrf("q", 5, None, 1), RrfAction::QuerySources));
    assert!(matches!(pipeline.begin_rrf("q", 6, Some("s"), 1), RrfAction::QuerySources));
    assert!(matches!(pipeline.begin_rrf("q", 5, Some("s"), ttl), RrfAction::QuerySources));
    assert_eq!(pipeline.cache_size(), 0);

    let none = pipeline.recall_rrf("empty", 5, None, &vec![], &vec![], &vec![], 1);
    assert!(none.is_empty());
    assert!(matches!(pipeline.begin_rrf("empty", 5, None, 2), RrfAction::Cached(e) if e.is_empty()));
    pipeline.invalidate_cache();
    assert!(matches!(pipeline.begin_rrf("empty", 5, None, 2), RrfAction::QuerySources));
}

fn knowledge_hit(id: &str, content: &str, synthesis: Option<&str>) -> SearchResult {
    SearchResult {
        node: KnowledgeNode {
            id: id.to_string(),
            node_type: "person".to_string(),
            title: id.to_string(),
            content: content.to_string(),
            tags: vec![],
            created_at: "2026-01-01T00:00:00+00:00".to_string(),
            updated_at: "2026-02-01T00:00:00+00:00".to_string(),
            source_project: None,
            synthesis: synthesis.map(|s| s.to_string()),
            synthesis_at: None,
        },
        score: Score::Double(1.5f64.to_bits()),
    }
}

#[test]
fn sources_are_fused_and_cached() {
    let memories = vec![memory("a", "mem a", Some(0.9)), memory("b", "mem b", None)];
    let summaries = vec![SummaryEntry {
        id: "s".to_string(),
        content: "sum".to_string(),
        score: None,
        created_at: "then".to_string(),
    }];
    let nodes = vec![knowledge_hit("b", "plain", Some("synth")), knowledge_hit("n", "plain", None)];

    let mut single = RetrievalPipeline::new(RetrievalConfig::default());
    let out = single.recall_rrf("q", 1, Some("s1"), &memories, &summaries, &nodes, 7);
    assert_eq!(out.len(), 1);
    assert_eq!(out[0].id, "a");
    assert_eq!(value(&out[0].rrf_score), 0.9);
    let key = RetrievalPipeline::cache_key("q", 1, Some("s1"), None, 1);
    assert_eq!(single.check_rrf_cache(&key, 8).unwrap()[0].id, "a");

    let mut all =
        RetrievalPipeline::new(RetrievalConfig::default()).with_sqlite().with_knowledge();
    assert_eq!(all.sources_fp, 0b111);
    let out = all.recall_rrf("q", 10, None, &memories, &summaries, &nodes, 7);
    let ids: Vec<&str> = out.iter().map(|e| e.id.as_str()).collect();
    assert_eq!(ids, vec!["b", "a", "s", "n"]);
    assert_eq!(out[0].content, "mem b");
    assert_eq!(out[0].key.as_deref(), Some("k"));
    assert!((value(&out[0].rrf_score) - (1.0 / 61.0 + 1.0 / 62.0)).abs() < 1e-15);
    assert_eq!(out[3].content, "plain");
    assert_eq!(out[3].node_type.as_deref(), Some("person"));
    assert_eq!(out[3].created_at, "2026-02-01T00:00:00+00:00");

    let mut graph_only = RetrievalPipeline::new(RetrievalConfig::default()).with_knowledge();
    let out = graph_only.recall_rrf("q", 10, None, &vec![], &summaries, &nodes, 7);
    assert_eq!(out[0].content, "synth");
    assert_eq!(value(&out[0].rrf_score), 1.5);
}

#[test]
fn source_fingerprint_values() {
    assert_eq!(source_fingerprint(false, false), 0b001);
    assert_eq!(source_fingerprint(true, false), 0b011);
    assert_eq!(source_fingerprint(false, true), 0b101);
    assert_eq!(source_fingerprint(true, true), 0b111);
}

#[test]
fn rrf_merge_all_same_id_accumulates() {
    let l1 = make_entries(&["x"], RrfSource::Memory);
    let l2 = make_entries(&["x"], RrfSource::Summary);
    let l3 = make_entries(&["x"], RrfSource::KnowledgeNode);
    let result = rrf_merge(vec![l1, l2, l3], 5, 60);
    assert_eq!(result.len(), 1);
    let expected = 3.0 / 61.0;
    assert!((value(&result[0].rrf_score) - expected).abs() < 1e-9);
}

#[test]
fn rrf_merge_tells_close_scores_apart() {
    let k = 4_000_000_000;
    let l1 = make_entries(&["x", "y"], RrfSource::Memory);
    let l2 = make_entries(&["z"], RrfSource::Summary);
    let result = rrf_merge(vec![l1, l2], 2, k);
    let ids: Vec<&str> = result.iter().map(|e| e.id.as_str()).collect();
    assert_eq!(ids, vec!["x", "z"]);

    let l1 = make_entries(&["x", "y"], RrfSource::Memory);
    let l2 = make_entries(&["z"], RrfSource::Summary);
    let result = rrf_merge(vec![l1, l2], 2, usize::MAX);
    let ids: Vec<&str> = result.iter().map(|e| e.id.as_str()).collect();
    assert_eq!(ids, vec!["x", "z"]);
    assert!(
        matches!(&result[1].rrf_score, RrfScore::Fused(ds) if *ds == vec![usize::MAX as u128 + 1])
    );
}

#[test]
fn rrf_merge_compares_sums_exactly() {
    // 1/3 + 1/6 equals 1/2, and 1/4 + 1/5 is less.
    let mut l1 = make_entries(&["f", "s", "t", "q"], RrfSource::Memory);
    let l2 = make_entries(&["p", "u", "v", "q", "t"], RrfSource::Summary);
    l1.push(make_entries(&["t"], RrfSource::Memory).remove(0));
    let result = rrf_merge(vec![l1, l2], 10, 1);
    let score = |id: &str| value(&result.iter().find(|e| e.id == id).unwrap().rrf_score);
    assert!((score("f") - 0.5).abs() < 1e-12);
    assert!((score("t") - (0.25 + 1.0 / 6.0 + 1.0 / 6.0)).abs() < 1e-12);
    let ids: Vec<&str> = result.iter().map(|e| e.id.as_str()).collect();
    assert_eq!(ids, vec!["t", "f", "p", "q", "s", "u", "v"]);
}
