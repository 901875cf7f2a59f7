//! The retrieval pipeline: stages, caches, and the fusion of its sources.
use crate::knowledge_graph::rows::ResultView;
use crate::knowledge_graph::rows::SearchResult;
use crate::lists;
use crate::render;
use crate::retrieval::cache;
use crate::retrieval::cache::Cache;
use crate::retrieval::rrf;
use crate::retrieval::rrf::RrfEntry;
use crate::retrieval::rrf::RrfSource;
use crate::retrieval::rrf::RrfView;
use crate::scores::RrfScore;
use crate::scores::RrfScoreView;
use crate::scores::Score;
use crate::text;
use vstd::prelude::*;

verus! {

/// What a memory is about.
#[derive(Debug)]
pub enum MemoryCategory {
    Core,
    Daily,
    Conversation,
    Custom(String),
}

/// A stored memory.
#[derive(Debug)]
pub struct MemoryEntry {
    pub id: String,
    pub key: String,
    pub content: String,
    pub category: MemoryCategory,
    pub timestamp: String,
    pub session_id: Option<String>,
    pub score: Option<Score>,
    pub namespace: String,
    pub importance: Option<Score>,
    pub superseded_by: Option<String>,
}

/// What a category says.
pub ghost enum CategoryView {
    Core,
    Daily,
    Conversation,
    Custom(Seq<char>),
}

impl DeepView for MemoryCategory {
    type V = CategoryView;

    open spec fn deep_view(&self) -> CategoryView {
        match *self {
            MemoryCategory::Core => CategoryView::Core,
            MemoryCategory::Daily => CategoryView::Daily,
            MemoryCategory::Conversation => CategoryView::Conversation,
            MemoryCategory::Custom(s) => CategoryView::Custom(s@),
        }
    }
}

/// What a memory holds.
pub ghost struct MemoryView {
    pub id: Seq<char>,
    pub key: Seq<char>,
    pub content: Seq<char>,
    pub category: CategoryView,
    pub timestamp: Seq<char>,
    pub session_id: Option<Seq<char>>,
    pub score: Option<Score>,
    pub namespace: Seq<char>,
    pub importance: Option<Score>,
    pub superseded_by: Option<Seq<char>>,
}

impl DeepView for MemoryEntry {
    type V = MemoryView;

    open spec fn deep_view(&self) -> MemoryView {
        MemoryView {
            id: self.id@,
            key: self.key@,
            content: self.content@,
            category: self.category.deep_view(),
            timestamp: self.timestamp@,
            session_id: self.session_id.deep_view(),
            score: self.score,
            namespace: self.namespace@,
            importance: self.importance,
            superseded_by: self.superseded_by.deep_view(),
        }
    }
}

impl Clone for MemoryCategory {
    fn clone(&self) -> (r: MemoryCategory)
        ensures
            r.deep_view() == self.deep_view(),
    {
        match self {
            MemoryCategory::Core => MemoryCategory::Core,
            MemoryCategory::Daily => MemoryCategory::Daily,
            MemoryCategory::Conversation => MemoryCategory::Conversation,
            MemoryCategory::Custom(s) => MemoryCategory::Custom(s.clone()),
        }
    }
}

impl Clone for MemoryEntry {
    fn clone(&self) -> (r: MemoryEntry)
        ensures
            r.deep_view() == self.deep_view(),
    {
        MemoryEntry {
            id: self.id.clone(),
            key: self.key.clone(),
            content: self.content.clone(),
            category: self.category.clone(),
            timestamp: self.timestamp.clone(),
            session_id: text::copy_option(&self.session_id),
            score: self.score,
            namespace: self.namespace.clone(),
            importance: self.importance,
            superseded_by: text::copy_option(&self.superseded_by),
        }
    }
}

/// A copy of a list of memories.
pub fn copy_memories(list: &Vec<MemoryEntry>) -> (r: Vec<MemoryEntry>)
    ensures
        r.deep_view() == list.deep_view(),
{
    let ghost all = list.deep_view();
    let mut out: Vec<MemoryEntry> = Vec::new();
    let mut i: usize = 0;
    while i < list.len()
        invariant
            i <= list@.len(),
            all == list.deep_view(),
            out.deep_view() == all.take(i as int),
        decreases list@.len() - i,
    {
        let ghost before = out.deep_view();
        let e = list[i].clone();
        let ghost made = e.deep_view();
        out.push(e);
        assert(out.deep_view() =~= before.push(made));
        i += 1;
        assert(out.deep_view() =~= all.take(i as int));
    }
    assert(all.take(all.len() as int) =~= all);
    out
}

/// A summary that a search found.
#[derive(Debug)]
pub struct SummaryEntry {
    pub id: String,
    pub content: String,
    pub score: Option<Score>,
    pub created_at: String,
}

/// The bit pattern of the double 0.85.
pub const EARLY_RETURN_BITS: u64 = 0x3FEB_3333_3333_3333;

/// Multi-stage retrieval pipeline configuration.
#[derive(Debug)]
pub struct RetrievalConfig {
    /// Ordered list of stages: "cache", "fts", "vector".
    pub stages: Vec<String>,
    /// FTS score above which to early-return without vector stage, by its bit pattern.
    pub fts_early_return_score_bits: u64,
    /// Max entries in the hot cache.
    pub cache_max_entries: usize,
    /// TTL for cached results, in nanoseconds.
    pub cache_ttl: u128,
}

impl Default for RetrievalConfig {
    fn default() -> (r: RetrievalConfig)
        ensures
            r.stages.deep_view() == seq!["cache"@, "fts"@, "vector"@],
            r.fts_early_return_score_bits == EARLY_RETURN_BITS,
            r.cache_max_entries == 256,
            r.cache_ttl == 300_000_000_000,
    {
        let stages = vec!["cache".to_owned(), "fts".to_owned(), "vector".to_owned()];
        assert(stages.deep_view() =~= seq!["cache"@, "fts"@, "vector"@]);
        RetrievalConfig {
            stages,
            fts_early_return_score_bits: EARLY_RETURN_BITS,
            cache_max_entries: 256,
            cache_ttl: 300_000_000_000,
        }
    }
}

/// Multi-stage retrieval pipeline: which sources there are, and what was recalled lately.
#[derive(Debug)]
pub struct RetrievalPipeline {
    pub has_sqlite: bool,
    pub has_knowledge: bool,
    /// Source presence bitmask — embedded in cache keys to prevent stale cross-source hits.
    pub sources_fp: u8,
    pub config: RetrievalConfig,
    pub hot_cache: Cache<Vec<MemoryEntry>>,
    pub rrf_cache: Cache<Vec<RrfEntry>>,
}

/// A recall under way: its cache key, and the next stage to try.
#[derive(Debug)]
pub struct RecallRun {
    pub key: String,
    pub next: usize,
}

/// What a recall does next.
#[derive(Debug)]
pub enum RecallAction {
    /// It answers from the cache.
    Cached(Vec<MemoryEntry>),
    /// It asks the backend.
    QueryBackend,
    /// It answers that there is nothing.
    NoResults,
}

/// What a recall over all sources does next.
#[derive(Debug)]
pub enum RrfAction {
    /// It answers from the cache.
    Cached(Vec<RrfEntry>),
    /// It asks the sources.
    QuerySources,
}

// ---------------------------------------------------------------------------
// The rules
// ---------------------------------------------------------------------------

/// A text, or none if there is none.
pub open spec fn or_empty(s: Option<Seq<char>>) -> Seq<char> {
    match s {
        Some(t) => t,
        None => Seq::empty(),
    }
}

/// The cache key of a query.
pub open spec fn key_text(
    query: Seq<char>,
    limit: nat,
    session: Seq<char>,
    namespace: Seq<char>,
    fp: nat,
) -> Seq<char> {
    query + ":"@ + render::decimal(limit) + ":"@ + session + ":"@ + namespace + ":"@
        + render::decimal(fp)
}

/// What the scan of the stages from one on comes to.
pub ghost enum Scan {
    Cached,
    QueryBackend { next: int },
    NoResults,
}

/// What the stages from `i` on come to, where `hit` says whether the cache has an answer. Stages
/// with other names are skipped.
pub open spec fn scan(stages: Seq<Seq<char>>, i: int, hit: bool) -> Scan
    decreases stages.len() - i,
{
    if !(0 <= i < stages.len()) {
        Scan::NoResults
    } else if stages[i] == "cache"@ && hit {
        Scan::Cached
    } else if stages[i] == "fts"@ || stages[i] == "vector"@ {
        Scan::QueryBackend { next: i + 1 }
    } else {
        scan(stages, i + 1, hit)
    }
}

/// A memory as a fusion entry.
pub open spec fn memory_entry(e: MemoryView) -> RrfView {
    RrfView {
        id: e.id,
        content: e.content,
        source: RrfSource::Memory,
        original_score: e.score,
        rrf_score: RrfScoreView::Own(Score::Count(0)),
        node_type: None,
        key: Some(e.key),
        created_at: e.timestamp,
    }
}

/// A summary as a fusion entry.
pub open spec fn summary_entry(e: SummaryEntry) -> RrfView {
    RrfView {
        id: e.id@,
        content: e.content@,
        source: RrfSource::Summary,
        original_score: e.score,
        rrf_score: RrfScoreView::Own(Score::Count(0)),
        node_type: None,
        key: None,
        created_at: e.created_at@,
    }
}

/// A node as a fusion entry: its synthesis where it has one, its content otherwise.
pub open spec fn node_entry(e: ResultView) -> RrfView {
    RrfView {
        id: e.node.id,
        content: match e.node.synthesis {
            Some(s) => s,
            None => e.node.content,
        },
        source: RrfSource::KnowledgeNode,
        original_score: Some(e.score),
        rrf_score: RrfScoreView::Own(Score::Count(0)),
        node_type: Some(e.node.node_type),
        key: None,
        created_at: e.node.updated_at,
    }
}

/// Whether an answer is a copy of what a cache holds, and is given exactly if the cache has one.
pub open spec fn is_copy_of<T: DeepView>(r: Option<T>, held: Option<T>) -> bool {
    match held {
        Some(v) => r matches Some(c) && c.deep_view() == v.deep_view(),
        None => r is None,
    }
}

/// The non-empty ones of the sources.
pub open spec fn present(
    memories: Seq<RrfView>,
    summaries: Seq<RrfView>,
    nodes: Seq<RrfView>,
) -> Seq<Seq<RrfView>> {
    (if memories.len() > 0 { seq![memories] } else { Seq::empty() }) + (if summaries.len() > 0 {
        seq![summaries]
    } else {
        Seq::empty()
    }) + (if nodes.len() > 0 { seq![nodes] } else { Seq::empty() })
}

/// An entry under its own score.
pub open spec fn under_own_score(e: RrfView) -> RrfView {
    RrfView {
        rrf_score: RrfScoreView::Own(
            match e.original_score {
                Some(s) => s,
                None => Score::Count(0),
            },
        ),
        ..e
    }
}

/// What the sources come to: a single one keeps its order and its scores, several are fused.
pub open spec fn fused(sources: Seq<Seq<RrfView>>, limit: nat) -> Seq<RrfView> {
    if sources.len() == 0 {
        Seq::empty()
    } else if sources.len() == 1 {
        lists::limited(sources[0], limit).map_values(|e: RrfView| under_own_score(e))
    } else {
        rrf::merged(sources, limit, 60)
    }
}

impl RetrievalPipeline {
    /// The sources that count: summaries and nodes only where the pipeline has them.
    pub open spec fn sources(
        self,
        memories: Seq<MemoryView>,
        summaries: Seq<SummaryEntry>,
        nodes: Seq<ResultView>,
    ) -> Seq<Seq<RrfView>> {
        present(
            memories.map_values(|e: MemoryView| memory_entry(e)),
            if self.has_sqlite {
                summaries.map_values(|e: SummaryEntry| summary_entry(e))
            } else {
                Seq::empty()
            },
            if self.has_knowledge {
                nodes.map_values(|e: ResultView| node_entry(e))
            } else {
                Seq::empty()
            },
        )
    }

    /// The cache key of a recall over all sources.
    pub open spec fn rrf_key(self, query: Seq<char>, limit: nat, session: Option<Seq<char>>) -> Seq<
        char,
    > {
        key_text(query, limit, or_empty(session), Seq::empty(), self.sources_fp as nat)
    }

    /// What the cache answers a recall over all sources.
    pub open spec fn rrf_answer(
        self,
        query: Seq<char>,
        limit: nat,
        session: Option<Seq<char>>,
        now: nat,
    ) -> Option<Vec<RrfEntry>> {
        cache::answer(
            self.rrf_cache@,
            self.rrf_key(query, limit, session),
            now,
            self.config.cache_ttl as nat,
        )
    }

    /// Whether two pipelines differ in their caches at most.
    pub open spec fn same_but_caches(self, other: RetrievalPipeline) -> bool {
        &&& self.config == other.config
        &&& self.has_sqlite == other.has_sqlite
        &&& self.has_knowledge == other.has_knowledge
        &&& self.sources_fp == other.sources_fp
    }

    /// The fingerprint fits the sources, and no cache key occurs twice.
    pub open spec fn wf(self) -> bool {
        &&& self.sources_fp == rrf::fingerprint(self.has_sqlite, self.has_knowledge)
        &&& cache::unique_keys(self.hot_cache@)
        &&& cache::unique_keys(self.rrf_cache@)
    }
}

// ---------------------------------------------------------------------------
// The pipeline
// ---------------------------------------------------------------------------

fn memories_as_entries(list: &Vec<MemoryEntry>) -> (r: Vec<RrfEntry>)
    ensures
        r.deep_view() == list.deep_view().map_values(|e: MemoryView| memory_entry(e)),
{
    let ghost all = list.deep_view();
    let ghost whole = all.map_values(|e: MemoryView| memory_entry(e));
    let mut out: Vec<RrfEntry> = Vec::new();
    let mut i: usize = 0;
    while i < list.len()
        invariant
            i <= list@.len(),
            all == list.deep_view(),
            whole == all.map_values(|e: MemoryView| memory_entry(e)),
            out.deep_view() == whole.take(i as int),
        decreases list@.len() - i,
    {
        let ghost before = out.deep_view();
        let e = &list[i];
        let made = RrfEntry {
            id: e.id.clone(),
            content: e.content.clone(),
            source: RrfSource::Memory,
            original_score: e.score,
            rrf_score: RrfScore::Own(Score::Count(0)),
            node_type: None,
            key: Some(e.key.clone()),
            created_at: e.timestamp.clone(),
        };
        assert(all[i as int] == list@[i as int].deep_view());
        assert(made.deep_view() == whole[i as int]);
        out.push(made);
        assert(out.deep_view() =~= before.push(whole[i as int]));
        i += 1;
        assert(out.deep_view() =~= whole.take(i as int));
    }
    assert(whole.take(whole.len() as int) =~= whole);
    out
}

fn summaries_as_entries(list: &Vec<SummaryEntry>) -> (r: Vec<RrfEntry>)
    ensures
        r.deep_view() == list@.map_values(|e: SummaryEntry| summary_entry(e)),
{
    let ghost whole = list@.map_values(|e: SummaryEntry| summary_entry(e));
    let mut out: Vec<RrfEntry> = Vec::new();
    let mut i: usize = 0;
    while i < list.len()
        invariant
            i <= list@.len(),
            whole == list@.map_values(|e: SummaryEntry| summary_entry(e)),
            out.deep_view() == whole.take(i as int),
        decreases list@.len() - i,
    {
        let ghost before = out.deep_view();
        let e = &list[i];
        let made = RrfEntry {
            id: e.id.clone(),
            content: e.content.clone(),
            source: RrfSource::Summary,
            original_score: e.score,
            rrf_score: RrfScore::Own(Score::Count(0)),
            node_type: None,
            key: None,
            created_at: e.created_at.clone(),
        };
        assert(made.deep_view() == whole[i as int]);
        out.push(made);
        assert(out.deep_view() =~= before.push(whole[i as int]));
        i += 1;
        assert(out.deep_view() =~= whole.take(i as int));
    }
    assert(whole.take(whole.len() as int) =~= whole);
    out
}

fn nodes_as_entries(list: &Vec<SearchResult>) -> (r: Vec<RrfEntry>)
    ensures
        r.deep_view() == list.deep_view().map_values(|e: ResultView| node_entry(e)),
{
    let ghost all = list.deep_view();
    let ghost whole = all.map_values(|e: ResultView| node_entry(e));
    let mut out: Vec<RrfEntry> = Vec::new();
    let mut i: usize = 0;
    while i < list.len()
        invariant
            i <= list@.len(),
            all == list.deep_view(),
            whole == all.map_values(|e: ResultView| node_entry(e)),
            out.deep_view() == whole.take(i as int),
        decreases list@.len() - i,
    {
        let ghost before = out.deep_view();
        let e = &list[i];
        let content = match &e.node.synthesis {
            Some(s) => s.clone(),
            None => e.node.content.clone(),
        };
        let made = RrfEntry {
            id: e.node.id.clone(),
            content,
            source: RrfSource::KnowledgeNode,
            original_score: Some(e.score),
            rrf_score: RrfScore::Own(Score::Count(0)),
            node_type: Some(e.node.node_type.clone()),
            key: None,
            created_at: e.node.updated_at.clone(),
        };
        assert(all[i as int] == list@[i as int].deep_view());
        assert(made.deep_view() == whole[i as int]);
        out.push(made);
        assert(out.deep_view() =~= before.push(whole[i as int]));
        i += 1;
        assert(out.deep_view() =~= whole.take(i as int));
    }
    assert(whole.take(whole.len() as int) =~= whole);
    out
}

/// The first entries of a list, each under its own score.
fn take_under_own_score(list: &Vec<RrfEntry>, limit: usize) -> (r: Vec<RrfEntry>)
    ensures
        r.deep_view() == lists::limited(list.deep_view(), limit as nat).map_values(
            |e: RrfView| under_own_score(e),
        ),
{
    let ghost all = list.deep_view();
    let ghost whole = lists::limited(all, limit as nat).map_values(
        |e: RrfView| under_own_score(e),
    );
    let n: usize = if list.len() <= limit { list.len() } else { limit };
    let mut out: Vec<RrfEntry> = Vec::new();
    let mut i: usize = 0;
    while i < n
        invariant
            i <= n <= list@.len(),
            n == whole.len(),
            all == list.deep_view(),
            whole == lists::limited(all, limit as nat).map_values(
                |e: RrfView| under_own_score(e),
            ),
            out.deep_view() == whole.take(i as int),
        decreases n - i,
    {
        let ghost before = out.deep_view();
        let mut e = list[i].clone();
        let own: Score = match e.original_score {
            Some(s) => s,
            None => Score::Count(0),
        };
        e.rrf_score = RrfScore::Own(own);
        proof {
            assert(all[i as int] == list@[i as int].deep_view());
            assert(lists::limited(all, limit as nat)[i as int] == all[i as int]);
            assert(e.deep_view() == whole[i as int]);
        }
        out.push(e);
        assert(out.deep_view() =~= before.push(whole[i as int]));
        i += 1;
        assert(out.deep_view() =~= whole.take(i as int));
    }
    assert(whole.take(whole.len() as int) =~= whole);
    out
}

impl RetrievalPipeline {
    pub fn new(config: RetrievalConfig) -> (r: RetrievalPipeline)
        ensures
            r.wf(),
            r.config == config,
            !r.has_sqlite,
            !r.has_knowledge,
            r.hot_cache@.len() == 0,
            r.rrf_cache@.len() == 0,
    {
        RetrievalPipeline {
            has_sqlite: false,
            has_knowledge: false,
            sources_fp: rrf::source_fingerprint(false, false),
            config,
            hot_cache: Cache::new(),
            rrf_cache: Cache::new(),
        }
    }

    /// Wire up the SQLite memory backend for summary search.
    pub fn with_sqlite(self) -> (r: RetrievalPipeline)
        requires
            self.wf(),
        ensures
            r.wf(),
            r.has_sqlite,
            r.has_knowledge == self.has_knowledge,
            r.config == self.config,
            r.hot_cache == self.hot_cache,
            r.rrf_cache == self.rrf_cache,
    {
        RetrievalPipeline {
            has_sqlite: true,
            has_knowledge: self.has_knowledge,
            sources_fp: rrf::source_fingerprint(true, self.has_knowledge),
            config: self.config,
            hot_cache: self.hot_cache,
            rrf_cache: self.rrf_cache,
        }
    }

    /// Wire up the knowledge graph for entity/node search.
    pub fn with_knowledge(self) -> (r: RetrievalPipeline)
        requires
            self.wf(),
        ensures
            r.wf(),
            r.has_knowledge,
            r.has_sqlite == self.has_sqlite,
            r.config == self.config,
            r.hot_cache == self.hot_cache,
            r.rrf_cache == self.rrf_cache,
    {
        RetrievalPipeline {
            has_sqlite: self.has_sqlite,
            has_knowledge: true,
            sources_fp: rrf::source_fingerprint(self.has_sqlite, true),
            config: self.config,
            hot_cache: self.hot_cache,
            rrf_cache: self.rrf_cache,
        }
    }

    /// Build a cache key from query parameters, including source fingerprint.
    pub fn cache_key(
        query: &str,
        limit: usize,
        session_id: Option<&str>,
        namespace: Option<&str>,
        fp: u8,
    ) -> (r: String)
        ensures
            r@ == key_text(
                query@,
                limit as nat,
                or_empty(session_id.deep_view()),
                or_empty(namespace.deep_view()),
                fp as nat,
            ),
    {
        let mut out = query.to_owned();
        out.append(":");
        render::push_decimal(&mut out, limit as u64);
        out.append(":");
        match session_id {
            Some(s) => {
                out.append(s);
            },
            None => {},
        }
        out.append(":");
        match namespace {
            Some(s) => {
                out.append(s);
            },
            None => {},
        }
        out.append(":");
        render::push_decimal(&mut out, fp as u64);
        proof {
            let s = or_empty(session_id.deep_view());
            let n = or_empty(namespace.deep_view());
            assert(out@ =~= key_text(query@, limit as nat, s, n, fp as nat));
        }
        out
    }

    /// Check the hot cache for a previous result, which is the most recently used one from then on.
    pub fn check_cache(&mut self, key: &str, now: u128) -> (r: Option<Vec<MemoryEntry>>)
        requires
            old(self).wf(),
        ensures
            final(self).wf(),
            final(self).same_but_caches(*old(self)),
            final(self).rrf_cache == old(self).rrf_cache,
            final(self).hot_cache@ == cache::used(
                old(self).hot_cache@,
                key@,
                now as nat,
                old(self).config.cache_ttl as nat,
            ),
            is_copy_of(
                r,
                cache::answer(
                    old(self).hot_cache@,
                    key@,
                    now as nat,
                    old(self).config.cache_ttl as nat,
                ),
            ),
    {
        let ttl: u128 = self.config.cache_ttl;
        match self.hot_cache.check(key, now, ttl) {
            Some(i) => Some(copy_memories(&self.hot_cache.slots[i].value)),
            None => None,
        }
    }

    /// Store a result in the hot cache with LRU eviction.
    pub fn store_in_cache(&mut self, key: String, entries: Vec<MemoryEntry>, now: u128)
        requires
            old(self).wf(),
        ensures
            final(self).wf(),
            final(self).hot_cache@ == cache::stored(
                old(self).hot_cache@,
                old(self).config.cache_max_entries as nat,
                key@,
                entries,
                now as nat,
            ),
            final(self).rrf_cache == old(self).rrf_cache,
            final(self).same_but_caches(*old(self)),
    {
        let max: usize = self.config.cache_max_entries;
        self.hot_cache.store(max, key, entries, now);
    }

    /// Check the RRF cache for a previous result, which is the most recently used one from then on.
    pub fn check_rrf_cache(&mut self, key: &str, now: u128) -> (r: Option<Vec<RrfEntry>>)
        requires
            old(self).wf(),
        ensures
            final(self).wf(),
            final(self).same_but_caches(*old(self)),
            final(self).hot_cache == old(self).hot_cache,
            final(self).rrf_cache@ == cache::used(
                old(self).rrf_cache@,
                key@,
                now as nat,
                old(self).config.cache_ttl as nat,
            ),
            is_copy_of(
                r,
                cache::answer(
                    old(self).rrf_cache@,
                    key@,
                    now as nat,
                    old(self).config.cache_ttl as nat,
                ),
            ),
    {
        let ttl: u128 = self.config.cache_ttl;
        match self.rrf_cache.check(key, now, ttl) {
            Some(i) => Some(rrf::copy_entries(&self.rrf_cache.slots[i].value)),
            None => None,
        }
    }

    /// Store RRF results in cache.
    pub fn store_rrf_cache(&mut self, key: String, entries: Vec<RrfEntry>, now: u128)
        requires
            old(self).wf(),
        ensures
            final(self).wf(),
            final(self).rrf_cache@ == cache::stored(
                old(self).rrf_cache@,
                old(self).config.cache_max_entries as nat,
                key@,
                entries,
                now as nat,
            ),
            final(self).hot_cache == old(self).hot_cache,
            final(self).same_but_caches(*old(self)),
    {
        let max: usize = self.config.cache_max_entries;
        self.rrf_cache.store(max, key, entries, now);
    }

    /// Begin a recall.
    pub fn begin_recall(
        &self,
        query: &str,
        limit: usize,
        session_id: Option<&str>,
        namespace: Option<&str>,
    ) -> (r: RecallRun)
        ensures
            r.next == 0,
            r.key@ == key_text(
                query@,
                limit as nat,
                or_empty(session_id.deep_view()),
                or_empty(namespace.deep_view()),
                self.sources_fp as nat,
            ),
    {
        RecallRun {
            key: RetrievalPipeline::cache_key(query, limit, session_id, namespace, self.sources_fp),
            next: 0,
        }
    }

    /// What a recall does next: it goes through the stages that are left until the cache has an
    /// answer or the backend is to be asked.
    pub fn next_stage(&mut self, state: &mut RecallRun, now: u128) -> (r: RecallAction)
        requires
            old(self).wf(),
        ensures
            final(self).wf(),
            final(self).same_but_caches(*old(self)),
            final(self).rrf_cache == old(self).rrf_cache,
            final(state).key == old(state).key,
            ({
                let ttl = old(self).config.cache_ttl as nat;
                let found = cache::answer(
                    old(self).hot_cache@,
                    old(state).key@,
                    now as nat,
                    ttl,
                );
                match scan(
                    old(self).config.stages.deep_view(),
                    old(state).next as int,
                    found is Some,
                ) {
                    Scan::Cached => r is Cached && r->Cached_0.deep_view() == found->0.deep_view()
                        && final(self).hot_cache@ == cache::used(
                        old(self).hot_cache@,
                        old(state).key@,
                        now as nat,
                        ttl,
                    ),
                    Scan::QueryBackend { next } => r is QueryBackend && final(state).next == next
                        && *final(self) == *old(self),
                    Scan::NoResults => r is NoResults && *final(self) == *old(self),
                }
            }),
    {
        let ghost stages = self.config.stages.deep_view();
        let ghost found = cache::answer(
            self.hot_cache@,
            state.key@,
            now as nat,
            self.config.cache_ttl as nat,
        );
        let ghost from = state.next as int;
        while state.next < self.config.stages.len()
            invariant
                self.wf(),
                *self == *old(self),
                state.key == old(state).key,
                stages == self.config.stages.deep_view(),
                found == cache::answer(
                    self.hot_cache@,
                    state.key@,
                    now as nat,
                    self.config.cache_ttl as nat,
                ),
                scan(stages, from, found is Some) == scan(stages, state.next as int, found is Some),
                from == old(state).next,
            decreases self.config.stages@.len() - state.next,
        {
            assert(stages[state.next as int] == self.config.stages@[state.next as int]@);
            let is_cache = text::same(self.config.stages[state.next].as_str(), "cache");
            let is_search = text::same(self.config.stages[state.next].as_str(), "fts")
                || text::same(self.config.stages[state.next].as_str(), "vector");
            if is_cache {
                let ttl: u128 = self.config.cache_ttl;
                if self.hot_cache.answers(state.key.as_str(), now, ttl) {
                    match self.check_cache(state.key.as_str(), now) {
                        Some(v) => {
                            return RecallAction::Cached(v);
                        },
                        None => {},
                    }
                }
            }
            state.next = state.next + 1;
            if is_search {
                return RecallAction::QueryBackend;
            }
        }
        RecallAction::NoResults
    }

    /// Take what the backend answered: a non-empty answer is cached and is the answer of the
    /// recall. After an empty one the recall goes on.
    pub fn take_answer(
        &mut self,
        state: RecallRun,
        results: Vec<MemoryEntry>,
        now: u128,
    ) -> (r: Result<Vec<MemoryEntry>, RecallRun>)
        requires
            old(self).wf(),
        ensures
            final(self).wf(),
            final(self).same_but_caches(*old(self)),
            final(self).rrf_cache == old(self).rrf_cache,
            match r {
                Ok(answer) => results@.len() > 0 && answer == results && exists|
                    copy: Vec<MemoryEntry>,
                |
                    copy.deep_view() == results.deep_view() && final(self).hot_cache@
                        == #[trigger] cache::stored(
                        old(self).hot_cache@,
                        old(self).config.cache_max_entries as nat,
                        state.key@,
                        copy,
                        now as nat,
                    ),
                Err(rest) => results@.len() == 0 && rest == state && *final(self) == *old(self),
            },
    {
        if results.len() == 0 {
            return Err(state);
        }
        let copy = copy_memories(&results);
        self.store_in_cache(state.key, copy, now);
        Ok(results)
    }

    /// What the sources come to: a single one keeps its order and its scores, several are fused.
    pub fn fuse_sources(
        &self,
        memories: &Vec<MemoryEntry>,
        summaries: &Vec<SummaryEntry>,
        nodes: &Vec<SearchResult>,
        limit: usize,
    ) -> (r: Vec<RrfEntry>)
        ensures
            r.deep_view() == fused(
                self.sources(memories.deep_view(), summaries@, nodes.deep_view()),
                limit as nat,
            ),
    {
        let mem = memories_as_entries(memories);
        let sums = if self.has_sqlite { summaries_as_entries(summaries) } else { Vec::new() };
        let kg = if self.has_knowledge { nodes_as_entries(nodes) } else { Vec::new() };
        let ghost sources = self.sources(memories.deep_view(), summaries@, nodes.deep_view());
        let ghost m = mem.deep_view();
        let ghost s = sums.deep_view();
        let ghost n = kg.deep_view();
        proof {
            if !self.has_sqlite {
                assert(s =~= Seq::empty());
            }
            if !self.has_knowledge {
                assert(n =~= Seq::empty());
            }
            assert(sources == present(m, s, n));
        }
        let mut all: Vec<Vec<RrfEntry>> = Vec::new();
        if mem.len() > 0 {
            all.push(mem);
        }
        if sums.len() > 0 {
            all.push(sums);
        }
        if kg.len() > 0 {
            all.push(kg);
        }
        assert(rrf::lists_view(all@) =~= sources);
        if all.len() == 0 {
            let none: Vec<RrfEntry> = Vec::new();
            assert(none.deep_view() =~= Seq::empty());
            return none;
        }
        if all.len() == 1 {
            assert(sources[0] == all@[0].deep_view());
            return take_under_own_score(&all[0], limit);
        }
        rrf::rrf_merge(all, limit, 60)
    }

    /// Begin a recall over all sources: it answers from the cache if that has an answer, and asks
    /// the sources otherwise.
    pub fn begin_rrf(
        &mut self,
        query: &str,
        limit: usize,
        session_id: Option<&str>,
        now: u128,
    ) -> (r: RrfAction)
        requires
            old(self).wf(),
        ensures
            final(self).wf(),
            final(self).same_but_caches(*old(self)),
            final(self).hot_cache == old(self).hot_cache,
            final(self).rrf_cache@ == cache::used(
                old(self).rrf_cache@,
                old(self).rrf_key(query@, limit as nat, session_id.deep_view()),
                now as nat,
                old(self).config.cache_ttl as nat,
            ),
            match old(self).rrf_answer(
                query@,
                limit as nat,
                session_id.deep_view(),
                now as nat,
            ) {
                Some(v) => r is Cached && r->Cached_0.deep_view() == v.deep_view(),
                None => r is QuerySources,
            },
    {
        let key = RetrievalPipeline::cache_key(query, limit, session_id, None, self.sources_fp);
        match self.check_rrf_cache(key.as_str(), now) {
            Some(v) => RrfAction::Cached(v),
            None => RrfAction::QuerySources,
        }
    }

    /// Unified multi-source recall with Reciprocal Rank Fusion, once the sources have answered:
    /// fuse their answers and cache the result.
    pub fn recall_rrf(
        &mut self,
        query: &str,
        limit: usize,
        session_id: Option<&str>,
        memories: &Vec<MemoryEntry>,
        summaries: &Vec<SummaryEntry>,
        nodes: &Vec<SearchResult>,
        now: u128,
    ) -> (r: Vec<RrfEntry>)
        requires
            old(self).wf(),
        ensures
            final(self).wf(),
            final(self).same_but_caches(*old(self)),
            final(self).hot_cache == old(self).hot_cache,
            r.deep_view() == fused(
                old(self).sources(memories.deep_view(), summaries@, nodes.deep_view()),
                limit as nat,
            ),
            exists|copy: Vec<RrfEntry>|
                copy.deep_view() == r.deep_view() && final(self).rrf_cache@
                    == #[trigger] cache::stored(
                    old(self).rrf_cache@,
                    old(self).config.cache_max_entries as nat,
                    old(self).rrf_key(query@, limit as nat, session_id.deep_view()),
                    copy,
                    now as nat,
                ),
    {
        let key = RetrievalPipeline::cache_key(query, limit, session_id, None, self.sources_fp);
        assert(key@ == self.rrf_key(query@, limit as nat, session_id.deep_view()));
        let out = self.fuse_sources(memories, summaries, nodes, limit);
        let copy = rrf::copy_entries(&out);
        self.store_rrf_cache(key, copy, now);
        out
    }

    /// Invalidate the caches (e.g. after a store operation).
    pub fn invalidate_cache(&mut self)
        requires
            old(self).wf(),
        ensures
            final(self).wf(),
            final(self).hot_cache@.len() == 0,
            final(self).rrf_cache@.len() == 0,
            final(self).same_but_caches(*old(self)),
    {
        self.hot_cache.clear();
        self.rrf_cache.clear();
    }

    /// Get the number of entries in the hot cache.
    pub fn cache_size(&self) -> (r: usize)
        ensures
            r == self.hot_cache@.len(),
    {
        self.hot_cache.len()
    }
}

} // verus!
