//! What recalls answer, in terms of what the sources gave and what was asked before.
use crate::fractions;
use crate::knowledge_graph::rows::ResultView;
use crate::lists;
use crate::ordering;
use crate::render;
use crate::retrieval::cache;
use crate::retrieval::cache::SlotView;
use crate::retrieval::laws;
use crate::retrieval::pipeline;
use crate::retrieval::pipeline::MemoryView;
use crate::retrieval::pipeline::RetrievalPipeline;
use crate::retrieval::pipeline::Scan;
use crate::retrieval::pipeline::SummaryEntry;
use crate::retrieval::rrf;
use crate::retrieval::rrf::RrfView;
use crate::scores::RrfScoreView;
use crate::scores::Score;
use vstd::prelude::*;

verus! {

// ---------------------------------------------------------------------------
// Fusion
// ---------------------------------------------------------------------------

/// The numbers whose reciprocals an item gets for its places in a list: `k` and its rank, which
/// begins at one.
pub open spec fn numbers_in(list: Seq<RrfView>, id: Seq<char>, k: nat) -> Seq<nat>
    decreases list.len(),
{
    if list.len() == 0 {
        Seq::empty()
    } else if list.last().id == id {
        numbers_in(list.drop_last(), id, k).push(k + list.len())
    } else {
        numbers_in(list.drop_last(), id, k)
    }
}

/// The numbers whose reciprocals an item gets for its places in all lists.
pub open spec fn numbers(ranked: Seq<Seq<RrfView>>, id: Seq<char>, k: nat) -> Seq<nat>
    decreases ranked.len(),
{
    if ranked.len() == 0 {
        Seq::empty()
    } else {
        numbers(ranked.drop_last(), id, k) + numbers_in(ranked.last(), id, k)
    }
}

/// Whether the reciprocals of the first numbers add up to more than those of the others.
pub open spec fn outscores(a: Seq<nat>, b: Seq<nat>) -> bool {
    let x = fractions::sum_of(a);
    let y = fractions::sum_of(b);
    x.num * y.den > y.num * x.den
}

/// A sum of reciprocals: nothing adds up to nothing, and `1 / d` is added to `n / m` as fractions
/// are.
pub proof fn law_reciprocals_add_up(ds: Seq<nat>, d: nat)
    ensures
        fractions::sum_of(Seq::<nat>::empty()).num == 0,
        fractions::sum_of(Seq::<nat>::empty()).den == 1,
        ({
            let before = fractions::sum_of(ds);
            let after = fractions::sum_of(ds.push(d));
            after.num == before.num * d + before.den && after.den == before.den * d
        }),
{
    assert(ds.push(d).drop_last() =~= ds);
}

proof fn lemma_numbers_in(list: Seq<RrfView>, id: Seq<char>, k: nat)
    ensures
        rrf::reciprocals(Seq::new(list.len(), |i: int| (list[i], i as nat)), id, k) == numbers_in(
            list,
            id,
            k,
        ),
    decreases list.len(),
{
    let part = Seq::new(list.len(), |i: int| (list[i], i as nat));
    if list.len() > 0 {
        let front = list.drop_last();
        lemma_numbers_in(front, id, k);
        assert(part.drop_last() =~= Seq::new(front.len(), |i: int| (front[i], i as nat)));
        assert(part.last() == (list.last(), (list.len() - 1) as nat));
    }
}

proof fn lemma_numbers(ranked: Seq<Seq<RrfView>>, id: Seq<char>, k: nat)
    ensures
        rrf::reciprocals(rrf::ranked(ranked), id, k) == numbers(ranked, id, k),
    decreases ranked.len(),
{
    if ranked.len() > 0 {
        let front = ranked.drop_last();
        let list = ranked.last();
        lemma_numbers(front, id, k);
        lemma_numbers_in(list, id, k);
        laws::lemma_reciprocals_concat(
            rrf::ranked(front),
            Seq::new(list.len(), |i: int| (list[i], i as nat)),
            id,
            k,
        );
    }
}

/// Whether an item stands at a place of a list, with no entry of the same identifier before it in
/// that list or in an earlier one.
pub open spec fn is_first_at(ranked: Seq<Seq<RrfView>>, l: int, r: int) -> bool {
    &&& 0 <= l < ranked.len()
    &&& 0 <= r < ranked[l].len()
    &&& forall|m: int, s: int|
        #![trigger ranked[m][s]]
        0 <= m <= l && 0 <= s < ranked[m].len() && (m < l || s < r) ==> ranked[m][s].id
            != ranked[l][r].id
}

proof fn lemma_place(ranked: Seq<Seq<RrfView>>, l: int, r: int)
    requires
        0 <= l < ranked.len(),
        0 <= r < ranked[l].len(),
    ensures
        rrf::ranked(ranked.take(l)).len() + r < rrf::ranked(ranked).len(),
        rrf::ranked(ranked)[rrf::ranked(ranked.take(l)).len() + r] == (ranked[l][r], r as nat),
    decreases ranked.len(),
{
    let front = ranked.drop_last();
    if l == front.len() {
        assert(ranked.take(l) =~= front);
    } else {
        lemma_place(front, l, r);
        assert(front.take(l) =~= ranked.take(l));
    }
}

proof fn lemma_place_of(ranked: Seq<Seq<RrfView>>, x: int)
    requires
        0 <= x < rrf::ranked(ranked).len(),
    ensures
        exists|l: int, r: int|
            0 <= l < ranked.len() && 0 <= r < ranked[l].len() && x == rrf::ranked(
                ranked.take(l),
            ).len() + r && rrf::ranked(ranked)[x] == (#[trigger] ranked[l][r], r as nat),
    decreases ranked.len(),
{
    let front = ranked.drop_last();
    let n = rrf::ranked(front).len();
    if x < n {
        lemma_place_of(front, x);
        let (l, r) = choose|l: int, r: int|
            0 <= l < front.len() && 0 <= r < front[l].len() && x == rrf::ranked(
                front.take(l),
            ).len() + r && rrf::ranked(front)[x] == (#[trigger] front[l][r], r as nat);
        assert(front.take(l) =~= ranked.take(l));
        assert(ranked[l][r] == front[l][r]);
    } else {
        let l = ranked.len() - 1;
        let r = x - n;
        assert(ranked.take(l) =~= front);
        assert(ranked[l][r] == ranked.last()[r]);
    }
}

proof fn lemma_places_grow(ranked: Seq<Seq<RrfView>>, m: int, l: int)
    requires
        0 <= m < l <= ranked.len(),
    ensures
        rrf::ranked(ranked.take(m)).len() + ranked[m].len() <= rrf::ranked(ranked.take(l)).len(),
    decreases l - m,
{
    assert(ranked.take(l).drop_last() =~= ranked.take(l - 1));
    assert(ranked.take(l).last() == ranked[l - 1]);
    if m < l - 1 {
        lemma_places_grow(ranked, m, l - 1);
    }
}

/// Merged lists: each item comes once, as the entry that stands first, under the sum of its
/// reciprocals over all lists; greater sums come first; there are as many items as the limit
/// allows, and none that is left out has a greater sum than one that is there.
pub proof fn law_merge_sums_over_all_lists(
    ranked: Seq<Seq<RrfView>>,
    limit: nat,
    k: nat,
    l: int,
    r: int,
)
    ensures
        ({
            let out = rrf::merged(ranked, limit, k);
            &&& out.len() <= limit
            &&& forall|i: int|
                0 <= i < out.len() ==> exists|m: int, s: int|
                    is_first_at(ranked, m, s) && #[trigger] out[i] == (RrfView {
                        rrf_score: RrfScoreView::Fused(numbers(ranked, out[i].id, k)),
                        ..#[trigger] ranked[m][s]
                    })
            &&& forall|i: int, j: int|
                0 <= i < j < out.len() ==> (#[trigger] out[i]).id != (#[trigger] out[j]).id
                    && !outscores(numbers(ranked, out[j].id, k), numbers(ranked, out[i].id, k))
            &&& 0 <= l < ranked.len() && 0 <= r < ranked[l].len() && !rrf::knows_id(
                out,
                ranked[l][r].id,
            ) ==> {
                &&& out.len() == limit
                &&& forall|i: int|
                    0 <= i < out.len() ==> !outscores(
                        numbers(ranked, ranked[l][r].id, k),
                        numbers(ranked, (#[trigger] out[i]).id, k),
                    )
            }
        }),
{
    let all = rrf::ranked(ranked);
    let firsts = rrf::representatives(all);
    let out = rrf::merged(ranked, limit, k);
    laws::law_merge_ranks_by_score(ranked, limit, k);
    laws::law_first_entry_represents(all);
    assert forall|i: int| 0 <= i < out.len() implies exists|m: int, s: int|
        is_first_at(ranked, m, s) && #[trigger] out[i] == (RrfView {
            rrf_score: RrfScoreView::Fused(numbers(ranked, out[i].id, k)),
            ..#[trigger] ranked[m][s]
        }) by {
        let p = choose|p: int|
            0 <= p < firsts.len() && out[i] == rrf::with_fused_score(#[trigger] firsts[p], all, k);
        let e = firsts[p];
        assert(laws::is_first(all, e));
        let x = choose|x: int|
            0 <= x < all.len() && (#[trigger] all[x]).0 == e && forall|j: int|
                0 <= j < x ==> (#[trigger] all[j]).0.id != e.id;
        lemma_place_of(ranked, x);
        let (m, s) = choose|m: int, s: int|
            0 <= m < ranked.len() && 0 <= s < ranked[m].len() && x == rrf::ranked(
                ranked.take(m),
            ).len() + s && all[x] == (#[trigger] ranked[m][s], s as nat);
        assert forall|m2: int, s2: int|
            #![trigger ranked[m2][s2]]
            0 <= m2 <= m && 0 <= s2 < ranked[m2].len() && (m2 < m || s2 < s) implies ranked[m2][s2].id
            != ranked[m][s].id by {
            lemma_place(ranked, m2, s2);
            if m2 < m {
                lemma_places_grow(ranked, m2, m);
            }
            let y = rrf::ranked(ranked.take(m2)).len() + s2;
            assert(y < x);
            assert(all[y].0.id != e.id);
        }
        assert(is_first_at(ranked, m, s));
        lemma_numbers(ranked, e.id, k);
    }
    assert forall|i: int, j: int| 0 <= i < j < out.len() implies (#[trigger] out[i]).id != (
    #[trigger] out[j]).id && !outscores(
        numbers(ranked, out[j].id, k),
        numbers(ranked, out[i].id, k),
    ) by {
        lemma_numbers(ranked, out[i].id, k);
        lemma_numbers(ranked, out[j].id, k);
    }
    if 0 <= l < ranked.len() && 0 <= r < ranked[l].len() && !rrf::knows_id(out, ranked[l][r].id) {
        let id = ranked[l][r].id;
        lemma_place(ranked, l, r);
        let x = rrf::ranked(ranked.take(l)).len() + r;
        assert(rrf::knows_id(firsts, all[x].0.id));
        let p = choose|p: int| 0 <= p < firsts.len() && (#[trigger] firsts[p]).id == id;
        assert forall|i: int| 0 <= i < out.len() implies !outscores(
            numbers(ranked, id, k),
            numbers(ranked, (#[trigger] out[i]).id, k),
        ) by {
            lemma_numbers(ranked, id, k);
            lemma_numbers(ranked, out[i].id, k);
        }
        if firsts.len() <= limit {
            lemma_all_merged(ranked, limit, k, p);
        }
    }
}

/// If the limit allows, every item that stands first somewhere is there.
proof fn lemma_all_merged(ranked: Seq<Seq<RrfView>>, limit: nat, k: nat, p: int)
    requires
        0 <= p < rrf::representatives(rrf::ranked(ranked)).len() <= limit,
    ensures
        rrf::knows_id(
            rrf::merged(ranked, limit, k),
            rrf::representatives(rrf::ranked(ranked))[p].id,
        ),
{
    let all = rrf::ranked(ranked);
    let firsts = rrf::representatives(all);
    let scores = firsts.map_values(|e: RrfView| rrf::fused_score(all, e.id, k));
    let before = ordering::greater_fraction(scores);
    assert forall|i: int| 0 <= i < scores.len() implies (#[trigger] scores[i]).den > 0 by {
        rrf::lemma_reciprocals_positive(all, firsts[i].id, k);
    }
    ordering::law_greater_fraction_is_an_order(scores);
    ordering::law_ordered(firsts.len(), firsts.len(), before);
    let order = ordering::ordered(firsts.len(), before);
    assert(order.contains(p));
    let x = choose|x: int| 0 <= x < order.len() && order[x] == p;
    assert(rrf::merged(ranked, limit, k)[x].id == firsts[p].id);
}

// ---------------------------------------------------------------------------
// Recalls over all sources
// ---------------------------------------------------------------------------

/// Whether an entry tells a memory: its identifier, content, key, score and time.
pub open spec fn tells_memory(e: RrfView, m: MemoryView) -> bool {
    &&& e.source is Memory
    &&& e.id == m.id
    &&& e.content == m.content
    &&& e.key == Some(m.key)
    &&& e.original_score == m.score
    &&& e.created_at == m.timestamp
    &&& e.node_type is None
}

/// Whether an entry tells a summary: its identifier, content, score and time.
pub open spec fn tells_summary(e: RrfView, s: SummaryEntry) -> bool {
    &&& e.source is Summary
    &&& e.id == s.id@
    &&& e.content == s.content@
    &&& e.original_score == s.score
    &&& e.created_at == s.created_at@
    &&& e.key is None
    &&& e.node_type is None
}

/// Whether an entry tells a node: its identifier, its synthesis or else its content, its type, score
/// and time.
pub open spec fn tells_node(e: RrfView, n: ResultView) -> bool {
    &&& e.source is KnowledgeNode
    &&& e.id == n.node.id
    &&& n.node.synthesis matches Some(s) ==> e.content == s
    &&& n.node.synthesis is None ==> e.content == n.node.content
    &&& e.original_score == Some(n.score)
    &&& e.created_at == n.node.updated_at
    &&& e.node_type == Some(n.node.node_type)
    &&& e.key is None
}

/// Whether an entry tells something that a source gave, and that source is there.
pub open spec fn is_told(
    p: RetrievalPipeline,
    memories: Seq<MemoryView>,
    summaries: Seq<SummaryEntry>,
    nodes: Seq<ResultView>,
    e: RrfView,
) -> bool {
    ||| exists|i: int| 0 <= i < memories.len() && tells_memory(e, #[trigger] memories[i])
    ||| p.has_sqlite && exists|i: int|
        0 <= i < summaries.len() && tells_summary(e, #[trigger] summaries[i])
    ||| p.has_knowledge && exists|i: int|
        0 <= i < nodes.len() && tells_node(e, #[trigger] nodes[i])
}

proof fn lemma_sources_tell(
    p: RetrievalPipeline,
    memories: Seq<MemoryView>,
    summaries: Seq<SummaryEntry>,
    nodes: Seq<ResultView>,
    l: int,
    r: int,
)
    requires
        0 <= l < p.sources(memories, summaries, nodes).len(),
        0 <= r < p.sources(memories, summaries, nodes)[l].len(),
    ensures
        is_told(
            p,
            memories,
            summaries,
            nodes,
            p.sources(memories, summaries, nodes)[l][r],
        ),
{
    let from_memories = memories.map_values(|e: MemoryView| pipeline::memory_entry(e));
    let from_summaries = summaries.map_values(|e: SummaryEntry| pipeline::summary_entry(e));
    let from_nodes = nodes.map_values(|e: ResultView| pipeline::node_entry(e));
    let list = p.sources(memories, summaries, nodes)[l];
    let e = list[r];
    if list == from_memories && r < memories.len() && e == from_memories[r] {
        assert(tells_memory(e, memories[r]));
    } else if p.has_sqlite && list == from_summaries {
        assert(tells_summary(e, summaries[r]));
    } else {
        assert(p.has_knowledge && list == from_nodes);
        assert(tells_node(e, nodes[r]));
    }
}

/// Every entry of a recall tells what one of the sources gave: a memory with its content, a summary
/// with its text, a node with its synthesis or else its content. There are no more than the limit.
pub proof fn law_recall_tells_what_the_sources_gave(
    p: RetrievalPipeline,
    memories: Seq<MemoryView>,
    summaries: Seq<SummaryEntry>,
    nodes: Seq<ResultView>,
    limit: nat,
    i: int,
)
    ensures
        ({
            let out = pipeline::fused(p.sources(memories, summaries, nodes), limit);
            &&& out.len() <= limit
            &&& 0 <= i < out.len() ==> is_told(p, memories, summaries, nodes, out[i])
        }),
{
    let given = p.sources(memories, summaries, nodes);
    let out = pipeline::fused(given, limit);
    if given.len() == 1 {
        if 0 <= i < out.len() {
            lemma_sources_tell(p, memories, summaries, nodes, 0, i);
            lemma_told_under_any_score(p, memories, summaries, nodes, given[0][i], out[i]);
        }
    } else if given.len() > 1 {
        law_merge_sums_over_all_lists(given, limit, 60, 0, 0);
        if 0 <= i < out.len() {
            let (m, s) = choose|m: int, s: int|
                is_first_at(given, m, s) && out[i] == (RrfView {
                    rrf_score: RrfScoreView::Fused(numbers(given, out[i].id, 60)),
                    ..#[trigger] given[m][s]
                });
            lemma_sources_tell(p, memories, summaries, nodes, m, s);
            lemma_told_under_any_score(p, memories, summaries, nodes, given[m][s], out[i]);
        }
    }
}

proof fn lemma_told_under_any_score(
    p: RetrievalPipeline,
    memories: Seq<MemoryView>,
    summaries: Seq<SummaryEntry>,
    nodes: Seq<ResultView>,
    e: RrfView,
    f: RrfView,
)
    requires
        is_told(p, memories, summaries, nodes, e),
        f == (RrfView { rrf_score: f.rrf_score, ..e }),
    ensures
        is_told(p, memories, summaries, nodes, f),
{
    if exists|i: int| 0 <= i < memories.len() && tells_memory(e, #[trigger] memories[i]) {
        let i = choose|i: int| 0 <= i < memories.len() && tells_memory(e, #[trigger] memories[i]);
        assert(tells_memory(f, memories[i]));
    } else if p.has_sqlite && exists|i: int|
        0 <= i < summaries.len() && tells_summary(e, #[trigger] summaries[i]) {
        let i = choose|i: int|
            0 <= i < summaries.len() && tells_summary(e, #[trigger] summaries[i]);
        assert(tells_summary(f, summaries[i]));
    } else {
        let i = choose|i: int| 0 <= i < nodes.len() && tells_node(e, #[trigger] nodes[i]);
        assert(tells_node(f, nodes[i]));
    }
}

/// The identifiers that the sources gave, source by source: the memories first, then the summaries,
/// then the nodes, without a source that gave nothing or is not there.
pub open spec fn given_ids(
    p: RetrievalPipeline,
    memories: Seq<MemoryView>,
    summaries: Seq<SummaryEntry>,
    nodes: Seq<ResultView>,
) -> Seq<Seq<Seq<char>>> {
    let m = memories.map_values(|e: MemoryView| e.id);
    let s = if p.has_sqlite {
        summaries.map_values(|e: SummaryEntry| e.id@)
    } else {
        Seq::empty()
    };
    let n = if p.has_knowledge {
        nodes.map_values(|e: ResultView| e.node.id)
    } else {
        Seq::empty()
    };
    seq![m, s, n].filter(|ids: Seq<Seq<char>>| ids.len() > 0)
}

/// Nothing that a source gave is left out of a recall, from whichever source it came, unless the
/// limit is reached.
pub proof fn law_recall_leaves_nothing_out(
    p: RetrievalPipeline,
    memories: Seq<MemoryView>,
    summaries: Seq<SummaryEntry>,
    nodes: Seq<ResultView>,
    limit: nat,
    i: int,
)
    ensures
        ({
            let out = pipeline::fused(p.sources(memories, summaries, nodes), limit);
            &&& 0 <= i < memories.len() ==> rrf::knows_id(out, memories[i].id) || out.len() == limit
            &&& 0 <= i < summaries.len() && p.has_sqlite ==> rrf::knows_id(out, summaries[i].id@)
                || out.len() == limit
            &&& 0 <= i < nodes.len() && p.has_knowledge ==> rrf::knows_id(out, nodes[i].node.id)
                || out.len() == limit
        }),
{
    let from_memories = memories.map_values(|e: MemoryView| pipeline::memory_entry(e));
    let from_summaries = summaries.map_values(|e: SummaryEntry| pipeline::summary_entry(e));
    let from_nodes = nodes.map_values(|e: ResultView| pipeline::node_entry(e));
    let given = p.sources(memories, summaries, nodes);
    if 0 <= i < memories.len() {
        assert(given[0] == from_memories);
        lemma_given_is_there(given, limit, 0, i);
    }
    if 0 <= i < summaries.len() && p.has_sqlite {
        let l: int = if memories.len() > 0 {
            1
        } else {
            0
        };
        assert(given[l] == from_summaries);
        lemma_given_is_there(given, limit, l, i);
    }
    if 0 <= i < nodes.len() && p.has_knowledge {
        let l = given.len() - 1;
        assert(given[l] == from_nodes);
        lemma_given_is_there(given, limit, l, i);
    }
}

proof fn lemma_given_is_there(given: Seq<Seq<RrfView>>, limit: nat, l: int, r: int)
    requires
        0 <= l < given.len(),
        0 <= r < given[l].len(),
    ensures
        rrf::knows_id(pipeline::fused(given, limit), given[l][r].id) || pipeline::fused(
            given,
            limit,
        ).len() == limit,
{
    let out = pipeline::fused(given, limit);
    if given.len() == 1 {
        if given[0].len() <= limit {
            assert(out[r].id == given[0][r].id);
        }
    } else {
        law_merge_sums_over_all_lists(given, limit, 60, l, r);
    }
}

/// Entries of a recall with one source keep the order and the score of the source. With several the
/// sources are merged with the constant 60: memories first, then summaries, then nodes.
pub proof fn law_recall_merges_several_sources(
    p: RetrievalPipeline,
    memories: Seq<MemoryView>,
    summaries: Seq<SummaryEntry>,
    nodes: Seq<ResultView>,
    limit: nat,
)
    ensures
        ({
            let given = p.sources(memories, summaries, nodes);
            let out = pipeline::fused(given, limit);
            let ids = given_ids(p, memories, summaries, nodes);
            &&& given.len() == ids.len()
            &&& forall|l: int|
                0 <= l < ids.len() ==> (#[trigger] given[l]).map_values(|e: RrfView| e.id) == ids[l]
            &&& ids.len() == 0 ==> out.len() == 0
            &&& ids.len() == 1 ==> out.len() == (if ids[0].len() < limit {
                ids[0].len()
            } else {
                limit
            }) && forall|i: int|
                0 <= i < out.len() ==> (#[trigger] out[i]).id == ids[0][i] && out[i].rrf_score
                    == RrfScoreView::Own(
                    match out[i].original_score {
                        Some(s) => s,
                        None => Score::Count(0),
                    },
                )
            &&& ids.len() > 1 ==> out == rrf::merged(given, limit, 60)
        }),
{
    let given = p.sources(memories, summaries, nodes);
    let out = pipeline::fused(given, limit);
    let m = memories.map_values(|e: MemoryView| e.id);
    let s = if p.has_sqlite {
        summaries.map_values(|e: SummaryEntry| e.id@)
    } else {
        Seq::empty()
    };
    let n = if p.has_knowledge {
        nodes.map_values(|e: ResultView| e.node.id)
    } else {
        Seq::empty()
    };
    let keep = |ids: Seq<Seq<char>>| ids.len() > 0;
    let ids = given_ids(p, memories, summaries, nodes);
    let all = seq![m, s, n];
    reveal(Seq::filter);
    reveal_with_fuel(Seq::filter, 4);
    assert(all.drop_last() =~= seq![m, s]);
    assert(seq![m, s].drop_last() =~= seq![m]);
    assert(seq![m].drop_last() =~= Seq::empty());
    let empty = Seq::<Seq<Seq<char>>>::empty();
    let one = if m.len() > 0 {
        empty.push(m)
    } else {
        empty
    };
    let two = if s.len() > 0 {
        one.push(s)
    } else {
        one
    };
    let three = if n.len() > 0 {
        two.push(n)
    } else {
        two
    };
    assert(seq![m].filter(keep) =~= one);
    assert(seq![m, s].filter(keep) =~= two);
    assert(ids =~= three);
    let from_memories = memories.map_values(|e: MemoryView| pipeline::memory_entry(e));
    let from_summaries = summaries.map_values(|e: SummaryEntry| pipeline::summary_entry(e));
    let from_nodes = nodes.map_values(|e: ResultView| pipeline::node_entry(e));
    assert(from_memories.map_values(|e: RrfView| e.id) =~= m);
    if p.has_sqlite {
        assert(from_summaries.map_values(|e: RrfView| e.id) =~= s);
    }
    if p.has_knowledge {
        assert(from_nodes.map_values(|e: RrfView| e.id) =~= n);
    }
    assert forall|l: int| 0 <= l < ids.len() implies (#[trigger] given[l]).map_values(
        |e: RrfView| e.id,
    ) == ids[l] by {}
    if ids.len() == 1 {
        assert forall|i: int| 0 <= i < out.len() implies (#[trigger] out[i]).id == ids[0][i] by {
            assert(given[0].map_values(|e: RrfView| e.id)[i] == given[0][i].id);
        }
    }
}

// ---------------------------------------------------------------------------
// Stages
// ---------------------------------------------------------------------------

/// The first stage that asks the backend is the next one, unless the cache has an answer and comes
/// before it. Without such a stage there are no results.
pub proof fn law_first_asking_stage_is_next(
    stages: Seq<Seq<char>>,
    from: int,
    at: int,
    hit: bool,
)
    requires
        0 <= from <= at <= stages.len(),
        forall|i: int|
            from <= i < at ==> #[trigger] stages[i] != "fts"@ && stages[i] != "vector"@ && !(hit
                && stages[i] == "cache"@),
    ensures
        at < stages.len() && (stages[at] == "fts"@ || stages[at] == "vector"@) ==> pipeline::scan(
            stages,
            from,
            hit,
        ) == (Scan::QueryBackend { next: at + 1 }),
        at < stages.len() && hit && stages[at] == "cache"@ ==> pipeline::scan(stages, from, hit)
            == Scan::Cached,
        at == stages.len() ==> pipeline::scan(stages, from, hit) == Scan::NoResults,
    decreases at - from,
{
    reveal_strlit("cache");
    reveal_strlit("fts");
    reveal_strlit("vector");
    assert("cache"@.len() == 5 && "fts"@.len() == 3 && "vector"@.len() == 6);
    if from < at {
        law_first_asking_stage_is_next(stages, from + 1, at, hit);
    }
}

// ---------------------------------------------------------------------------
// Caches
// ---------------------------------------------------------------------------

/// What the cache answers: the value that is held under the key, as long as it is younger than its
/// time to live. One from the future counts as new.
pub proof fn law_cache_answers_what_it_holds<T>(
    slots: Seq<SlotView<T>>,
    i: int,
    key: Seq<char>,
    now: nat,
    ttl: nat,
)
    requires
        cache::unique_keys(slots),
    ensures
        0 <= i < slots.len() ==> cache::answer(slots, slots[i].key, now, ttl) == if now
            < slots[i].created_at + ttl && ttl > 0 {
            Some(slots[i].value)
        } else {
            None
        },
        (forall|k: int| 0 <= k < slots.len() ==> (#[trigger] slots[k]).key != key)
            ==> cache::answer(slots, key, now, ttl) is None,
{
    if 0 <= i < slots.len() {
        cache::lemma_entry_at(slots, i);
    }
    if !cache::has_key(slots, key) {
        cache::lemma_entry_none(slots, key);
    }
}

/// Storing makes room by giving up one entry at most, that which was used longest ago, and only if
/// the cache is full. Every other entry is answered as before.
pub proof fn law_storing_spares_the_others<T>(
    slots: Seq<SlotView<T>>,
    max: nat,
    key: Seq<char>,
    value: T,
    now: nat,
    i: int,
    time: nat,
    ttl: nat,
)
    requires
        cache::unique_keys(slots),
        0 <= i < slots.len(),
        slots[i].key != key,
        i > 0 || slots.len() < max,
    ensures
        cache::answer(cache::stored(slots, max, key, value, now), slots[i].key, time, ttl)
            == cache::answer(slots, slots[i].key, time, ttl),
{
    let room = cache::evicted(slots, max);
    let j = if slots.len() >= max && slots.len() > 0 {
        i - 1
    } else {
        i
    };
    assert(room[j] == slots[i]);
    assert(cache::unique_keys(room)) by {
        assert forall|a: int, b: int| 0 <= a < b < room.len() implies (#[trigger] room[a]).key != (
        #[trigger] room[b]).key by {
            if slots.len() >= max && slots.len() > 0 {
                assert(slots[a + 1].key != slots[b + 1].key);
            } else {
                assert(slots[a].key != slots[b].key);
            }
        }
    }
    cache::lemma_entry_at(slots, i);
    cache::lemma_entry_at(room, j);
    cache::lemma_entry_without_other(room, key, slots[i].key);
    let out = cache::stored(slots, max, key, value, now);
    assert(out.drop_last() =~= cache::without_key(room, key));
}

/// The key of a recall over all sources tells apart queries, limits, sessions and sets of sources.
pub proof fn law_rrf_keys_tell_recalls_apart(
    p: RetrievalPipeline,
    q: RetrievalPipeline,
    query: Seq<char>,
    limit: nat,
    session: Seq<char>,
    other: Seq<char>,
    more: nat,
)
    ensures
        p.rrf_key(query, limit, Some(session)) == p.rrf_key(other, limit, Some(session)) ==> query
            == other,
        p.rrf_key(query, limit, Some(session)) == p.rrf_key(query, more, Some(session)) ==> limit
            == more,
        p.rrf_key(query, limit, Some(session)) == p.rrf_key(query, limit, Some(other)) ==> session
            == other,
        p.rrf_key(query, limit, Some(session)) == p.rrf_key(query, limit, None) ==> session.len()
            == 0,
        p.wf() && q.wf() && p.rrf_key(query, limit, Some(session)) == q.rrf_key(
            query,
            limit,
            Some(session),
        ) ==> p.has_sqlite == q.has_sqlite && p.has_knowledge == q.has_knowledge,
        p.rrf_key(query, limit, Some(session)) == query + ":"@ + render::decimal(limit) + ":"@
            + session + ":"@ + ":"@ + render::decimal(p.sources_fp as nat),
{
    let e = Seq::<char>::empty();
    let fp = p.sources_fp as nat;
    laws::law_cache_key_tells_parameters_apart(
        query,
        limit,
        session,
        e,
        fp,
        other,
        more,
        other,
        e,
        q.sources_fp as nat,
    );
    laws::law_cache_key_tells_parameters_apart(query, limit, session, e, fp, other, more, e, e, fp);
    if p.wf() && q.wf() && p.sources_fp == q.sources_fp {
        rrf::law_fingerprints_differ(
            p.has_sqlite,
            p.has_knowledge,
            q.has_sqlite,
            q.has_knowledge,
        );
    }
    let head = query + ":"@ + render::decimal(limit) + ":"@ + session + ":"@;
    assert(head + e =~= head);
}

proof fn lemma_without_one<T>(a: Seq<SlotView<T>>, s: SlotView<T>, b: Seq<SlotView<T>>)
    requires
        cache::unique_keys(a + seq![s] + b),
    ensures
        cache::without_key(a + seq![s] + b, s.key) == a + b,
{
    let all = a + seq![s] + b;
    let keep = |x: SlotView<T>| x.key != s.key;
    Seq::filter_distributes_over_add(a + seq![s], b, keep);
    Seq::filter_distributes_over_add(a, seq![s], keep);
    assert forall|i: int| 0 <= i < a.len() implies keep(#[trigger] a[i]) by {
        assert(all[i] == a[i] && all[a.len() as int] == s);
    }
    assert forall|i: int| 0 <= i < b.len() implies keep(#[trigger] b[i]) by {
        assert(all[a.len() + 1 + i] == b[i] && all[a.len() as int] == s);
    }
    lemma_keeps_all(a, keep);
    lemma_keeps_all(b, keep);
    reveal(Seq::filter);
    assert(seq![s].drop_last() =~= Seq::empty());
    assert(Seq::<SlotView<T>>::empty().filter(keep) =~= Seq::empty());
    assert(seq![s].filter(keep) =~= Seq::empty());
    assert(a + Seq::empty() + b =~= a + b);
}

proof fn lemma_keeps_all<T>(s: Seq<T>, keep: spec_fn(T) -> bool)
    requires
        forall|i: int| 0 <= i < s.len() ==> keep(#[trigger] s[i]),
    ensures
        s.filter(keep) == s,
    decreases s.len(),
{
    reveal(Seq::filter);
    if s.len() > 0 {
        let front = s.drop_last();
        assert forall|i: int| 0 <= i < front.len() implies keep(#[trigger] front[i]) by {
            assert(keep(s[i]));
        }
        lemma_keeps_all(front, keep);
        assert(keep(s[s.len() - 1]));
        assert(front.push(s.last()) =~= s);
    }
}

/// An answered entry becomes the one that was used last, and the others keep their order. What is
/// not answered changes nothing.
pub proof fn law_use_moves_the_entry_to_the_end<T>(
    a: Seq<SlotView<T>>,
    s: SlotView<T>,
    b: Seq<SlotView<T>>,
    key: Seq<char>,
    now: nat,
    ttl: nat,
)
    requires
        cache::unique_keys(a + seq![s] + b),
    ensures
        now < s.created_at + ttl && ttl > 0 ==> cache::used(a + seq![s] + b, s.key, now, ttl) == a + b
            + seq![s],
        cache::answer(a + seq![s] + b, key, now, ttl) is None ==> cache::used(
            a + seq![s] + b,
            key,
            now,
            ttl,
        ) == a + seq![s] + b,
{
    let all = a + seq![s] + b;
    let i = a.len() as int;
    assert(all[i] == s);
    law_cache_answers_what_it_holds(all, i, key, now, ttl);
    cache::lemma_entry_at(all, i);
    lemma_without_one(a, s, b);
    assert((a + b).push(s) =~= a + b + seq![s]);
}

/// The entries that are left once room was made for another.
pub open spec fn with_room<T>(slots: Seq<SlotView<T>>, max: nat) -> Seq<SlotView<T>> {
    if slots.len() > 0 && slots.len() >= max {
        slots.skip(1)
    } else {
        slots
    }
}

/// What is stored becomes the entry that was used last. The one used longest ago is given up first
/// if the cache is full, and what was held under the same key is replaced; the others keep their
/// order.
pub proof fn law_stored_entry_comes_last<T>(
    slots: Seq<SlotView<T>>,
    max: nat,
    key: Seq<char>,
    value: T,
    now: nat,
    a: Seq<SlotView<T>>,
    s: SlotView<T>,
    b: Seq<SlotView<T>>,
)
    requires
        cache::unique_keys(slots),
    ensures
        ({
            let new = SlotView { key, value, created_at: now };
            let room = with_room(slots, max);
            let out = cache::stored(slots, max, key, value, now);
            &&& (forall|i: int| 0 <= i < room.len() ==> (#[trigger] room[i]).key != key) ==> out
                == room.push(new)
            &&& room == a + seq![s] + b && s.key == key ==> out == (a + b).push(new)
        }),
{
    let room = with_room(slots, max);
    assert(cache::evicted(slots, max) =~= room);
    assert(cache::unique_keys(room)) by {
        assert forall|x: int, y: int| 0 <= x < y < room.len() implies (#[trigger] room[x]).key != (
        #[trigger] room[y]).key by {
            if slots.len() > 0 && slots.len() >= max {
                assert(slots[x + 1].key != slots[y + 1].key);
            } else {
                assert(slots[x].key != slots[y].key);
            }
        }
    }
    if forall|i: int| 0 <= i < room.len() ==> (#[trigger] room[i]).key != key {
        lemma_keeps_all(room, |x: SlotView<T>| x.key != key);
    }
    if room == a + seq![s] + b && s.key == key {
        lemma_without_one(a, s, b);
    }
}

/// A recall over all sources is answered from the cache with what is held under its key, as long as
/// that is younger than the configured time to live, and not otherwise.
pub proof fn law_cached_recall_expires(
    p: RetrievalPipeline,
    query: Seq<char>,
    limit: nat,
    session: Option<Seq<char>>,
    now: nat,
    i: int,
)
    requires
        p.wf(),
    ensures
        0 <= i < p.rrf_cache@.len() && p.rrf_cache@[i].key == p.rrf_key(query, limit, session)
            ==> p.rrf_answer(query, limit, session, now) == if now < p.rrf_cache@[i].created_at
            + p.config.cache_ttl && p.config.cache_ttl > 0 {
            Some(p.rrf_cache@[i].value)
        } else {
            None
        },
        (forall|k: int|
            0 <= k < p.rrf_cache@.len() ==> (#[trigger] p.rrf_cache@[k]).key != p.rrf_key(
                query,
                limit,
                session,
            )) ==> p.rrf_answer(query, limit, session, now) is None,
{
    law_cache_answers_what_it_holds(
        p.rrf_cache@,
        i,
        p.rrf_key(query, limit, session),
        now,
        p.config.cache_ttl as nat,
    );
}

} // verus!
