//! What holds of every fusion and every cache key.
use crate::fractions;
use crate::fractions::Fraction;
use crate::lists;
use crate::ordering;
use crate::render;
use crate::retrieval::cache;
use crate::retrieval::pipeline;
use crate::retrieval::pipeline::RetrievalPipeline;
use crate::retrieval::rrf;
use crate::retrieval::rrf::RrfEntry;
use crate::retrieval::rrf::RrfView;
use crate::scores::RrfScoreView;
use vstd::prelude::*;

verus! {

pub proof fn lemma_reciprocals_concat(
    a: Seq<(RrfView, nat)>,
    b: Seq<(RrfView, nat)>,
    id: Seq<char>,
    k: nat,
)
    ensures
        rrf::reciprocals(a + b, id, k) == rrf::reciprocals(a, id, k) + rrf::reciprocals(b, id, k),
    decreases b.len(),
{
    let first = rrf::reciprocals(a, id, k);
    if b.len() == 0 {
        assert(a + b =~= a);
        assert(first + rrf::reciprocals(b, id, k) =~= first);
    } else {
        lemma_reciprocals_concat(a, b.drop_last(), id, k);
        assert((a + b).drop_last() =~= a + b.drop_last());
        assert((a + b).last() == b.last());
        assert(rrf::reciprocals(a + b, id, k) =~= first + rrf::reciprocals(b, id, k));
    }
}

proof fn lemma_reciprocal_of_rank(all: Seq<(RrfView, nat)>, i: int, k: nat)
    requires
        0 <= i < all.len(),
    ensures
        rrf::reciprocals(all, all[i].0.id, k).contains(k + all[i].1 + 1),
    decreases all.len(),
{
    let id = all[i].0.id;
    let out = rrf::reciprocals(all, id, k);
    if i < all.len() - 1 {
        let front = all.drop_last();
        lemma_reciprocal_of_rank(front, i, k);
        let before = rrf::reciprocals(front, id, k);
        let x = choose|x: int| 0 <= x < before.len() && before[x] == k + all[i].1 + 1;
        assert(out[x] == before[x]);
    } else {
        assert(out[out.len() - 1] == k + all[i].1 + 1);
    }
}

proof fn lemma_reciprocals_absent(all: Seq<(RrfView, nat)>, id: Seq<char>, k: nat)
    requires
        forall|i: int| 0 <= i < all.len() ==> (#[trigger] all[i]).0.id != id,
    ensures
        rrf::reciprocals(all, id, k) == Seq::<nat>::empty(),
    decreases all.len(),
{
    if all.len() > 0 {
        assert(all[all.len() - 1].0.id != id);
        let front = all.drop_last();
        assert forall|i: int| 0 <= i < front.len() implies (#[trigger] front[i]).0.id != id by {
            assert(all[i].0.id != id);
        }
        lemma_reciprocals_absent(front, id, k);
    }
}

/// Fusion rewards agreement: a further source adds `1 / (k + rank + 1)` to the score of each item
/// that it lists, which is greater then, and nothing to that of an item that it does not list. So
/// of two items with equal scores so far the one that the source lists comes out higher.
pub proof fn law_further_source_adds_score(
    lists: Seq<Seq<RrfView>>,
    source: Seq<RrfView>,
    rank: int,
    other: Seq<char>,
    k: nat,
)
    requires
        0 <= rank < source.len(),
    ensures
        ({
            let id = source[rank].id;
            let part = Seq::new(source.len(), |i: int| (source[i], i as nat));
            let before = rrf::ranked(lists);
            let after = rrf::ranked(lists.push(source));
            &&& rrf::reciprocals(after, id, k) == rrf::reciprocals(before, id, k)
                + rrf::reciprocals(part, id, k)
            &&& rrf::reciprocals(part, id, k).contains((k + rank + 1) as nat)
            &&& fractions::exceeds(
                rrf::fused_score(after, id, k),
                rrf::fused_score(before, id, k),
            )
            &&& !rrf::knows_id(source, other) ==> rrf::fused_score(after, other, k)
                == rrf::fused_score(before, other, k)
        }),
{
    let id = source[rank].id;
    let before = rrf::ranked(lists);
    let part = Seq::new(source.len(), |i: int| (source[i], i as nat));
    assert(lists.push(source).drop_last() =~= lists);
    lemma_reciprocals_concat(before, part, id, k);
    lemma_reciprocals_concat(before, part, other, k);
    assert(part[rank] == (source[rank], rank as nat));
    lemma_reciprocal_of_rank(part, rank, k);
    rrf::lemma_reciprocals_positive(before, id, k);
    rrf::lemma_reciprocals_positive(part, id, k);
    fractions::lemma_sum_grows(rrf::reciprocals(before, id, k), rrf::reciprocals(part, id, k));
    if !rrf::knows_id(source, other) {
        assert forall|i: int| 0 <= i < part.len() implies (#[trigger] part[i]).0.id != other by {
            assert(source[i].id != other);
        }
        lemma_reciprocals_absent(part, other, k);
        assert(rrf::reciprocals(before, other, k) + Seq::<nat>::empty() =~= rrf::reciprocals(
            before,
            other,
            k,
        ));
    }
}

/// The score of an item that leads every one of `n` lists is the `n`-fold reciprocal of `k + 1`.
pub proof fn law_same_item_accumulates(lists: Seq<Seq<RrfView>>, id: Seq<char>, k: nat)
    requires
        forall|i: int|
            0 <= i < lists.len() ==> (#[trigger] lists[i]).len() == 1 && lists[i][0].id == id,
    ensures
        rrf::reciprocals(rrf::ranked(lists), id, k) == Seq::new(lists.len(), |i: int| k + 1),
    decreases lists.len(),
{
    if lists.len() > 0 {
        let front = lists.drop_last();
        let last = lists.last();
        assert(lists[lists.len() - 1].len() == 1);
        law_same_item_accumulates(front, id, k);
        let part = Seq::new(last.len(), |i: int| (last[i], i as nat));
        lemma_reciprocals_concat(rrf::ranked(front), part, id, k);
        assert(part.drop_last() =~= Seq::empty());
        assert(part.last() == (last[0], 0nat));
        assert(rrf::reciprocals(part.drop_last(), id, k) =~= Seq::empty());
        assert(rrf::reciprocals(part, id, k) =~= seq![k + 1]);
        assert(Seq::new(front.len(), |i: int| k + 1) + seq![k + 1] =~= Seq::new(
            lists.len(),
            |i: int| k + 1,
        ));
    } else {
        assert(rrf::reciprocals(rrf::ranked(lists), id, k) =~= Seq::new(0, |i: int| k + 1));
    }
}

/// Whether an entry is the first with its identifier in reading order.
pub open spec fn is_first(all: Seq<(RrfView, nat)>, e: RrfView) -> bool {
    exists|i: int|
        0 <= i < all.len() && (#[trigger] all[i]).0 == e && forall|j: int|
            0 <= j < i ==> (#[trigger] all[j]).0.id != e.id
}

/// Each identifier is represented once, by its first entry in reading order.
pub proof fn law_first_entry_represents(all: Seq<(RrfView, nat)>)
    ensures
        forall|i: int, j: int|
            0 <= i < j < rrf::representatives(all).len() ==> (#[trigger] rrf::representatives(
                all,
            )[i]).id != (#[trigger] rrf::representatives(all)[j]).id,
        forall|i: int|
            0 <= i < all.len() ==> rrf::knows_id(
                rrf::representatives(all),
                (#[trigger] all[i]).0.id,
            ),
        forall|p: int|
            0 <= p < rrf::representatives(all).len() ==> is_first(
                all,
                #[trigger] rrf::representatives(all)[p],
            ),
    decreases all.len(),
{
    if all.len() > 0 {
        let front = all.drop_last();
        law_first_entry_represents(front);
        let before = rrf::representatives(front);
        let now = rrf::representatives(all);
        assert forall|i: int| 0 <= i < all.len() implies rrf::knows_id(
            now,
            (#[trigger] all[i]).0.id,
        ) by {
            if i < front.len() {
                assert(front[i] == all[i]);
                let x = choose|x: int|
                    0 <= x < before.len() && (#[trigger] before[x]).id == all[i].0.id;
                assert(now[x].id == all[i].0.id);
            } else if !rrf::knows_id(before, all[i].0.id) {
                assert(now[before.len() as int].id == all[i].0.id);
            }
        }
        assert forall|i: int, j: int| 0 <= i < j < now.len() implies (#[trigger] now[i]).id != (
        #[trigger] now[j]).id by {
            if j == before.len() {
                assert(now[i] == before[i]);
            } else {
                assert(now[i] == before[i] && now[j] == before[j]);
            }
        }
        assert forall|p: int| 0 <= p < now.len() implies is_first(all, #[trigger] now[p]) by {
            if p < before.len() {
                assert(now[p] == before[p]);
                assert(is_first(front, before[p]));
                let i = choose|i: int|
                    0 <= i < front.len() && (#[trigger] front[i]).0 == before[p] && forall|j: int|
                        0 <= j < i ==> (#[trigger] front[j]).0.id != before[p].id;
                assert(all[i].0 == now[p]);
                assert forall|j: int| 0 <= j < i implies (#[trigger] all[j]).0.id != now[p].id by {
                    assert(front[j].0.id != before[p].id);
                }
            } else {
                let last = all.len() - 1;
                assert(all[last].0 == now[p]);
                assert forall|j: int| 0 <= j < last implies (#[trigger] all[j]).0.id != now[p].id by {
                    assert(front[j] == all[j]);
                    assert(rrf::knows_id(before, front[j].0.id));
                }
            }
        }
    }
}

/// A merge gives as many entries as there are identifiers, at most `limit`. Each identifier comes
/// once, by its first entry and with its fused score; no entry comes before one with a higher
/// score, and no identifier that is left out has a higher score than one that is kept.
pub proof fn law_merge_ranks_by_score(lists: Seq<Seq<RrfView>>, limit: nat, k: nat)
    ensures
        ({
            let all = rrf::ranked(lists);
            let firsts = rrf::representatives(all);
            let out = rrf::merged(lists, limit, k);
            &&& out.len() == if firsts.len() <= limit { firsts.len() } else { limit }
            &&& forall|i: int|
                0 <= i < out.len() ==> exists|p: int|
                    0 <= p < firsts.len() && #[trigger] out[i] == rrf::with_fused_score(
                        #[trigger] firsts[p],
                        all,
                        k,
                    )
            &&& forall|i: int, j: int|
                0 <= i < j < out.len() ==> (#[trigger] out[i]).id != (#[trigger] out[j]).id
                    && !fractions::exceeds(
                    rrf::fused_score(all, out[j].id, k),
                    rrf::fused_score(all, out[i].id, k),
                )
            &&& forall|p: int, i: int|
                0 <= p < firsts.len() && 0 <= i < out.len() && !rrf::knows_id(
                    out,
                    (#[trigger] firsts[p]).id,
                ) ==> !fractions::exceeds(
                    rrf::fused_score(all, firsts[p].id, k),
                    rrf::fused_score(all, (#[trigger] out[i]).id, k),
                )
        }),
{
    let all = rrf::ranked(lists);
    let firsts = rrf::representatives(all);
    let scores = firsts.map_values(|e: RrfView| rrf::fused_score(all, e.id, k));
    let before = ordering::greater_fraction(scores);
    assert forall|i: int| 0 <= i < scores.len() implies (#[trigger] scores[i]).den > 0 by {
        rrf::lemma_reciprocals_positive(all, firsts[i].id, k);
    }
    ordering::law_greater_fraction_is_an_order(scores);
    ordering::law_ordered(firsts.len(), firsts.len(), before);
    ordering::lemma_ordered_range(firsts.len(), before);
    let order = ordering::ordered(firsts.len(), before);
    let out = rrf::merged(lists, limit, k);
    law_first_entry_represents(all);
    assert forall|i: int| 0 <= i < out.len() implies (#[trigger] out[i]).id == firsts[order[i]].id
        && out[i] == rrf::with_fused_score(firsts[order[i]], all, k) by {}
    assert forall|i: int, j: int| 0 <= i < j < out.len() implies (#[trigger] out[i]).id != (
    #[trigger] out[j]).id && !fractions::exceeds(
        rrf::fused_score(all, out[j].id, k),
        rrf::fused_score(all, out[i].id, k),
    ) by {
        let a = order[i];
        let b = order[j];
        assert(before(a, b));
        assert(a != b);
        if a < b {
            assert(firsts[a].id != firsts[b].id);
        } else {
            assert(firsts[b].id != firsts[a].id);
        }
        assert(scores[a] == rrf::fused_score(all, out[i].id, k));
        assert(scores[b] == rrf::fused_score(all, out[j].id, k));
    }
    assert forall|p: int, i: int|
        0 <= p < firsts.len() && 0 <= i < out.len() && !rrf::knows_id(
            out,
            (#[trigger] firsts[p]).id,
        ) implies !fractions::exceeds(
        rrf::fused_score(all, firsts[p].id, k),
        rrf::fused_score(all, (#[trigger] out[i]).id, k),
    ) by {
        assert(order.contains(p));
        let x = choose|x: int| 0 <= x < order.len() && order[x] == p;
        if x < out.len() {
            assert(out[x].id == firsts[p].id);
        }
        assert(before(order[i], order[x]));
        assert(scores[order[i]] == rrf::fused_score(all, out[i].id, k));
        assert(scores[p] == rrf::fused_score(all, firsts[p].id, k));
    }
}

proof fn lemma_order_of_descending(n: nat, scores: Seq<Fraction>)
    requires
        n <= scores.len(),
        forall|i: int, j: int|
            0 <= i < j < scores.len() ==> fractions::exceeds(
                #[trigger] scores[i],
                #[trigger] scores[j],
            ),
    ensures
        ordering::ordered(n, ordering::greater_fraction(scores)) == Seq::new(n, |i: int| i),
    decreases n,
{
    let before = ordering::greater_fraction(scores);
    if n > 0 {
        let m = (n - 1) as nat;
        lemma_order_of_descending(m, scores);
        let list = Seq::new(m, |i: int| i);
        if m > 0 {
            assert(fractions::exceeds(scores[m - 1], scores[m as int]));
            assert(before(list.last(), m as int));
        }
        assert(list.push(m as int) =~= Seq::new(n, |i: int| i));
    } else {
        assert(ordering::ordered(0, before) =~= Seq::new(0, |i: int| i));
    }
}

proof fn lemma_single_list(list: Seq<RrfView>, n: int, k: nat)
    requires
        0 <= n <= list.len(),
        forall|i: int, j: int|
            0 <= i < j < list.len() ==> (#[trigger] list[i]).id != (#[trigger] list[j]).id,
    ensures
        ({
            let all = Seq::new(n as nat, |i: int| (list[i], i as nat));
            &&& rrf::representatives(all) == list.take(n)
            &&& forall|i: int|
                0 <= i < n ==> rrf::reciprocals(all, (#[trigger] list[i]).id, k) == seq![
                    (k + i + 1) as nat,
                ]
        }),
    decreases n,
{
    let all = Seq::new(n as nat, |i: int| (list[i], i as nat));
    if n > 0 {
        let front = Seq::new((n - 1) as nat, |i: int| (list[i], i as nat));
        assert(all.drop_last() =~= front);
        lemma_single_list(list, n - 1, k);
        let before = list.take(n - 1);
        assert(!rrf::knows_id(before, list[n - 1].id)) by {
            if rrf::knows_id(before, list[n - 1].id) {
                let x = choose|x: int|
                    0 <= x < before.len() && (#[trigger] before[x]).id == list[n - 1].id;
                assert(list[x].id != list[n - 1].id);
            }
        }
        assert(before.push(list[n - 1]) =~= list.take(n));
        assert forall|i: int| 0 <= i < n implies rrf::reciprocals(all, (#[trigger] list[i]).id, k)
            == seq![(k + i + 1) as nat] by {
            if i == n - 1 {
                assert forall|x: int| 0 <= x < front.len() implies (#[trigger] front[x]).0.id
                    != list[i].id by {
                    assert(list[x].id != list[i].id);
                }
                lemma_reciprocals_absent(front, list[i].id, k);
                assert(all.last() == (list[i], i as nat));
                assert(Seq::<nat>::empty().push((k + i + 1) as nat) =~= seq![(k + i + 1) as nat]);
            } else {
                assert(list[i].id != list[n - 1].id);
            }
        }
    } else {
        assert(rrf::representatives(all) =~= list.take(0));
    }
}

/// Of single reciprocals that of the smaller number is greater.
proof fn lemma_reciprocal_falls(a: nat, b: nat)
    requires
        0 < a < b,
    ensures
        fractions::exceeds(fractions::sum_of(seq![a]), fractions::sum_of(seq![b])),
{
    lemma_single_reciprocal(a);
    lemma_single_reciprocal(b);
}

proof fn lemma_single_reciprocal(d: nat)
    ensures
        fractions::sum_of(seq![d]) == (Fraction { num: 1, den: d }),
{
    assert(seq![d].drop_last() =~= Seq::<nat>::empty());
    assert(seq![d].last() == d);
    assert(fractions::sum_of(seq![d].drop_last()) == fractions::zero());
    assert(fractions::sum_of(seq![d]) == fractions::plus_reciprocal(fractions::zero(), d));
    assert(0 * d + 1 == 1 && 1 * d == d) by (nonlinear_arith);
}

/// Merging a single list of different items keeps its order, and gives its first `limit` items,
/// each with the score `1 / (k + rank + 1)`.
pub proof fn law_single_source_keeps_order(list: Seq<RrfView>, limit: nat, k: nat)
    requires
        forall|i: int, j: int|
            0 <= i < j < list.len() ==> (#[trigger] list[i]).id != (#[trigger] list[j]).id,
    ensures
        ({
            let out = rrf::merged(seq![list], limit, k);
            &&& out.len() == lists::limited(list, limit).len()
            &&& forall|i: int|
                0 <= i < out.len() ==> #[trigger] out[i] == (RrfView {
                    rrf_score: RrfScoreView::Fused(seq![(k + i + 1) as nat]),
                    ..list[i]
                })
        }),
{
    let all = rrf::ranked(seq![list]);
    let part = Seq::new(list.len(), |i: int| (list[i], i as nat));
    assert(seq![list].drop_last() =~= Seq::empty());
    assert(rrf::ranked(Seq::<Seq<RrfView>>::empty()) =~= Seq::empty());
    assert(all =~= part);
    lemma_single_list(list, list.len() as int, k);
    assert(list.take(list.len() as int) =~= list);
    let scores = list.map_values(|e: RrfView| rrf::fused_score(all, e.id, k));
    assert forall|i: int, j: int| 0 <= i < j < scores.len() implies fractions::exceeds(
        #[trigger] scores[i],
        #[trigger] scores[j],
    ) by {
        lemma_reciprocal_falls((k + i + 1) as nat, (k + j + 1) as nat);
        assert(scores[i] == rrf::fused_score(all, list[i].id, k));
        assert(scores[j] == rrf::fused_score(all, list[j].id, k));
    }
    lemma_order_of_descending(list.len(), scores);
    let out = rrf::merged(seq![list], limit, k);
    assert forall|i: int| 0 <= i < out.len() implies #[trigger] out[i] == (RrfView {
        rrf_score: RrfScoreView::Fused(seq![(k + i + 1) as nat]),
        ..list[i]
    }) by {
        assert(rrf::reciprocals(all, list[i].id, k) == seq![(k + i + 1) as nat]);
    }
}

// ---------------------------------------------------------------------------
// Stages
// ---------------------------------------------------------------------------

/// A recall that the cache can answer asks no backend, as long as the cache is tried before the
/// first search.
pub proof fn law_cache_answers_first(stages: Seq<Seq<char>>, from: int, at: int)
    requires
        0 <= from <= at < stages.len(),
        stages[at] == "cache"@,
        forall|i: int|
            from <= i < at ==> #[trigger] stages[i] != "fts"@ && stages[i] != "vector"@,
    ensures
        pipeline::scan(stages, from, true) is Cached,
    decreases at - from,
{
    if from < at && stages[from] != "cache"@ {
        law_cache_answers_first(stages, from + 1, at);
    }
}

/// A recall goes through each stage once: the backend is asked at a stage that was not tried
/// before, so at most once for each stage.
pub proof fn law_stages_are_tried_once(stages: Seq<Seq<char>>, from: int, hit: bool)
    requires
        0 <= from <= stages.len(),
    ensures
        pipeline::scan(stages, from, hit) matches pipeline::Scan::QueryBackend { next } ==> from
            < next <= stages.len(),
        !hit ==> !(pipeline::scan(stages, from, hit) is Cached),
    decreases stages.len() - from,
{
    if from < stages.len() {
        law_stages_are_tried_once(stages, from + 1, hit);
    }
}

// ---------------------------------------------------------------------------
// Cached recalls
// ---------------------------------------------------------------------------

/// A recall over all sources is cached: `first` is a pipeline, and `second` the same one after a
/// recall was answered with `entries` at `now` and after any further uses of its cache that do not
/// replace that answer and have nothing to make room for. Begun again before its time is up the
/// recall has the same answer, so it asks no source; an empty answer is cached too.
pub proof fn law_second_rrf_recall_is_cached(
    first: RetrievalPipeline,
    second: RetrievalPipeline,
    query: Seq<char>,
    limit: nat,
    session: Option<Seq<char>>,
    entries: Vec<RrfEntry>,
    now: nat,
    uses: Seq<cache::Use<Vec<RrfEntry>>>,
    later: nat,
)
    requires
        first.wf(),
        second.same_but_caches(first),
        ({
            let key = first.rrf_key(query, limit, session);
            let max = first.config.cache_max_entries as nat;
            let ttl = first.config.cache_ttl as nat;
            let stored = cache::stored(first.rrf_cache@, max, key, entries, now);
            &&& cache::leave_alone(stored, max, ttl, uses, key)
            &&& second.rrf_cache@ == cache::after_uses(stored, max, ttl, uses)
            &&& now <= later < now + ttl
        }),
    ensures
        second.rrf_answer(query, limit, session, later) == Some(entries),
{
    let key = first.rrf_key(query, limit, session);
    let max = first.config.cache_max_entries as nat;
    let ttl = first.config.cache_ttl as nat;
    let stored = cache::stored(first.rrf_cache@, max, key, entries, now);
    cache::law_stored_is_answered(first.rrf_cache@, max, key, entries, now, later, ttl);
    cache::lemma_stored_keeps_unique(first.rrf_cache@, max, key, entries, now);
    cache::law_answers_last(stored, max, ttl, uses, key, later);
}

// ---------------------------------------------------------------------------
// Cache keys
// ---------------------------------------------------------------------------

proof fn lemma_cancel(a: Seq<char>, x: Seq<char>, y: Seq<char>, b: Seq<char>)
    requires
        a + x + b == a + y + b,
    ensures
        x == y,
{
    let s = a + x + b;
    let t = a + y + b;
    assert(s.len() == t.len());
    assert forall|i: int| 0 <= i < x.len() implies x[i] == y[i] by {
        assert(s[a.len() + i] == x[i]);
        assert(t[a.len() + i] == y[i]);
    }
    assert(x =~= y);
}

proof fn lemma_key_query(
    a: Seq<char>,
    b: Seq<char>,
    limit: nat,
    session: Seq<char>,
    namespace: Seq<char>,
    fp: nat,
)
    requires
        pipeline::key_text(a, limit, session, namespace, fp) == pipeline::key_text(
            b,
            limit,
            session,
            namespace,
            fp,
        ),
    ensures
        a == b,
{
    let e = Seq::<char>::empty();
    let rest = ":"@ + render::decimal(limit) + ":"@ + session + ":"@ + namespace + ":"@
        + render::decimal(fp);
    assert(pipeline::key_text(a, limit, session, namespace, fp) =~= e + a + rest);
    assert(pipeline::key_text(b, limit, session, namespace, fp) =~= e + b + rest);
    lemma_cancel(e, a, b, rest);
}

proof fn lemma_key_limit(
    query: Seq<char>,
    a: nat,
    b: nat,
    session: Seq<char>,
    namespace: Seq<char>,
    fp: nat,
)
    requires
        pipeline::key_text(query, a, session, namespace, fp) == pipeline::key_text(
            query,
            b,
            session,
            namespace,
            fp,
        ),
    ensures
        a == b,
{
    let head = query + ":"@;
    let rest = ":"@ + session + ":"@ + namespace + ":"@ + render::decimal(fp);
    assert(pipeline::key_text(query, a, session, namespace, fp) =~= head + render::decimal(a)
        + rest);
    assert(pipeline::key_text(query, b, session, namespace, fp) =~= head + render::decimal(b)
        + rest);
    lemma_cancel(head, render::decimal(a), render::decimal(b), rest);
    render::lemma_decimal_value(a);
    render::lemma_decimal_value(b);
}

proof fn lemma_key_session(
    query: Seq<char>,
    limit: nat,
    a: Seq<char>,
    b: Seq<char>,
    namespace: Seq<char>,
    fp: nat,
)
    requires
        pipeline::key_text(query, limit, a, namespace, fp) == pipeline::key_text(
            query,
            limit,
            b,
            namespace,
            fp,
        ),
    ensures
        a == b,
{
    let head = query + ":"@ + render::decimal(limit) + ":"@;
    let rest = ":"@ + namespace + ":"@ + render::decimal(fp);
    assert(pipeline::key_text(query, limit, a, namespace, fp) =~= head + a + rest);
    assert(pipeline::key_text(query, limit, b, namespace, fp) =~= head + b + rest);
    lemma_cancel(head, a, b, rest);
}

proof fn lemma_key_namespace(
    query: Seq<char>,
    limit: nat,
    session: Seq<char>,
    a: Seq<char>,
    b: Seq<char>,
    fp: nat,
)
    requires
        pipeline::key_text(query, limit, session, a, fp) == pipeline::key_text(
            query,
            limit,
            session,
            b,
            fp,
        ),
    ensures
        a == b,
{
    let head = query + ":"@ + render::decimal(limit) + ":"@ + session + ":"@;
    let rest = ":"@ + render::decimal(fp);
    assert(pipeline::key_text(query, limit, session, a, fp) =~= head + a + rest);
    assert(pipeline::key_text(query, limit, session, b, fp) =~= head + b + rest);
    lemma_cancel(head, a, b, rest);
}

proof fn lemma_key_fingerprint(
    query: Seq<char>,
    limit: nat,
    session: Seq<char>,
    namespace: Seq<char>,
    a: nat,
    b: nat,
)
    requires
        pipeline::key_text(query, limit, session, namespace, a) == pipeline::key_text(
            query,
            limit,
            session,
            namespace,
            b,
        ),
    ensures
        a == b,
{
    let e = Seq::<char>::empty();
    let head = query + ":"@ + render::decimal(limit) + ":"@ + session + ":"@ + namespace + ":"@;
    assert(pipeline::key_text(query, limit, session, namespace, a) =~= head + render::decimal(a)
        + e);
    assert(pipeline::key_text(query, limit, session, namespace, b) =~= head + render::decimal(b)
        + e);
    lemma_cancel(head, render::decimal(a), render::decimal(b), e);
    render::lemma_decimal_value(a);
    render::lemma_decimal_value(b);
}

/// A cache key includes all parameters: changing any one of them changes the key.
pub proof fn law_cache_key_tells_parameters_apart(
    query: Seq<char>,
    limit: nat,
    session: Seq<char>,
    namespace: Seq<char>,
    fp: nat,
    other_query: Seq<char>,
    other_limit: nat,
    other_session: Seq<char>,
    other_namespace: Seq<char>,
    other_fp: nat,
)
    ensures
        pipeline::key_text(query, limit, session, namespace, fp) == pipeline::key_text(
            other_query,
            limit,
            session,
            namespace,
            fp,
        ) ==> query == other_query,
        pipeline::key_text(query, limit, session, namespace, fp) == pipeline::key_text(
            query,
            other_limit,
            session,
            namespace,
            fp,
        ) ==> limit == other_limit,
        pipeline::key_text(query, limit, session, namespace, fp) == pipeline::key_text(
            query,
            limit,
            other_session,
            namespace,
            fp,
        ) ==> session == other_session,
        pipeline::key_text(query, limit, session, namespace, fp) == pipeline::key_text(
            query,
            limit,
            session,
            other_namespace,
            fp,
        ) ==> namespace == other_namespace,
        pipeline::key_text(query, limit, session, namespace, fp) == pipeline::key_text(
            query,
            limit,
            session,
            namespace,
            other_fp,
        ) ==> fp == other_fp,
{
    let key = pipeline::key_text(query, limit, session, namespace, fp);
    if key == pipeline::key_text(other_query, limit, session, namespace, fp) {
        lemma_key_query(query, other_query, limit, session, namespace, fp);
    }
    if key == pipeline::key_text(query, other_limit, session, namespace, fp) {
        lemma_key_limit(query, limit, other_limit, session, namespace, fp);
    }
    if key == pipeline::key_text(query, limit, other_session, namespace, fp) {
        lemma_key_session(query, limit, session, other_session, namespace, fp);
    }
    if key == pipeline::key_text(query, limit, session, other_namespace, fp) {
        lemma_key_namespace(query, limit, session, namespace, other_namespace, fp);
    }
    if key == pipeline::key_text(query, limit, session, namespace, other_fp) {
        lemma_key_fingerprint(query, limit, session, namespace, fp, other_fp);
    }
}

} // verus!
