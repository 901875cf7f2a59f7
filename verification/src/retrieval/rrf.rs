//! Reciprocal Rank Fusion.
use crate::fractions;
use crate::fractions::Fraction;
use crate::fractions::Ratio;
use crate::lists;
use crate::ordering;
use crate::scores;
use crate::scores::RrfScore;
use crate::scores::RrfScoreView;
use crate::scores::Score;
use crate::text;
use vstd::prelude::*;

verus! {

/// Which storage layer an `RrfEntry` came from.
#[derive(Debug, Clone, Copy, PartialEq, Eq, Structural)]
pub enum RrfSource {
    Memory,
    Summary,
    KnowledgeNode,
}

/// A single result entry in the unified RRF result set.
#[derive(Debug)]
pub struct RrfEntry {
    /// Stable identifier within its source (memory id, summary id, or node id).
    pub id: String,
    pub content: String,
    pub source: RrfSource,
    /// Score from the originating search (BM25, cosine, etc.). `None` if unavailable.
    pub original_score: Option<Score>,
    /// RRF combined score, filled by `rrf_merge()`.
    pub rrf_score: RrfScore,
    /// Node type string when `source == KnowledgeNode` (e.g. "person", "project").
    pub node_type: Option<String>,
    /// Memory key when `source == Memory`.
    pub key: Option<String>,
    pub created_at: String,
}

/// What an entry holds.
pub ghost struct RrfView {
    pub id: Seq<char>,
    pub content: Seq<char>,
    pub source: RrfSource,
    pub original_score: Option<Score>,
    pub rrf_score: RrfScoreView,
    pub node_type: Option<Seq<char>>,
    pub key: Option<Seq<char>>,
    pub created_at: Seq<char>,
}

impl DeepView for RrfEntry {
    type V = RrfView;

    open spec fn deep_view(&self) -> RrfView {
        RrfView {
            id: self.id@,
            content: self.content@,
            source: self.source,
            original_score: self.original_score,
            rrf_score: self.rrf_score.deep_view(),
            node_type: self.node_type.deep_view(),
            key: self.key.deep_view(),
            created_at: self.created_at@,
        }
    }
}

impl Clone for RrfEntry {
    fn clone(&self) -> (r: RrfEntry)
        ensures
            r.deep_view() == self.deep_view(),
    {
        RrfEntry {
            id: self.id.clone(),
            content: self.content.clone(),
            source: self.source,
            original_score: self.original_score,
            rrf_score: self.rrf_score.clone(),
            node_type: text::copy_option(&self.node_type),
            key: text::copy_option(&self.key),
            created_at: self.created_at.clone(),
        }
    }
}

/// A copy of a list of entries.
pub fn copy_entries(list: &Vec<RrfEntry>) -> (r: Vec<RrfEntry>)
    ensures
        r.deep_view() == list.deep_view(),
{
    let ghost all = list.deep_view();
    let mut out: Vec<RrfEntry> = Vec::new();
    let mut i: usize = 0;
    while i < list.len()
        invariant
            i <= list@.len(),
            all == list.deep_view(),
            out.deep_view() == all.take(i as int),
        decreases list@.len() - i,
    {
        let ghost before = out.deep_view();
        let e = list[i].clone();
        let ghost made = e.deep_view();
        out.push(e);
        assert(out.deep_view() =~= before.push(made));
        i += 1;
        assert(out.deep_view() =~= all.take(i as int));
    }
    assert(all.take(all.len() as int) =~= all);
    out
}

// ---------------------------------------------------------------------------
// Fusion
// ---------------------------------------------------------------------------

/// The entries of the lists in reading order, each with its rank in its list.
pub open spec fn ranked(lists: Seq<Seq<RrfView>>) -> Seq<(RrfView, nat)>
    decreases lists.len(),
{
    if lists.len() == 0 {
        Seq::empty()
    } else {
        ranked(lists.drop_last()) + Seq::new(
            lists.last().len(),
            |i: int| (lists.last()[i], i as nat),
        )
    }
}

/// What the ranks of an identifier contribute, in reading order: each `1 / (k + rank + 1)`, by its
/// denominator.
pub open spec fn reciprocals(all: Seq<(RrfView, nat)>, id: Seq<char>, k: nat) -> Seq<nat>
    decreases all.len(),
{
    if all.len() == 0 {
        Seq::empty()
    } else if all.last().0.id == id {
        reciprocals(all.drop_last(), id, k).push(k + all.last().1 + 1)
    } else {
        reciprocals(all.drop_last(), id, k)
    }
}

/// The fused score of an identifier: what its ranks contribute, added up.
pub open spec fn fused_score(all: Seq<(RrfView, nat)>, id: Seq<char>, k: nat) -> Fraction {
    fractions::sum_of(reciprocals(all, id, k))
}

/// Whether an identifier occurs among entries.
pub open spec fn knows_id(entries: Seq<RrfView>, id: Seq<char>) -> bool {
    exists|i: int| 0 <= i < entries.len() && (#[trigger] entries[i]).id == id
}

/// The first entry of each identifier, in reading order.
pub open spec fn representatives(all: Seq<(RrfView, nat)>) -> Seq<RrfView>
    decreases all.len(),
{
    if all.len() == 0 {
        Seq::empty()
    } else {
        let before = representatives(all.drop_last());
        if knows_id(before, all.last().0.id) {
            before
        } else {
            before.push(all.last().0)
        }
    }
}

/// The merged list: one entry for each identifier with its fused score, the highest first, at most
/// `limit` of them. Of equal scores the one read first comes first.
pub open spec fn merged(lists: Seq<Seq<RrfView>>, limit: nat, k: nat) -> Seq<RrfView> {
    let all = ranked(lists);
    let firsts = representatives(all);
    let scores = firsts.map_values(|e: RrfView| fused_score(all, e.id, k));
    lists::limited(
        ordering::ordered(firsts.len(), ordering::greater_fraction(scores)).map_values(
            |i: int| with_fused_score(firsts[i], all, k),
        ),
        limit,
    )
}

/// An entry with the fused score of its identifier.
pub open spec fn with_fused_score(e: RrfView, all: Seq<(RrfView, nat)>, k: nat) -> RrfView {
    RrfView { rrf_score: RrfScoreView::Fused(reciprocals(all, e.id, k)), ..e }
}

/// What the lists hold.
pub open spec fn lists_view(lists: Seq<Vec<RrfEntry>>) -> Seq<Seq<RrfView>> {
    lists.map_values(|l: Vec<RrfEntry>| l.deep_view())
}

/// What ranked entries hold.
pub open spec fn ranked_view(all: Seq<(RrfEntry, usize)>) -> Seq<(RrfView, nat)> {
    all.map_values(|p: (RrfEntry, usize)| (p.0.deep_view(), p.1 as nat))
}

/// What ranks contribute is positive.
pub proof fn lemma_reciprocals_positive(all: Seq<(RrfView, nat)>, id: Seq<char>, k: nat)
    ensures
        fractions::all_positive(reciprocals(all, id, k)),
        fused_score(all, id, k).den > 0,
    decreases all.len(),
{
    if all.len() > 0 {
        lemma_reciprocals_positive(all.drop_last(), id, k);
    }
    fractions::lemma_sum_is_fraction(reciprocals(all, id, k));
}

/// The entries of the lists in reading order, each with its rank in its list.
fn read_ranked(lists: &Vec<Vec<RrfEntry>>) -> (r: Vec<(RrfEntry, usize)>)
    ensures
        ranked_view(r@) == ranked(lists_view(lists@)),
{
    let ghost all = lists_view(lists@);
    let mut out: Vec<(RrfEntry, usize)> = Vec::new();
    let mut i: usize = 0;
    proof {
        assert(all.take(0) =~= Seq::empty());
        assert(ranked_view(out@) =~= Seq::empty());
    }
    while i < lists.len()
        invariant
            i <= lists@.len(),
            all == lists_view(lists@),
            ranked_view(out@) == ranked(all.take(i as int)),
        decreases lists@.len() - i,
    {
        let ghost before = ranked_view(out@);
        let ghost list = all[i as int];
        let ghost whole = Seq::new(list.len(), |j: int| (list[j], j as nat));
        proof {
            assert(all.take(i + 1).drop_last() =~= all.take(i as int));
            assert(all.take(i + 1).last() == list);
            assert(before + whole.take(0) =~= before);
        }
        let mut j: usize = 0;
        while j < lists[i].len()
            invariant
                i < lists@.len(),
                j <= lists@[i as int]@.len(),
                list == lists@[i as int].deep_view(),
                whole == Seq::new(list.len(), |j: int| (list[j], j as nat)),
                ranked_view(out@) == before + whole.take(j as int),
            decreases lists@[i as int]@.len() - j,
        {
            let ghost was = ranked_view(out@);
            let e = lists[i][j].clone();
            let ghost made = (e.deep_view(), j as nat);
            assert(made == whole[j as int]);
            out.push((e, j));
            proof {
                assert(ranked_view(out@) =~= was.push(made));
                assert((before + whole.take(j as int)).push(made) =~= before + whole.take(j + 1));
            }
            j += 1;
        }
        assert(whole.take(whole.len() as int) =~= whole);
        i += 1;
    }
    assert(all.take(all.len() as int) =~= all);
    out
}

/// What the ranks of an identifier contribute, by their denominators.
fn read_reciprocals(all: &Vec<(RrfEntry, usize)>, id: &str, k: usize) -> (r: Vec<u128>)
    ensures
        fractions::as_naturals(r@) == reciprocals(ranked_view(all@), id@, k as nat),
{
    let ghost view = ranked_view(all@);
    let mut out: Vec<u128> = Vec::new();
    let mut i: usize = 0;
    proof {
        assert(view.take(0) =~= Seq::empty());
        assert(fractions::as_naturals(out@) =~= Seq::empty());
    }
    while i < all.len()
        invariant
            i <= all@.len(),
            view == ranked_view(all@),
            fractions::as_naturals(out@) == reciprocals(view.take(i as int), id@, k as nat),
        decreases all@.len() - i,
    {
        proof {
            assert(view.take(i + 1).drop_last() =~= view.take(i as int));
            assert(view.take(i + 1).last() == (all@[i as int].0.deep_view(), all@[i as int].1 as nat));
        }
        if text::same(all[i].0.id.as_str(), id) {
            let ghost before = out@;
            let d: u128 = k as u128 + all[i].1 as u128 + 1;
            out.push(d);
            assert(fractions::as_naturals(out@) =~= fractions::as_naturals(before).push(d as nat));
        }
        i += 1;
    }
    assert(view.take(view.len() as int) =~= view);
    out
}

/// The first entry of each identifier, in reading order.
fn first_entries(all: &Vec<(RrfEntry, usize)>) -> (r: Vec<RrfEntry>)
    ensures
        r.deep_view() == representatives(ranked_view(all@)),
{
    let ghost view = ranked_view(all@);
    let mut out: Vec<RrfEntry> = Vec::new();
    let mut i: usize = 0;
    proof {
        assert(view.take(0) =~= Seq::empty());
        assert(out.deep_view() =~= Seq::empty());
    }
    while i < all.len()
        invariant
            i <= all@.len(),
            view == ranked_view(all@),
            out.deep_view() == representatives(view.take(i as int)),
        decreases all@.len() - i,
    {
        let ghost before = out.deep_view();
        proof {
            assert(view.take(i + 1).drop_last() =~= view.take(i as int));
            assert(view.take(i + 1).last() == (all@[i as int].0.deep_view(), all@[i as int].1 as nat));
        }
        let mut j: usize = 0;
        while j < out.len() && !text::same(out[j].id.as_str(), all[i].0.id.as_str())
            invariant
                j <= out@.len(),
                i < all@.len(),
                before == out.deep_view(),
                forall|x: int| 0 <= x < j ==> (#[trigger] before[x]).id != all@[i as int].0.id@,
            decreases out@.len() - j,
        {
            assert(before[j as int].id == out@[j as int].id@);
            j += 1;
        }
        if j == out.len() {
            let e = all[i].0.clone();
            let ghost made = e.deep_view();
            out.push(e);
            assert(out.deep_view() =~= before.push(made));
        } else {
            assert(before[j as int].id == out@[j as int].id@);
        }
        i += 1;
    }
    assert(view.take(view.len() as int) =~= view);
    out
}

/// Reciprocal Rank Fusion across multiple ranked result lists.
///
/// `ranked_lists`: each inner `Vec<RrfEntry>` is already sorted best-first.
/// Items are identified by their `id` field; duplicates (same id across sources) accumulate score.
/// `k = 60` is the standard constant from the original paper (Cormack et al. 2009).
pub fn rrf_merge(ranked_lists: Vec<Vec<RrfEntry>>, limit: usize, k: usize) -> (r: Vec<RrfEntry>)
    ensures
        r.deep_view() == merged(lists_view(ranked_lists@), limit as nat, k as nat),
{
    let all = read_ranked(&ranked_lists);
    let ghost view = ranked(lists_view(ranked_lists@));
    let firsts = first_entries(&all);
    let ghost chosen = representatives(view);
    let ghost scores = chosen.map_values(|e: RrfView| fused_score(view, e.id, k as nat));
    let mut terms: Vec<Vec<u128>> = Vec::new();
    let mut keys: Vec<Ratio> = Vec::new();
    let mut i: usize = 0;
    while i < firsts.len()
        invariant
            i <= firsts@.len(),
            view == ranked_view(all@),
            chosen == firsts.deep_view(),
            scores == chosen.map_values(|e: RrfView| fused_score(view, e.id, k as nat)),
            terms@.len() == i,
            forall|x: int|
                0 <= x < i ==> fractions::as_naturals((#[trigger] terms@[x])@) == reciprocals(
                    view,
                    chosen[x].id,
                    k as nat,
                ),
            ordering::as_fractions(keys@) == scores.take(i as int),
        decreases firsts@.len() - i,
    {
        let ghost before = ordering::as_fractions(keys@);
        assert(chosen[i as int].id == firsts@[i as int].id@);
        let ds = read_reciprocals(&all, firsts[i].id.as_str(), k);
        let key = Ratio::sum_of_reciprocals(&ds);
        assert(key@ == scores[i as int]);
        terms.push(ds);
        keys.push(key);
        assert(ordering::as_fractions(keys@) =~= before.push(scores[i as int]));
        i += 1;
        assert(ordering::as_fractions(keys@) =~= scores.take(i as int));
    }
    assert(scores.take(scores.len() as int) =~= scores);
    let order = ordering::greatest_first(&keys);
    let ghost sorted = ordering::ordered(
        chosen.len(),
        ordering::greater_fraction(scores),
    ).map_values(|i: int| with_fused_score(chosen[i], view, k as nat));
    let ghost whole = lists::limited(sorted, limit as nat);
    let n: usize = if order.len() <= limit { order.len() } else { limit };
    let mut out: Vec<RrfEntry> = Vec::new();
    let mut j: usize = 0;
    proof {
        assert(ordering::as_fractions(keys@).len() == keys@.len());
        assert(ordering::as_positions(order@).len() == order@.len());
        assert(sorted.len() == order@.len());
    }
    while j < n
        invariant
            j <= n <= order@.len(),
            n == whole.len(),
            whole == lists::limited(sorted, limit as nat),
            sorted.len() == order@.len(),
            order@.len() == firsts@.len() == terms@.len(),
            chosen == firsts.deep_view(),
            ordering::as_positions(order@) == ordering::ordered(
                chosen.len(),
                ordering::greater_fraction(scores),
            ),
            sorted == ordering::ordered(
                chosen.len(),
                ordering::greater_fraction(scores),
            ).map_values(|i: int| with_fused_score(chosen[i], view, k as nat)),
            forall|x: int| 0 <= x < order@.len() ==> #[trigger] order@[x] < terms@.len(),
            forall|x: int|
                0 <= x < terms@.len() ==> fractions::as_naturals((#[trigger] terms@[x])@)
                    == reciprocals(view, chosen[x].id, k as nat),
            out.deep_view() == whole.take(j as int),
        decreases n - j,
    {
        let ghost before = out.deep_view();
        let p: usize = order[j];
        let mut e = firsts[p].clone();
        e.rrf_score = RrfScore::Fused(scores::copy_numbers(&terms[p]));
        let ghost made = e.deep_view();
        proof {
            assert(ordering::as_positions(order@)[j as int] == p);
            assert(chosen[p as int] == firsts@[p as int].deep_view());
            assert(made == sorted[j as int]);
        }
        out.push(e);
        assert(out.deep_view() =~= before.push(made));
        j += 1;
        assert(out.deep_view() =~= whole.take(j as int));
    }
    assert(whole.take(whole.len() as int) =~= whole);
    out
}

/// Compute a source presence bitmask for cache key differentiation.
///
/// bit 0 = memory (always 1)
/// bit 1 = sqlite summaries
/// bit 2 = knowledge graph
pub fn source_fingerprint(sqlite: bool, knowledge: bool) -> (r: u8)
    ensures
        r == fingerprint(sqlite, knowledge),
{
    let mut r: u8 = 1;
    if sqlite {
        r += 2;
    }
    if knowledge {
        r += 4;
    }
    r
}

/// The source presence bitmask.
pub open spec fn fingerprint(sqlite: bool, knowledge: bool) -> u8 {
    (1 + (if sqlite { 2int } else { 0 }) + (if knowledge { 4int } else { 0 })) as u8
}

/// Different sets of sources have different fingerprints.
pub proof fn law_fingerprints_differ(a: bool, b: bool, c: bool, d: bool)
    requires
        fingerprint(a, b) == fingerprint(c, d),
    ensures
        a == c,
        b == d,
{
}

} // verus!
