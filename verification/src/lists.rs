//! Lists: filtering, limiting, tallying.
use crate::text;
use vstd::prelude::*;

verus! {

/// The first items of a list, at most `n` of them.
pub open spec fn limited<T>(s: Seq<T>, n: nat) -> Seq<T> {
    if s.len() <= n {
        s
    } else {
        s.take(n as int)
    }
}

/// One more item in front of a filter is kept or dropped.
pub proof fn lemma_filter_take<T>(s: Seq<T>, keep: spec_fn(T) -> bool, i: int)
    requires
        0 <= i < s.len(),
    ensures
        s.take(i + 1).filter(keep) == if keep(s[i]) {
            s.take(i).filter(keep).push(s[i])
        } else {
            s.take(i).filter(keep)
        },
{
    reveal(Seq::filter);
    assert(s.take(i + 1).drop_last() =~= s.take(i));
}

/// Nothing is kept of nothing.
pub proof fn lemma_filter_empty<T>(s: Seq<T>, keep: spec_fn(T) -> bool)
    ensures
        s.take(0).filter(keep) == Seq::<T>::empty(),
{
    reveal(Seq::filter);
    assert(s.take(0) =~= Seq::empty());
}

/// What a filter keeps of an ordered list is ordered.
pub proof fn lemma_filter_keeps_order<T>(
    s: Seq<T>,
    keep: spec_fn(T) -> bool,
    before: spec_fn(T, T) -> bool,
)
    requires
        forall|i: int, j: int| 0 <= i < j < s.len() ==> before(#[trigger] s[i], #[trigger] s[j]),
    ensures
        forall|i: int, j: int|
            0 <= i < j < s.filter(keep).len() ==> before(
                #[trigger] s.filter(keep)[i],
                #[trigger] s.filter(keep)[j],
            ),
    decreases s.len(),
{
    reveal(Seq::filter);
    if s.len() > 0 {
        let front = s.drop_last();
        assert forall|i: int, j: int| 0 <= i < j < front.len() implies before(
            #[trigger] front[i],
            #[trigger] front[j],
        ) by {
            assert(before(s[i], s[j]));
        }
        lemma_filter_keeps_order(front, keep, before);
        let kept = front.filter(keep);
        assert forall|i: int| 0 <= i < kept.len() implies before(#[trigger] kept[i], s.last()) by {
            assert(kept.contains(kept[i]));
            front.lemma_filter_contains_rev(keep, kept[i]);
            let k = choose|k: int| 0 <= k < front.len() && front[k] == kept[i];
            assert(before(s[k], s[s.len() - 1]));
        }
    }
}

// ---------------------------------------------------------------------------
// Tallies
// ---------------------------------------------------------------------------

/// The different items of a list, each where it first occurs.
pub open spec fn distinct(list: Seq<Seq<char>>) -> Seq<Seq<char>>
    decreases list.len(),
{
    if list.len() == 0 {
        Seq::empty()
    } else if distinct(list.drop_last()).contains(list.last()) {
        distinct(list.drop_last())
    } else {
        distinct(list.drop_last()).push(list.last())
    }
}

/// How often an item occurs in a list.
pub open spec fn occurrences(list: Seq<Seq<char>>, x: Seq<char>) -> nat
    decreases list.len(),
{
    if list.len() == 0 {
        0
    } else {
        occurrences(list.drop_last(), x) + if list.last() == x {
            1nat
        } else {
            0
        }
    }
}

/// The different items of a list with the number of their occurrences.
pub open spec fn tallied(list: Seq<Seq<char>>) -> Seq<(Seq<char>, nat)> {
    distinct(list).map_values(|x: Seq<char>| (x, occurrences(list, x)))
}

/// The names and numbers of a tally.
pub open spec fn tally_view(t: Seq<(String, usize)>) -> Seq<(Seq<char>, nat)> {
    t.map_values(|p: (String, usize)| (p.0@, p.1 as nat))
}

/// The different items of a list occur in it, and every item of it is among them, once.
pub proof fn lemma_distinct(list: Seq<Seq<char>>)
    ensures
        forall|x: Seq<char>| #[trigger] distinct(list).contains(x) <==> list.contains(x),
        forall|i: int, j: int|
            0 <= i < j < distinct(list).len() ==> #[trigger] distinct(list)[i]
                != #[trigger] distinct(list)[j],
        forall|x: Seq<char>| #[trigger] occurrences(list, x) > 0 <==> list.contains(x),
        forall|x: Seq<char>| #[trigger] occurrences(list, x) <= list.len(),
    decreases list.len(),
{
    if list.len() > 0 {
        let front = list.drop_last();
        lemma_distinct(front);
        let d = distinct(front);
        assert forall|x: Seq<char>| #[trigger] distinct(list).contains(x) <==> list.contains(x) by {
            if list.contains(x) {
                let i = choose|i: int| 0 <= i < list.len() && list[i] == x;
                if i < front.len() {
                    assert(front[i] == x);
                    assert(d.contains(x));
                    let k = choose|k: int| 0 <= k < d.len() && d[k] == x;
                    assert(distinct(list)[k] == x);
                } else if !d.contains(x) {
                    assert(distinct(list)[d.len() as int] == x);
                }
            }
            if distinct(list).contains(x) {
                if d.contains(x) {
                    assert(front.contains(x));
                    let i = choose|i: int| 0 <= i < front.len() && front[i] == x;
                    assert(list[i] == x);
                } else {
                    let k = choose|k: int|
                        0 <= k < distinct(list).len() && distinct(list)[k] == x;
                    if k < d.len() {
                        assert(d[k] == x);
                    }
                    assert(list[list.len() - 1] == x);
                }
            }
        }
        assert forall|x: Seq<char>| #[trigger] occurrences(list, x) <= list.len() by {
            assert(occurrences(front, x) <= front.len());
        }
        assert forall|x: Seq<char>| #[trigger] occurrences(list, x) > 0 <==> list.contains(x) by {
            if list.contains(x) {
                let i = choose|i: int| 0 <= i < list.len() && list[i] == x;
                if i < front.len() {
                    assert(front[i] == x);
                    assert(front.contains(x));
                }
            }
            if occurrences(front, x) > 0 {
                let i = choose|i: int| 0 <= i < front.len() && front[i] == x;
                assert(list[i] == x);
            }
            if list.last() == x {
                assert(list[list.len() - 1] == x);
            }
        }
    }
}

pub proof fn lemma_tally_step(list: Seq<Seq<char>>, k: int)
    requires
        list.len() > 0,
    ensures
        0 <= k < distinct(list.drop_last()).len() && distinct(list.drop_last())[k] == list.last()
            ==> tallied(list) == tallied(list.drop_last()).update(
            k,
            (list.last(), occurrences(list.drop_last(), list.last()) + 1),
        ),
        !distinct(list.drop_last()).contains(list.last()) ==> tallied(list) == tallied(
            list.drop_last(),
        ).push((list.last(), 1)),
{
    let front = list.drop_last();
    let x = list.last();
    lemma_distinct(front);
    if 0 <= k < distinct(front).len() && distinct(front)[k] == x {
        assert(distinct(front).contains(x));
        assert(tallied(list) =~= tallied(front).update(k, (x, occurrences(front, x) + 1)));
    }
    if !distinct(front).contains(x) {
        assert(!front.contains(x));
        assert(occurrences(front, x) == 0);
        assert forall|i: int| 0 <= i < distinct(front).len() implies #[trigger] distinct(front)[i]
            != x by {
            assert(distinct(front).contains(distinct(front)[i]));
        }
        assert(tallied(list) =~= tallied(front).push((x, 1)));
    }
}

/// Count the occurrences of each item of a list.
pub fn tally(list: &Vec<String>) -> (r: Vec<(String, usize)>)
    ensures
        tally_view(r@) == tallied(list.deep_view()),
{
    let ghost all = list.deep_view();
    let mut out: Vec<(String, usize)> = Vec::new();
    let mut i: usize = 0;
    assert(all.take(0) =~= Seq::empty());
    assert(tally_view(out@) =~= tallied(all.take(0)));
    while i < list.len()
        invariant
            i <= list@.len(),
            all == list.deep_view(),
            tally_view(out@) == tallied(all.take(i as int)),
        decreases list@.len() - i,
    {
        let ghost seen = all.take(i as int);
        let ghost now = all.take(i + 1);
        let ghost before = out@;
        proof {
            assert(now.drop_last() =~= seen);
            assert(now.last() == list@[i as int]@);
            lemma_distinct(seen);
        }
        let mut k: usize = 0;
        while k < out.len() && !text::same(out[k].0.as_str(), list[i].as_str())
            invariant
                k <= out@.len(),
                i < list@.len(),
                forall|j: int| 0 <= j < k ==> (#[trigger] out@[j]).0@ != list@[i as int]@,
            decreases out@.len() - k,
        {
            k += 1;
        }
        proof {
            lemma_tally_step(now, k as int);
            assert(tally_view(out@).len() == tallied(seen).len());
            assert forall|j: int| 0 <= j < out@.len() implies (#[trigger] out@[j]).0@ == distinct(
                seen,
            )[j] && out@[j].1 == occurrences(seen, distinct(seen)[j]) by {
                assert(tally_view(out@)[j] == (out@[j].0@, out@[j].1 as nat));
                assert(tallied(seen)[j] == (
                    distinct(seen)[j],
                    occurrences(seen, distinct(seen)[j]),
                ));
            }
        }
        if k < out.len() {
            proof {
                assert(out@[k as int].0@ == distinct(seen)[k as int]);
                assert(out@[k as int].1 == occurrences(seen, now.last()));
            }
            let name = out[k].0.clone();
            let count: usize = out[k].1;
            out.set(k, (name, count + 1));
            assert(tally_view(out@) =~= tally_view(before).update(
                k as int,
                (now.last(), occurrences(seen, now.last()) + 1),
            ));
        } else {
            proof {
                if distinct(seen).contains(now.last()) {
                    let j = choose|j: int|
                        0 <= j < distinct(seen).len() && distinct(seen)[j] == now.last();
                    assert(out@[j].0@ == now.last());
                }
            }
            out.push((list[i].clone(), 1));
            assert(tally_view(out@) =~= tally_view(before).push((now.last(), 1)));
        }
        i += 1;
    }
    assert(all.take(all.len() as int) =~= all);
    out
}

} // verus!
