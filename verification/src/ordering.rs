//! Stable orders: by text, latest first, by number, largest first, and by fraction, greatest first.
use crate::fractions;
use crate::fractions::Fraction;
use crate::fractions::Ratio;
use crate::text;
use vstd::prelude::*;

verus! {

/// A position put into an ordered list of positions, behind all that come before it.
pub open spec fn placed(list: Seq<int>, x: int, before: spec_fn(int, int) -> bool) -> Seq<int>
    decreases list.len(),
{
    if list.len() == 0 || before(list.last(), x) {
        list.push(x)
    } else {
        placed(list.drop_last(), x, before).push(list.last())
    }
}

/// The positions `0..n` in the order of `before`.
pub open spec fn ordered(n: nat, before: spec_fn(int, int) -> bool) -> Seq<int>
    decreases n,
{
    if n == 0 {
        Seq::empty()
    } else {
        placed(ordered((n - 1) as nat, before), n - 1, before)
    }
}

/// Whether a relation is a strict total order on the positions `0..n`.
pub open spec fn is_strict_order(n: nat, before: spec_fn(int, int) -> bool) -> bool {
    &&& forall|i: int, j: int|
        0 <= i < n && 0 <= j < n && i != j ==> #[trigger] before(i, j) || before(j, i)
    &&& forall|i: int, j: int|
        0 <= i < n && 0 <= j < n && #[trigger] before(i, j) ==> !before(j, i)
    &&& forall|i: int, j: int, k: int|
        0 <= i < n && 0 <= j < n && 0 <= k < n && #[trigger] before(i, j) && #[trigger] before(j, k)
            ==> before(i, k)
}

proof fn lemma_placed(list: Seq<int>, x: int, n: nat, before: spec_fn(int, int) -> bool)
    requires
        is_strict_order(n, before),
        0 <= x < n,
        forall|i: int| 0 <= i < list.len() ==> 0 <= #[trigger] list[i] < n && list[i] != x,
        forall|i: int, j: int| 0 <= i < j < list.len() ==> before(list[i], list[j]),
    ensures
        placed(list, x, before).len() == list.len() + 1,
        forall|i: int, j: int|
            0 <= i < j <= list.len() ==> before(
                #[trigger] placed(list, x, before)[i],
                #[trigger] placed(list, x, before)[j],
            ),
        forall|v: int| #[trigger]
            placed(list, x, before).contains(v) <==> list.contains(v) || v == x,
    decreases list.len(),
{
    let out = placed(list, x, before);
    if list.len() == 0 || before(list.last(), x) {
        assert(out == list.push(x));
        assert forall|i: int, j: int| 0 <= i < j <= list.len() implies before(
            #[trigger] out[i],
            #[trigger] out[j],
        ) by {
            if j == list.len() && i < list.len() - 1 {
                assert(before(list[i], list[list.len() - 1]));
            }
        }
        assert forall|v: int| #[trigger] out.contains(v) <==> list.contains(v) || v == x by {
            if list.contains(v) {
                let i = choose|i: int| 0 <= i < list.len() && list[i] == v;
                assert(out[i] == v);
            }
            assert(out[list.len() as int] == x);
        }
    } else {
        let front = list.drop_last();
        lemma_placed(front, x, n, before);
        let inner = placed(front, x, before);
        let last = list.last();
        assert(before(x, last)) by {
            assert(before(last, x) || before(x, last));
        }
        assert forall|i: int| 0 <= i < inner.len() implies before(#[trigger] inner[i], last) by {
            assert(inner.contains(inner[i]));
            if inner[i] != x {
                let k = choose|k: int| 0 <= k < front.len() && front[k] == inner[i];
                assert(before(list[k], list[list.len() - 1]));
            }
        }
        assert forall|v: int| #[trigger] out.contains(v) <==> list.contains(v) || v == x by {
            if list.contains(v) {
                let i = choose|i: int| 0 <= i < list.len() && list[i] == v;
                if i < front.len() {
                    assert(front[i] == v);
                    assert(inner.contains(v));
                    let k = choose|k: int| 0 <= k < inner.len() && inner[k] == v;
                    assert(out[k] == v);
                } else {
                    assert(out[inner.len() as int] == v);
                }
            }
            if v == x {
                assert(inner.contains(x));
                let k = choose|k: int| 0 <= k < inner.len() && inner[k] == x;
                assert(out[k] == x);
            }
            if out.contains(v) {
                let k = choose|k: int| 0 <= k < out.len() && out[k] == v;
                if k < inner.len() {
                    assert(inner.contains(v));
                    if v != x {
                        let f = choose|f: int| 0 <= f < front.len() && front[f] == v;
                        assert(list[f] == v);
                    }
                } else {
                    assert(list[list.len() - 1] == v);
                }
            }
        }
    }
}

/// The ordered positions hold each position once, and each comes before those behind it.
pub proof fn law_ordered(n: nat, total: nat, before: spec_fn(int, int) -> bool)
    requires
        n <= total,
        is_strict_order(total, before),
    ensures
        ordered(n, before).len() == n,
        forall|i: int, j: int|
            0 <= i < j < n ==> before(
                #[trigger] ordered(n, before)[i],
                #[trigger] ordered(n, before)[j],
            ),
        forall|v: int| #[trigger] ordered(n, before).contains(v) <==> 0 <= v < n,
    decreases n,
{
    if n > 0 {
        let m = (n - 1) as nat;
        law_ordered(m, total, before);
        let list = ordered(m, before);
        assert forall|i: int| 0 <= i < list.len() implies 0 <= #[trigger] list[i] < total && list[i]
            != m by {
            assert(list.contains(list[i]));
        }
        lemma_placed(list, m as int, total, before);
    }
}

/// Every position in the ordered list lies in range.
pub proof fn lemma_ordered_range(n: nat, before: spec_fn(int, int) -> bool)
    ensures
        ordered(n, before).len() == n,
        forall|i: int| 0 <= i < n ==> 0 <= #[trigger] ordered(n, before)[i] < n,
    decreases n,
{
    if n > 0 {
        let m = (n - 1) as nat;
        lemma_ordered_range(m, before);
        lemma_placed_range(ordered(m, before), m as int, n, before);
    }
}

proof fn lemma_placed_range(list: Seq<int>, x: int, n: nat, before: spec_fn(int, int) -> bool)
    requires
        0 <= x < n,
        forall|i: int| 0 <= i < list.len() ==> 0 <= #[trigger] list[i] < n,
    ensures
        placed(list, x, before).len() == list.len() + 1,
        forall|i: int| 0 <= i <= list.len() ==> 0 <= #[trigger] placed(list, x, before)[i] < n,
    decreases list.len(),
{
    if !(list.len() == 0 || before(list.last(), x)) {
        lemma_placed_range(list.drop_last(), x, n, before);
    }
}

/// The positions of a list as mathematical integers.
pub open spec fn as_positions(v: Seq<usize>) -> Seq<int> {
    v.map_values(|x: usize| x as int)
}

// ---------------------------------------------------------------------------
// By text, latest first
// ---------------------------------------------------------------------------

/// The order by text, the greatest first, equal ones in their given order.
pub open spec fn later_text(keys: Seq<Seq<char>>) -> spec_fn(int, int) -> bool {
    |i: int, j: int| text::text_less(keys[j], keys[i]) || (keys[i] == keys[j] && i < j)
}

/// The order by number, the largest first, equal ones in their given order.
pub open spec fn larger_number(keys: Seq<u128>) -> spec_fn(int, int) -> bool {
    |i: int, j: int| keys[j] < keys[i] || (keys[i] == keys[j] && i < j)
}

/// The order by fraction, the greatest first, equal ones in their given order.
pub open spec fn greater_fraction(keys: Seq<Fraction>) -> spec_fn(int, int) -> bool {
    |i: int, j: int| fractions::exceeds(keys[i], keys[j]) || (fractions::equals(keys[i], keys[j]) && i < j)
}

/// The order by text is strict and total.
pub proof fn law_later_text_is_an_order(keys: Seq<Seq<char>>)
    ensures
        is_strict_order(keys.len(), later_text(keys)),
{
    let before = later_text(keys);
    assert forall|i: int, j: int| 0 <= i < keys.len() && 0 <= j < keys.len() && i
        != j implies #[trigger] before(i, j) || before(j, i) by {
        text::lemma_text_less_total(keys[i], keys[j]);
    }
    assert forall|i: int, j: int|
        0 <= i < keys.len() && 0 <= j < keys.len() && #[trigger] before(i, j) implies !before(
        j,
        i,
    ) by {
        text::lemma_text_less_irreflexive(keys[i]);
        if text::text_less(keys[i], keys[j]) && text::text_less(keys[j], keys[i]) {
            text::lemma_text_less_transitive(keys[i], keys[j], keys[i]);
        }
    }
    assert forall|i: int, j: int, k: int|
        0 <= i < keys.len() && 0 <= j < keys.len() && 0 <= k < keys.len() && #[trigger] before(i, j)
            && #[trigger] before(j, k) implies before(i, k) by {
        if text::text_less(keys[j], keys[i]) && text::text_less(keys[k], keys[j]) {
            text::lemma_text_less_transitive(keys[k], keys[j], keys[i]);
        }
    }
}

/// The order by number is strict and total.
pub proof fn law_larger_number_is_an_order(keys: Seq<u128>)
    ensures
        is_strict_order(keys.len(), larger_number(keys)),
{
}

/// The order by fraction is strict and total.
pub proof fn law_greater_fraction_is_an_order(keys: Seq<Fraction>)
    requires
        forall|i: int| 0 <= i < keys.len() ==> (#[trigger] keys[i]).den > 0,
    ensures
        is_strict_order(keys.len(), greater_fraction(keys)),
{
    let before = greater_fraction(keys);
    assert forall|i: int, j: int, k: int|
        0 <= i < keys.len() && 0 <= j < keys.len() && 0 <= k < keys.len() && #[trigger] before(i, j)
            && #[trigger] before(j, k) implies before(i, k) by {
        fractions::lemma_order_is_transitive(keys[i], keys[j], keys[k]);
        if fractions::equals(keys[i], keys[j]) && fractions::equals(keys[j], keys[k]) {
            fractions::lemma_order_is_transitive(keys[k], keys[j], keys[i]);
        }
    }
}

/// The positions of texts, the greatest text first, equal ones in their given order.
pub fn latest_first(keys: &Vec<String>) -> (r: Vec<usize>)
    ensures
        as_positions(r@) == ordered(keys@.len(), later_text(keys.deep_view())),
        forall|i: int| 0 <= i < r@.len() ==> #[trigger] r@[i] < keys@.len(),
        r@.len() == keys@.len(),
{
    let ghost all = keys.deep_view();
    let ghost before = later_text(all);
    let mut out: Vec<usize> = Vec::new();
    let mut n: usize = 0;
    assert(as_positions(out@) =~= ordered(0, before));
    while n < keys.len()
        invariant
            n <= keys@.len(),
            all == keys.deep_view(),
            before == later_text(all),
            as_positions(out@) == ordered(n as nat, before),
            out@.len() == n,
            forall|i: int| 0 <= i < out@.len() ==> #[trigger] out@[i] < n,
        decreases keys@.len() - n,
    {
        let mut at: usize = out.len();
        let ghost list = as_positions(out@);
        assert(list.take(at as int) =~= list);
        assert(placed(list, n as int, before) + list.skip(at as int) =~= placed(
            list,
            n as int,
            before,
        ));
        while at > 0 && text::comes_before(keys[out[at - 1]].as_str(), keys[n].as_str())
            invariant
                n < keys@.len(),
                all == keys.deep_view(),
                before == later_text(all),
                list == as_positions(out@),
                at <= out@.len() == n,
                forall|i: int| 0 <= i < out@.len() ==> #[trigger] out@[i] < n,
                placed(list, n as int, before) == placed(list.take(at as int), n as int, before)
                    + list.skip(at as int),
            decreases at,
        {
            let ghost part = list.take(at as int);
            proof {
                let e = out@[at - 1] as int;
                assert(part.last() == e);
                assert(all[e] == keys@[e]@ && all[n as int] == keys@[n as int]@);
                text::lemma_text_less_irreflexive(all[e]);
                if text::text_less(all[n as int], all[e]) {
                    text::lemma_text_less_transitive(all[e], all[n as int], all[e]);
                }
                assert(!before(e, n as int));
                assert(part.drop_last() =~= list.take(at - 1));
                assert(placed(part.drop_last(), n as int, before).push(e) + list.skip(at as int)
                    =~= placed(list.take(at - 1), n as int, before) + list.skip(at - 1));
            }
            at -= 1;
        }
        proof {
            if at > 0 {
                let e = out@[at - 1] as int;
                assert(list.take(at as int).last() == e);
                assert(all[e] == keys@[e]@ && all[n as int] == keys@[n as int]@);
                text::lemma_text_less_total(all[e], all[n as int]);
                assert(before(e, n as int));
            }
            assert(placed(list.take(at as int), n as int, before) == list.take(at as int).push(
                n as int,
            ));
        }
        let ghost was = out@;
        out.insert(at, n);
        proof {
            assert(out@ == was.insert(at as int, n));
            assert(as_positions(out@) =~= list.take(at as int).push(n as int) + list.skip(
                at as int,
            ));
        }
        n += 1;
    }
    out
}

/// The positions of numbers, the largest first, equal ones in their given order.
pub fn largest_first(keys: &Vec<u128>) -> (r: Vec<usize>)
    ensures
        as_positions(r@) == ordered(keys@.len(), larger_number(keys@)),
        forall|i: int| 0 <= i < r@.len() ==> #[trigger] r@[i] < keys@.len(),
        r@.len() == keys@.len(),
{
    let ghost before = larger_number(keys@);
    let mut out: Vec<usize> = Vec::new();
    let mut n: usize = 0;
    assert(as_positions(out@) =~= ordered(0, before));
    while n < keys.len()
        invariant
            n <= keys@.len(),
            before == larger_number(keys@),
            as_positions(out@) == ordered(n as nat, before),
            out@.len() == n,
            forall|i: int| 0 <= i < out@.len() ==> #[trigger] out@[i] < n,
        decreases keys@.len() - n,
    {
        let mut at: usize = out.len();
        let ghost list = as_positions(out@);
        assert(list.take(at as int) =~= list);
        assert(placed(list, n as int, before) + list.skip(at as int) =~= placed(
            list,
            n as int,
            before,
        ));
        while at > 0 && keys[out[at - 1]] < keys[n]
            invariant
                n < keys@.len(),
                before == larger_number(keys@),
                list == as_positions(out@),
                at <= out@.len() == n,
                forall|i: int| 0 <= i < out@.len() ==> #[trigger] out@[i] < n,
                placed(list, n as int, before) == placed(list.take(at as int), n as int, before)
                    + list.skip(at as int),
            decreases at,
        {
            let ghost part = list.take(at as int);
            proof {
                let e = out@[at - 1] as int;
                assert(part.last() == e);
                assert(!before(e, n as int));
                assert(part.drop_last() =~= list.take(at - 1));
                assert(placed(part.drop_last(), n as int, before).push(e) + list.skip(at as int)
                    =~= placed(list.take(at - 1), n as int, before) + list.skip(at - 1));
            }
            at -= 1;
        }
        proof {
            if at > 0 {
                let e = out@[at - 1] as int;
                assert(list.take(at as int).last() == e);
                assert(before(e, n as int));
            }
            assert(placed(list.take(at as int), n as int, before) == list.take(at as int).push(
                n as int,
            ));
        }
        let ghost was = out@;
        out.insert(at, n);
        proof {
            assert(out@ == was.insert(at as int, n));
            assert(as_positions(out@) =~= list.take(at as int).push(n as int) + list.skip(
                at as int,
            ));
        }
        n += 1;
    }
    out
}

/// What fractions stand for.
pub open spec fn as_fractions(keys: Seq<Ratio>) -> Seq<Fraction> {
    keys.map_values(|k: Ratio| k@)
}

/// The positions of fractions, the greatest first, equal ones in their given order.
pub fn greatest_first(keys: &Vec<Ratio>) -> (r: Vec<usize>)
    ensures
        as_positions(r@) == ordered(keys@.len(), greater_fraction(as_fractions(keys@))),
        forall|i: int| 0 <= i < r@.len() ==> #[trigger] r@[i] < keys@.len(),
        r@.len() == keys@.len(),
{
    let ghost before = greater_fraction(as_fractions(keys@));
    let mut out: Vec<usize> = Vec::new();
    let mut n: usize = 0;
    assert(as_positions(out@) =~= ordered(0, before));
    while n < keys.len()
        invariant
            n <= keys@.len(),
            before == greater_fraction(as_fractions(keys@)),
            as_positions(out@) == ordered(n as nat, before),
            out@.len() == n,
            forall|i: int| 0 <= i < out@.len() ==> #[trigger] out@[i] < n,
        decreases keys@.len() - n,
    {
        let mut at: usize = out.len();
        let ghost list = as_positions(out@);
        assert(list.take(at as int) =~= list);
        assert(placed(list, n as int, before) + list.skip(at as int) =~= placed(
            list,
            n as int,
            before,
        ));
        while at > 0 && keys[out[at - 1]].is_less(&keys[n])
            invariant
                n < keys@.len(),
                before == greater_fraction(as_fractions(keys@)),
                list == as_positions(out@),
                at <= out@.len() == n,
                forall|i: int| 0 <= i < out@.len() ==> #[trigger] out@[i] < n,
                placed(list, n as int, before) == placed(list.take(at as int), n as int, before)
                    + list.skip(at as int),
            decreases at,
        {
            let ghost part = list.take(at as int);
            proof {
                let e = out@[at - 1] as int;
                assert(part.last() == e);
                assert(!before(e, n as int));
                assert(part.drop_last() =~= list.take(at - 1));
                assert(placed(part.drop_last(), n as int, before).push(e) + list.skip(at as int)
                    =~= placed(list.take(at - 1), n as int, before) + list.skip(at - 1));
            }
            at -= 1;
        }
        proof {
            if at > 0 {
                let e = out@[at - 1] as int;
                assert(list.take(at as int).last() == e);
                assert(before(e, n as int));
            }
            assert(placed(list.take(at as int), n as int, before) == list.take(at as int).push(
                n as int,
            ));
        }
        let ghost was = out@;
        out.insert(at, n);
        proof {
            assert(out@ == was.insert(at as int, n));
            assert(as_positions(out@) =~= list.take(at as int).push(n as int) + list.skip(
                at as int,
            ));
        }
        n += 1;
    }
    out
}

} // verus!
