//! Sums of reciprocals, and their exact order.
use crate::naturals::Natural;
use crate::naturals::Relation;
use vstd::prelude::*;

verus! {

/// A fraction of natural numbers. Its denominator is positive.
pub ghost struct Fraction {
    pub num: nat,
    pub den: nat,
}

/// Zero.
pub open spec fn zero() -> Fraction {
    Fraction { num: 0, den: 1 }
}

/// A fraction plus the reciprocal of `d`.
pub open spec fn plus_reciprocal(f: Fraction, d: nat) -> Fraction {
    Fraction { num: f.num * d + f.den, den: f.den * d }
}

/// The sum of the reciprocals of numbers.
pub open spec fn sum_of(ds: Seq<nat>) -> Fraction
    decreases ds.len(),
{
    if ds.len() == 0 {
        zero()
    } else {
        plus_reciprocal(sum_of(ds.drop_last()), ds.last())
    }
}

/// Whether one fraction is greater than another.
pub open spec fn exceeds(a: Fraction, b: Fraction) -> bool {
    a.num * b.den > b.num * a.den
}

/// Whether two fractions are equal.
pub open spec fn equals(a: Fraction, b: Fraction) -> bool {
    a.num * b.den == b.num * a.den
}

/// Whether all numbers are positive.
pub open spec fn all_positive(ds: Seq<nat>) -> bool {
    forall|i: int| 0 <= i < ds.len() ==> #[trigger] ds[i] > 0
}

/// A sum of reciprocals of positive numbers has a positive denominator.
pub proof fn lemma_sum_is_fraction(ds: Seq<nat>)
    requires
        all_positive(ds),
    ensures
        sum_of(ds).den > 0,
    decreases ds.len(),
{
    if ds.len() > 0 {
        let front = ds.drop_last();
        assert forall|i: int| 0 <= i < front.len() implies #[trigger] front[i] > 0 by {
            assert(front[i] == ds[i]);
        }
        lemma_sum_is_fraction(front);
        let a = sum_of(front).den;
        let d = ds[ds.len() - 1];
        assert(a * d > 0) by (nonlinear_arith)
            requires
                a > 0,
                d > 0,
        ;
    }
}

/// No fraction exceeds one that exceeds it or equals it, and the order is transitive.
pub proof fn lemma_order_is_transitive(a: Fraction, b: Fraction, c: Fraction)
    requires
        a.den > 0,
        b.den > 0,
        c.den > 0,
        !exceeds(b, a),
        !exceeds(c, b),
    ensures
        !exceeds(c, a),
        exceeds(a, b) || exceeds(b, c) ==> exceeds(a, c),
{
    let (x, y, z) = (a.num, b.num, c.num);
    let (p, q, r) = (a.den, b.den, c.den);
    assert(x * q >= y * p);
    assert(y * r >= z * q);
    assert(x * r >= z * p) by (nonlinear_arith)
        requires
            x * q >= y * p,
            y * r >= z * q,
            p > 0,
            q > 0,
            r > 0,
    {
        assert((x * q) * r >= (y * p) * r);
        assert((y * r) * p >= (z * q) * p);
        assert((x * r) * q >= (z * p) * q) by {
            assert((x * q) * r == (x * r) * q);
            assert((y * p) * r == (y * r) * p);
            assert((z * q) * p == (z * p) * q);
        }
    }
    if x * q > y * p || y * r > z * q {
        assert(x * r > z * p) by (nonlinear_arith)
            requires
                x * q >= y * p,
                y * r >= z * q,
                x * q > y * p || y * r > z * q,
                p > 0,
                q > 0,
                r > 0,
        {
            assert((x * q) * r >= (y * p) * r);
            assert((y * r) * p >= (z * q) * p);
            assert((x * q) * r > (y * p) * r || (y * r) * p > (z * q) * p);
            assert((x * r) * q > (z * p) * q) by {
                assert((x * q) * r == (x * r) * q);
                assert((y * p) * r == (y * r) * p);
                assert((z * q) * p == (z * p) * q);
            }
        }
    }
}

/// A further reciprocal makes a sum greater.
pub proof fn lemma_sum_grows(ds: Seq<nat>, more: Seq<nat>)
    requires
        all_positive(ds),
        all_positive(more),
        more.len() > 0,
    ensures
        exceeds(sum_of(ds + more), sum_of(ds)),
    decreases more.len(),
{
    let front = more.drop_last();
    let d = more[more.len() - 1];
    assert((ds + more).drop_last() =~= ds + front);
    assert forall|i: int| 0 <= i < front.len() implies #[trigger] front[i] > 0 by {
        assert(front[i] == more[i]);
    }
    let whole = ds + front;
    assert forall|i: int| 0 <= i < whole.len() implies #[trigger] whole[i] > 0 by {
        if i < ds.len() {
            assert(ds[i] > 0);
        } else {
            assert(front[i - ds.len()] > 0);
        }
    }
    lemma_sum_is_fraction(ds);
    lemma_sum_is_fraction(whole);
    let f = sum_of(whole);
    let g = plus_reciprocal(f, d);
    assert((f.num * d + f.den) * f.den > f.num * (f.den * d)) by (nonlinear_arith)
        requires
            f.den > 0,
    ;
    assert(exceeds(g, f));
    assert(g.den > 0) by (nonlinear_arith)
        requires
            g.den == f.den * d,
            f.den > 0,
            d > 0,
    ;
    if front.len() > 0 {
        lemma_sum_grows(ds, front);
        lemma_order_is_transitive(g, f, sum_of(ds));
    } else {
        assert(whole =~= ds);
    }
}

// ---------------------------------------------------------------------------
// Executable fractions
// ---------------------------------------------------------------------------

/// A fraction.
#[derive(Debug)]
pub struct Ratio {
    pub num: Natural,
    pub den: Natural,
}

impl View for Ratio {
    type V = Fraction;

    open spec fn view(&self) -> Fraction {
        Fraction { num: self.num@, den: self.den@ }
    }
}

/// What a list of machine numbers holds.
pub open spec fn as_naturals(ds: Seq<u128>) -> Seq<nat> {
    ds.map_values(|d: u128| d as nat)
}

impl Ratio {
    /// The sum of the reciprocals of numbers.
    pub fn sum_of_reciprocals(ds: &Vec<u128>) -> (r: Ratio)
        ensures
            r@ == sum_of(as_naturals(ds@)),
    {
        let ghost all = as_naturals(ds@);
        let mut r = Ratio { num: Natural::from_u128(0), den: Natural::from_u128(1) };
        let mut i: usize = 0;
        assert(all.take(0) =~= Seq::empty());
        while i < ds.len()
            invariant
                i <= ds@.len(),
                all == as_naturals(ds@),
                r@ == sum_of(all.take(i as int)),
            decreases ds@.len() - i,
        {
            proof {
                assert(all.take(i + 1).drop_last() =~= all.take(i as int));
                assert(all.take(i + 1).last() == ds@[i as int] as nat);
            }
            let d = Natural::from_u128(ds[i]);
            let num = r.num.times(&d).plus(&r.den);
            let den = r.den.times(&d);
            r = Ratio { num, den };
            i += 1;
        }
        assert(all.take(all.len() as int) =~= all);
        r
    }

    /// Whether a fraction is less than another.
    pub fn is_less(&self, other: &Ratio) -> (r: bool)
        ensures
            r == exceeds(other@, self@),
    {
        let a = self.num.times(&other.den);
        let b = other.num.times(&self.den);
        match a.compare(&b) {
            Relation::Less => true,
            _ => false,
        }
    }
}

} // verus!
