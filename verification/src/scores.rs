//! Relevance scores.
use crate::fractions;
use vstd::prelude::*;

verus! {

/// A relevance score. Scores that a backend computes are doubles, carried by their bit patterns;
/// those that the library computes are exact.
#[derive(Debug, Clone, Copy, PartialEq, Eq, Structural)]
pub enum Score {
    /// The bit pattern of a double.
    Double(u64),
    /// A number of contributions.
    Count(u64),
}

/// The score of an entry of a unified result set.
#[derive(Debug)]
pub enum RrfScore {
    /// The score that the entry came with.
    Own(Score),
    /// The sum of the reciprocals of the numbers.
    Fused(Vec<u128>),
}

/// What the score of an entry holds.
pub ghost enum RrfScoreView {
    Own(Score),
    Fused(Seq<nat>),
}

impl DeepView for RrfScore {
    type V = RrfScoreView;

    open spec fn deep_view(&self) -> RrfScoreView {
        match *self {
            RrfScore::Own(s) => RrfScoreView::Own(s),
            RrfScore::Fused(ds) => RrfScoreView::Fused(fractions::as_naturals(ds@)),
        }
    }
}

/// A copy of a list of numbers.
pub fn copy_numbers(list: &Vec<u128>) -> (r: Vec<u128>)
    ensures
        r@ == list@,
{
    let mut out: Vec<u128> = Vec::new();
    let mut i: usize = 0;
    while i < list.len()
        invariant
            i <= list@.len(),
            out@ == list@.take(i as int),
        decreases list@.len() - i,
    {
        out.push(list[i]);
        i += 1;
        assert(out@ =~= list@.take(i as int));
    }
    assert(list@.take(list@.len() as int) =~= list@);
    out
}

impl Clone for RrfScore {
    fn clone(&self) -> (r: RrfScore)
        ensures
            r.deep_view() == self.deep_view(),
    {
        match self {
            RrfScore::Own(s) => RrfScore::Own(*s),
            RrfScore::Fused(ds) => RrfScore::Fused(copy_numbers(ds)),
        }
    }
}

} // verus!
