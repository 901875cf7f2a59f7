//! Natural numbers of any size.
use vstd::prelude::*;

verus! {

/// The base of the digits.
pub const BASE: u64 = 0x1_0000_0000;

/// A natural number, by its digits to the base `BASE`, the most significant first.
#[derive(Debug)]
pub struct Natural {
    pub digits: Vec<u32>,
}

/// The number that digits denote.
pub open spec fn digits_value(digits: Seq<u32>) -> nat
    decreases digits.len(),
{
    if digits.len() == 0 {
        0
    } else {
        digits_value(digits.drop_last()) * BASE as nat + digits.last() as nat
    }
}

impl View for Natural {
    type V = nat;

    open spec fn view(&self) -> nat {
        digits_value(self.digits@)
    }
}

/// How two numbers compare.
#[derive(Debug, Clone, Copy, PartialEq, Eq, Structural)]
pub enum Relation {
    Less,
    Same,
    More,
}

/// How two numbers compare.
pub open spec fn relation(a: nat, b: nat) -> Relation {
    if a < b {
        Relation::Less
    } else if a == b {
        Relation::Same
    } else {
        Relation::More
    }
}

proof fn lemma_push_value(digits: Seq<u32>, d: u32)
    ensures
        digits_value(digits.push(d)) == digits_value(digits) * BASE as nat + d as nat,
{
    assert(digits.push(d).drop_last() =~= digits);
}

proof fn lemma_take_value(digits: Seq<u32>, n: int)
    requires
        0 < n <= digits.len(),
    ensures
        digits_value(digits.take(n)) == digits_value(digits.take(n - 1)) * BASE as nat
            + digits[n - 1] as nat,
{
    assert(digits.take(n).drop_last() =~= digits.take(n - 1));
}

/// The digits of a number below the base.
fn digits_of(d: u32) -> (r: Vec<u32>)
    ensures
        digits_value(r@) == d,
{
    let mut r: Vec<u32> = Vec::new();
    assert(digits_value(r@) == 0);
    if d > 0 {
        let ghost before = r@;
        r.push(d);
        proof {
            lemma_push_value(before, d);
        }
    }
    r
}

/// The first `n` digits of a number times `c`, plus `carry`.
fn scaled(a: &Vec<u32>, n: usize, c: u32, carry: u32) -> (r: Vec<u32>)
    requires
        n <= a@.len(),
    ensures
        digits_value(r@) == digits_value(a@.take(n as int)) * c as nat + carry as nat,
    decreases n,
{
    if n == 0 {
        assert(a@.take(0) =~= Seq::empty());
        assert(digits_value(a@.take(0)) * c as nat == 0) by (nonlinear_arith)
            requires
                digits_value(a@.take(0)) == 0,
        ;
        return digits_of(carry);
    }
    let x: u64 = a[n - 1] as u64;
    assert(x * (c as u64) <= 0xffff_ffff * 0xffff_ffff) by (nonlinear_arith)
        requires
            x <= 0xffff_ffff,
            c <= 0xffff_ffff,
    ;
    let t: u64 = x * (c as u64) + carry as u64;
    let high: u32 = (t / BASE) as u32;
    let low: u32 = (t % BASE) as u32;
    let mut r = scaled(a, n - 1, c, high);
    let ghost front = r@;
    r.push(low);
    proof {
        lemma_push_value(front, low);
        lemma_take_value(a@, n as int);
        let v = digits_value(a@.take(n - 1));
        let b = BASE as nat;
        assert((v * c as nat + high as nat) * b + low as nat == (v * b + x as nat) * c as nat
            + carry as nat) by (nonlinear_arith)
            requires
                high as nat * b + low as nat == x as nat * c as nat + carry as nat,
        ;
    }
    r
}

/// The first `n` digits of one number and the first `m` of another, added up with `carry`.
fn added(a: &Vec<u32>, n: usize, b: &Vec<u32>, m: usize, carry: u32) -> (r: Vec<u32>)
    requires
        n <= a@.len(),
        m <= b@.len(),
        carry <= 1,
    ensures
        digits_value(r@) == digits_value(a@.take(n as int)) + digits_value(b@.take(m as int))
            + carry,
    decreases n + m,
{
    proof {
        assert(a@.take(0) =~= Seq::empty());
        assert(b@.take(0) =~= Seq::empty());
        if n > 0 {
            lemma_take_value(a@, n as int);
        }
        if m > 0 {
            lemma_take_value(b@, m as int);
        }
    }
    if n == 0 && m == 0 {
        return digits_of(carry);
    }
    let x: u64 = if n > 0 { a[n - 1] as u64 } else { 0 };
    let y: u64 = if m > 0 { b[m - 1] as u64 } else { 0 };
    let n1: usize = if n > 0 { n - 1 } else { 0 };
    let m1: usize = if m > 0 { m - 1 } else { 0 };
    let t: u64 = x + y + carry as u64;
    let high: u32 = (t / BASE) as u32;
    let low: u32 = (t % BASE) as u32;
    let mut r = added(a, n1, b, m1, high);
    let ghost front = r@;
    r.push(low);
    proof {
        lemma_push_value(front, low);
        let v = digits_value(a@.take(n1 as int));
        let w = digits_value(b@.take(m1 as int));
        let s = BASE as nat;
        assert((v + w + high as nat) * s + low as nat == v * s + w * s + x as nat + y as nat
            + carry as nat) by (nonlinear_arith)
            requires
                high as nat * s + low as nat == x as nat + y as nat + carry as nat,
        ;
        assert(n == 0 ==> v * s == 0) by (nonlinear_arith)
            requires
                n == 0 ==> v == 0,
        ;
        assert(m == 0 ==> w * s == 0) by (nonlinear_arith)
            requires
                m == 0 ==> w == 0,
        ;
    }
    r
}

/// How the first `n` digits of one number compare with the first `m` of another.
fn compared(a: &Vec<u32>, n: usize, b: &Vec<u32>, m: usize) -> (r: Relation)
    requires
        n <= a@.len(),
        m <= b@.len(),
    ensures
        r == relation(digits_value(a@.take(n as int)), digits_value(b@.take(m as int))),
    decreases n + m,
{
    proof {
        assert(a@.take(0) =~= Seq::empty());
        assert(b@.take(0) =~= Seq::empty());
        if n > 0 {
            lemma_take_value(a@, n as int);
        }
        if m > 0 {
            lemma_take_value(b@, m as int);
        }
    }
    if n == 0 && m == 0 {
        return Relation::Same;
    }
    let x: u32 = if n > 0 { a[n - 1] } else { 0 };
    let y: u32 = if m > 0 { b[m - 1] } else { 0 };
    let n1: usize = if n > 0 { n - 1 } else { 0 };
    let m1: usize = if m > 0 { m - 1 } else { 0 };
    let above = compared(a, n1, b, m1);
    proof {
        let v = digits_value(a@.take(n1 as int));
        let w = digits_value(b@.take(m1 as int));
        let s = BASE as nat;
        assert(n == 0 ==> v * s == 0) by (nonlinear_arith)
            requires
                n == 0 ==> v == 0,
        ;
        assert(m == 0 ==> w * s == 0) by (nonlinear_arith)
            requires
                m == 0 ==> w == 0,
        ;
        assert(v < w ==> v * s + (x as nat) < w * s) by (nonlinear_arith)
            requires
                (x as nat) < s,
        ;
        assert(w < v ==> w * s + (y as nat) < v * s) by (nonlinear_arith)
            requires
                (y as nat) < s,
        ;
    }
    match above {
        Relation::Same => if x < y {
            Relation::Less
        } else if x == y {
            Relation::Same
        } else {
            Relation::More
        },
        other => other,
    }
}

impl Natural {
    /// The natural number of a machine number.
    pub fn from_u128(n: u128) -> (r: Natural)
        ensures
            r@ == n,
        decreases n,
    {
        let base: u128 = BASE as u128;
        if n == 0 {
            let digits: Vec<u32> = Vec::new();
            return Natural { digits };
        }
        let mut r = Natural::from_u128(n / base);
        let low: u32 = (n % base) as u32;
        let ghost front = r.digits@;
        r.digits.push(low);
        proof {
            lemma_push_value(front, low);
        }
        r
    }

    /// The sum of two numbers.
    pub fn plus(&self, other: &Natural) -> (r: Natural)
        ensures
            r@ == self@ + other@,
    {
        proof {
            assert(self.digits@.take(self.digits@.len() as int) =~= self.digits@);
            assert(other.digits@.take(other.digits@.len() as int) =~= other.digits@);
        }
        Natural {
            digits: added(
                &self.digits,
                self.digits.len(),
                &other.digits,
                other.digits.len(),
                0,
            ),
        }
    }

    /// The product of two numbers.
    pub fn times(&self, other: &Natural) -> (r: Natural)
        ensures
            r@ == self@ * other@,
    {
        let digits: Vec<u32> = Vec::new();
        let mut r = Natural { digits };
        let mut i: usize = 0;
        proof {
            assert(other.digits@.take(0) =~= Seq::empty());
            assert(self@ * 0 == 0) by (nonlinear_arith);
            assert(self.digits@.take(self.digits@.len() as int) =~= self.digits@);
        }
        while i < other.digits.len()
            invariant
                i <= other.digits@.len(),
                self.digits@.take(self.digits@.len() as int) == self.digits@,
                r@ == self@ * digits_value(other.digits@.take(i as int)),
            decreases other.digits@.len() - i,
        {
            let ghost done = digits_value(other.digits@.take(i as int));
            let d: u32 = other.digits[i];
            let part = Natural { digits: scaled(&self.digits, self.digits.len(), d, 0) };
            let ghost before = r.digits@;
            r.digits.push(0);
            proof {
                lemma_push_value(before, 0);
                lemma_take_value(other.digits@, i + 1);
                let v = self@;
                let s = BASE as nat;
                assert(v * done * s + v * d as nat == v * (done * s + d as nat)) by (nonlinear_arith);
            }
            r = r.plus(&part);
            i += 1;
        }
        assert(other.digits@.take(other.digits@.len() as int) =~= other.digits@);
        r
    }

    /// How two numbers compare.
    pub fn compare(&self, other: &Natural) -> (r: Relation)
        ensures
            r == relation(self@, other@),
    {
        proof {
            assert(self.digits@.take(self.digits@.len() as int) =~= self.digits@);
            assert(other.digits@.take(other.digits@.len() as int) =~= other.digits@);
        }
        compared(&self.digits, self.digits.len(), &other.digits, other.digits.len())
    }
}

} // verus!
