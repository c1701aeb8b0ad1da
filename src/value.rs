//! Events and reactions: the tagged values that flow along edges, and the closed set of node
//! shapes that react to them.
use vstd::prelude::*;

verus! {

/// The modulus of `u64` arithmetic.
pub open spec fn word() -> int {
    0x1_0000_0000_0000_0000int
}

/// An event: a number, or the record of numbers that a collecting node has seen.
#[derive(Debug)]
pub enum Value {
    Num(u64),
    Record(Vec<u64>),
}

/// The model of a [`Value`].
pub enum EventView {
    Num(u64),
    Record(Seq<u64>),
}

impl View for Value {
    type V = EventView;

    open spec fn view(&self) -> EventView {
        match self {
            Value::Num(n) => EventView::Num(*n),
            Value::Record(v) => EventView::Record(v@),
        }
    }
}

/// A copy of the numbers in `v`.
pub fn copy_numbers(v: &Vec<u64>) -> (r: Vec<u64>)
    ensures
        r@ == v@,
{
    let mut r: Vec<u64> = Vec::with_capacity(v.len());
    let mut i: usize = 0;
    while i < v.len()
        invariant
            i <= v.len(),
            r@ == v@.take(i as int),
        decreases v.len() - i,
    {
        r.push(v[i]);
        i += 1;
        proof {
            assert(v@.take(i as int) == v@.take(i - 1 as int).push(v@[i - 1 as int]));
        }
    }
    proof {
        assert(v@.take(v@.len() as int) == v@);
    }
    r
}

impl Value {
    /// A copy of this value.
    pub fn duplicate(&self) -> (r: Value)
        ensures
            r@ == self@,
    {
        match self {
            Value::Num(n) => Value::Num(*n),
            Value::Record(v) => Value::Record(copy_numbers(v)),
        }
    }
}

/// A unary function on numbers: `x * mul + add`, wrapping.
#[derive(Clone, Copy, Debug, PartialEq, Eq, Structural)]
pub struct UnaryFn {
    pub mul: u64,
    pub add: u64,
}

/// A binary function on numbers: `x * a + y * b + c`, wrapping.
#[derive(Clone, Copy, Debug, PartialEq, Eq, Structural)]
pub struct BinaryFn {
    pub a: u64,
    pub b: u64,
    pub c: u64,
}

/// The product of two words leaves room for one more word below `u128::MAX`.
proof fn lemma_product_fits(a: u64, b: u64)
    ensures
        (a as int) * (b as int) <= 0xFFFF_FFFF_FFFF_FFFE_0000_0000_0000_0001int,
{
    assert((a as int) * (b as int) <= 0xFFFF_FFFF_FFFF_FFFFint * 0xFFFF_FFFF_FFFF_FFFFint)
        by (nonlinear_arith)
        requires
            0 <= a <= 0xFFFF_FFFF_FFFF_FFFFint,
            0 <= b <= 0xFFFF_FFFF_FFFF_FFFFint,
    ;
}

impl UnaryFn {
    pub open spec fn spec_apply(self, x: u64) -> u64 {
        ((x * self.mul + self.add) % word()) as u64
    }

    /// The function applied to `x`.
    pub fn apply(&self, x: u64) -> (r: u64)
        ensures
            r == self.spec_apply(x),
    {
        proof {
            lemma_product_fits(x, self.mul);
        }
        let p: u128 = (x as u128) * (self.mul as u128);
        let s: u128 = p + (self.add as u128);
        (s % 0x1_0000_0000_0000_0000u128) as u64
    }
}

impl BinaryFn {
    pub open spec fn spec_apply(self, x: u64, y: u64) -> u64 {
        ((x * self.a + y * self.b + self.c) % word()) as u64
    }

    /// The function applied to `x` and `y`.
    pub fn apply(&self, x: u64, y: u64) -> (r: u64)
        ensures
            r == self.spec_apply(x, y),
    {
        let m: u128 = 0x1_0000_0000_0000_0000u128;
        proof {
            lemma_product_fits(x, self.a);
            lemma_product_fits(y, self.b);
        }
        let p: u128 = ((x as u128) * (self.a as u128)) % m;
        let q: u128 = ((y as u128) * (self.b as u128)) % m;
        let s: u128 = (p + q + (self.c as u128)) % m;
        proof {
            let xa = x * self.a;
            let yb = y * self.b;
            assert((xa % word() + yb % word() + self.c) % word() == (xa + yb + self.c) % word())
                by (nonlinear_arith)
                requires
                    xa >= 0,
                    yb >= 0,
                    word() > 0,
            ;
        }
        s as u64
    }
}

/// What a node does with the events delivered to it.
#[derive(Clone, Copy, Debug, PartialEq, Eq, Structural)]
pub enum Reaction {
    /// An injection point: never reacts.
    Source,
    /// Emits the function of each number it hears.
    Apply(UnaryFn),
    /// Emits the function of each number it hears and the number it samples from its second input.
    Apply2(BinaryFn),
    /// Logs each event and emits it unchanged.
    Trace,
    /// Appends each number to the given record and emits the whole record.
    Collect(usize),
}

} // verus!
