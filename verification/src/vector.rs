//! Fixed-length numeric vectors and the dot-product reduction that every
//! multiplication task computes.

use vstd::prelude::*;

use crate::MatrixError;

verus! {

/// An ordered, fixed-length sequence of numbers; the operand of a dot
/// product.  The length is set at construction and never changes.
pub struct Vector {
    data: Vec<i64>,
}

impl View for Vector {
    type V = Seq<i64>;

    closed spec fn view(&self) -> Seq<i64> {
        self.data@
    }
}

impl Vector {
    /// Wraps the given elements, in order.
    pub fn new(data: Vec<i64>) -> (v: Vector)
        ensures
            v@ == data@,
    {
        Vector { data }
    }

    /// The number of elements.
    pub fn len(&self) -> (n: usize)
        ensures
            n == self@.len(),
    {
        self.data.len()
    }

    /// The element at position `i`.
    pub fn get(&self, i: usize) -> (x: i64)
        requires
            i < self@.len(),
        ensures
            x == self@[i as int],
    {
        self.data[i]
    }
}

/// The dot product of two equal-length sequences, accumulated left to
/// right: the sum of `a[i] * b[i]` over all positions.
pub open spec fn dot(a: Seq<i64>, b: Seq<i64>) -> int
    decreases a.len(),
{
    if a.len() == 0 || b.len() == 0 {
        0
    } else {
        dot(a.drop_last(), b.drop_last()) + a.last() * b.last()
    }
}

/// Whether `x` fits in an `i64`.
pub open spec fn in_i64(x: int) -> bool {
    i64::MIN <= x <= i64::MAX
}

/// Whether the left-to-right dot product of `a` and `b` can be computed in
/// `i64` arithmetic: every elementwise product and every partial sum stays
/// in range.
pub open spec fn dot_fits(a: Seq<i64>, b: Seq<i64>) -> bool {
    &&& (forall|i: int|
        0 <= i < a.len() && i < b.len() ==> in_i64((#[trigger] a[i]) * b[i]))
    &&& (forall|i: int|
        0 <= i <= a.len() && i <= b.len() ==> in_i64(dot(#[trigger] a.take(i), b.take(i))))
}

/// Computes `Σ a[i] * b[i]` left to right; rejects operands of unequal
/// length.  Returns `Ok` exactly when the lengths agree, and the sum is then
/// the dot product of the two sequences; two empty vectors give the additive
/// identity, `0`.
pub fn dot_product(a: Vector, b: Vector) -> (r: Result<i64, MatrixError>)
    requires
        a@.len() == b@.len() ==> dot_fits(a@, b@),
    ensures
        match r {
            Ok(v) => a@.len() == b@.len() && v as int == dot(a@, b@),
            Err(e) => a@.len() != b@.len() && e == MatrixError::LengthMismatch,
        },
{
    if a.len() != b.len() {
        return Err(MatrixError::LengthMismatch);
    }
    let n: usize = a.len();
    let mut result: i64 = 0;
    let mut i: usize = 0;
    while i < n
        invariant
            n == a@.len() == b@.len(),
            dot_fits(a@, b@),
            i <= n,
            result as int == dot(a@.take(i as int), b@.take(i as int)),
        decreases n - i,
    {
        proof {
            assert(in_i64(a@[i as int] * b@[i as int]));
            assert(a@.take(i + 1).drop_last() =~= a@.take(i as int));
            assert(b@.take(i + 1).drop_last() =~= b@.take(i as int));
            assert(a@.take(i + 1).last() == a@[i as int]);
            assert(in_i64(dot(a@.take(i + 1), b@.take(i + 1))));
        }
        let p: i64 = a.get(i) * b.get(i);
        result = result + p;
        i = i + 1;
    }
    proof {
        assert(a@.take(n as int) =~= a@);
        assert(b@.take(n as int) =~= b@);
    }
    Ok(result)
}

/// Every element of `s` has magnitude at most `bound`.
pub open spec fn entries_bounded(s: Seq<i64>, bound: int) -> bool {
    forall|t: int| 0 <= t < s.len() ==> -bound <= #[trigger] s[t] <= bound
}

/// The dot product of two sequences of entries with magnitude at most
/// `bound` has magnitude at most `len * bound * bound`.
pub proof fn lemma_dot_bounded(a: Seq<i64>, b: Seq<i64>, bound: int)
    requires
        a.len() == b.len(),
        0 <= bound,
        entries_bounded(a, bound),
        entries_bounded(b, bound),
    ensures
        -(a.len() * bound * bound) <= dot(a, b) <= a.len() * bound * bound,
    decreases a.len(),
{
    if a.len() > 0 {
        assert(entries_bounded(a.drop_last(), bound));
        assert(entries_bounded(b.drop_last(), bound));
        lemma_dot_bounded(a.drop_last(), b.drop_last(), bound);
        assert(-(bound * bound) <= a.last() * b.last() <= bound * bound) by (nonlinear_arith)
            requires
                -bound <= a.last() <= bound,
                -bound <= b.last() <= bound,
                0 <= bound,
        ;
        assert((a.len() - 1) * bound * bound + bound * bound == a.len() * bound * bound)
            by (nonlinear_arith);
    }
}

/// The dot product of two zero-length vectors is the additive identity.
pub proof fn lemma_dot_empty(a: Seq<i64>, b: Seq<i64>)
    requires
        a.len() == 0,
        b.len() == 0,
    ensures
        dot(a, b) == 0,
{
}

} // verus!
