use crate::array::{Array1, Array2};
use vstd::prelude::*;

verus! {

/// The arithmetic that the library needs of an element type.
///
/// The methods carry no contract: the library makes no assumption about
/// what they compute. Its own contracts speak of the values that a call
/// may return.
pub trait Scalar: Copy {
    /// The type of the singular values.
    type Real;

    /// The value that a sum starts from.
    fn zero() -> Self;

    /// The sum of two values.
    fn plus(self, rhs: Self) -> Self;

    /// The square of a value.
    fn square(self) -> Self;
}

/// `total` is what summing the squares of `s` from left to right, starting
/// from zero, may give.
pub open spec fn is_sum_of_squares<E: Scalar>(s: Seq<E>, total: E) -> bool
    decreases s.len(),
{
    if s.len() == 0 {
        call_ensures(E::zero, (), total)
    } else {
        exists|before: E, sq: E|
            {
                &&& is_sum_of_squares(s.drop_last(), before)
                &&& call_ensures(E::square, (s.last(),), sq)
                &&& #[trigger] call_ensures(E::plus, (before, sq), total)
            }
    }
}

/// Column `j` of a matrix given by its rows.
pub open spec fn column<E>(rows: Seq<Seq<E>>, j: int) -> Seq<E> {
    Seq::new(rows.len(), |i: int| rows[i][j])
}

/// One more term: `total` sums the squares of `s`, `sq` is the square of
/// `x`, and `next` is their sum.
pub proof fn lemma_sum_of_squares_push<E: Scalar>(s: Seq<E>, total: E, x: E, sq: E, next: E)
    requires
        is_sum_of_squares(s, total),
        call_ensures(E::square, (x,), sq),
        call_ensures(E::plus, (total, sq), next),
    ensures
        is_sum_of_squares(s.push(x), next),
{
    let t = s.push(x);
    assert(t.drop_last() =~= s);
    assert(t.last() == x);
}

/// The squares of elements `from..to` of `v`, summed from left to right.
pub fn sum_of_squares<E: Scalar>(v: &Array1<E>, from: usize, to: usize) -> (total: E)
    requires
        v.wf(),
        from <= to <= v.dim.0,
    ensures
        is_sum_of_squares(v@.subrange(from as int, to as int), total),
{
    let mut total = E::zero();
    let mut i: usize = from;
    while i < to
        invariant
            v.wf(),
            from <= i <= to <= v.dim.0,
            is_sum_of_squares(v@.subrange(from as int, i as int), total),
        decreases to - i,
    {
        let x = v.get(i);
        let sq = x.square();
        let next = total.plus(sq);
        proof {
            lemma_sum_of_squares_push(v@.subrange(from as int, i as int), total, x, sq, next);
            assert(v@.subrange(from as int, i as int).push(x) =~= v@.subrange(
                from as int,
                i + 1,
            ));
        }
        total = next;
        i += 1;
    }
    total
}

/// The squares of rows `from..to` of column `j` of `b`, summed from the
/// top down.
pub fn column_sum_of_squares<E: Scalar>(b: &Array2<E>, j: usize, from: usize, to: usize) -> (total:
    E)
    requires
        b.wf(),
        j < b.dim.1,
        from <= to <= b.dim.0,
    ensures
        is_sum_of_squares(column(b@, j as int).subrange(from as int, to as int), total),
{
    let mut total = E::zero();
    let mut i: usize = from;
    while i < to
        invariant
            b.wf(),
            j < b.dim.1,
            from <= i <= to <= b.dim.0,
            is_sum_of_squares(column(b@, j as int).subrange(from as int, i as int), total),
        decreases to - i,
    {
        let x = b.get(i, j);
        let sq = x.square();
        let next = total.plus(sq);
        proof {
            let col = column(b@, j as int);
            lemma_sum_of_squares_push(col.subrange(from as int, i as int), total, x, sq, next);
            assert(col.subrange(from as int, i as int).push(x) =~= col.subrange(
                from as int,
                i + 1,
            ));
        }
        total = next;
        i += 1;
    }
    total
}

} // verus!
