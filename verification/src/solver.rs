use crate::layout::{spec_max, MatrixLayout};
use crate::scalar::Scalar;
use vstd::prelude::*;

verus! {

/// What the solver computed.
#[derive(Debug, Clone)]
pub struct LeastSquaresOutput<E: Scalar> {
    /// The singular values of the matrix.
    pub singular_values: Vec<E::Real>,
    /// The rank that the solver found the matrix to have.
    pub rank: i32,
}

/// What the solver hands back: the two buffers it worked in, and either
/// what it computed or the code of its failure.
pub struct Solved<E: Scalar> {
    /// The buffer of the matrix, with contents that mean nothing any more.
    pub a: Vec<E>,
    /// The buffer of the right-hand side, now with the solution in its
    /// leading rows.
    pub b: Vec<E>,
    /// What the solver computed, or the code of its failure.
    pub output: Result<LeastSquaresOutput<E>, i32>,
}

/// The divide-and-conquer solver for an element type.
///
/// The methods promise nothing about what they hand back: the library
/// checks the sizes that it depends on, and its contracts speak of the
/// values that a call may return.
pub trait LeastSquaresSvdDivideConquer: Scalar {
    /// Solves for a single right-hand side.
    ///
    /// `a` is the packed `m` by `n` matrix in the order `a_layout` gives,
    /// and `b` has `max(m, n)` elements, the right-hand side in its first
    /// `m`.
    fn least_squares(a_layout: MatrixLayout, a: Vec<Self>, b: Vec<Self>) -> Solved<Self>
        requires
            a@.len() == a_layout.rows() * a_layout.cols(),
            b@.len() == spec_max(a_layout.rows(), a_layout.cols()),
    ;

    /// Solves for the columns of a matrix of right-hand sides.
    ///
    /// `a` is the packed `m` by `n` matrix in the order `a_layout` gives,
    /// and `b` is a packed matrix of `max(m, n)` rows in the same order,
    /// the right-hand sides in its first `m` rows.
    fn least_squares_nrhs(
        a_layout: MatrixLayout,
        a: Vec<Self>,
        b_layout: MatrixLayout,
        b: Vec<Self>,
    ) -> Solved<Self>
        requires
            a_layout.spec_same_order(b_layout),
            a@.len() == a_layout.rows() * a_layout.cols(),
            b_layout.rows() == spec_max(a_layout.rows(), a_layout.cols()),
            b@.len() == b_layout.rows() * b_layout.cols(),
    ;
}

/// `s` is something that the solver may hand back for a single right-hand
/// side when it is given `a_layout` and buffers that hold `a` and `b`.
pub open spec fn may_hand_back<E: LeastSquaresSvdDivideConquer>(
    a_layout: MatrixLayout,
    a: Seq<E>,
    b: Seq<E>,
    s: Solved<E>,
) -> bool {
    exists|a_buf: Vec<E>, b_buf: Vec<E>|
        {
            &&& a_buf@ == a
            &&& b_buf@ == b
            &&& #[trigger] call_ensures(E::least_squares, (a_layout, a_buf, b_buf), s)
        }
}

/// `s` is something that the solver may hand back for a matrix of
/// right-hand sides when it is given the two layouts and buffers that hold
/// `a` and `b`.
pub open spec fn may_hand_back_nrhs<E: LeastSquaresSvdDivideConquer>(
    a_layout: MatrixLayout,
    a: Seq<E>,
    b_layout: MatrixLayout,
    b: Seq<E>,
    s: Solved<E>,
) -> bool {
    exists|a_buf: Vec<E>, b_buf: Vec<E>|
        {
            &&& a_buf@ == a
            &&& b_buf@ == b
            &&& #[trigger] call_ensures(
                E::least_squares_nrhs,
                (a_layout, a_buf, b_layout, b_buf),
                s,
            )
        }
}

} // verus!
