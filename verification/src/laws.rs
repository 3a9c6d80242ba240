use crate::array::{Array, Array1, Array2, Ix1, Ix2};
use crate::error::LinalgError;
use crate::layout::{spec_matrix_layouts, spec_min, spec_vector_layout, MatrixLayout};
use crate::least_squares::{
    is_matrix_result, is_matrix_solve, is_residual_array1, is_residual_scalar, is_vector_result,
    is_vector_solve, LeastSquaresResult,
};
use crate::scalar::{column, is_sum_of_squares, Scalar};
use crate::solver::{
    may_hand_back, may_hand_back_nrhs, LeastSquaresOutput, LeastSquaresSvdDivideConquer, Solved,
};
use vstd::prelude::*;

verus! {

/// The arithmetic of `E` is a function of its arguments: no call can
/// return two different values for the same operands.
pub open spec fn scalar_is_function<E: Scalar>() -> bool {
    &&& forall|r1: E, r2: E|
        #![trigger call_ensures(E::zero, (), r1), call_ensures(E::zero, (), r2)]
        call_ensures(E::zero, (), r1) && call_ensures(E::zero, (), r2) ==> r1 == r2
    &&& forall|x: E, r1: E, r2: E|
        #![trigger call_ensures(E::square, (x,), r1), call_ensures(E::square, (x,), r2)]
        call_ensures(E::square, (x,), r1) && call_ensures(E::square, (x,), r2) ==> r1 == r2
    &&& forall|x: E, y: E, r1: E, r2: E|
        #![trigger call_ensures(E::plus, (x, y), r1), call_ensures(E::plus, (x, y), r2)]
        call_ensures(E::plus, (x, y), r1) && call_ensures(E::plus, (x, y), r2) ==> r1 == r2
}

/// Two things that the solver computed are the same: the same failure, or
/// the same singular values and rank.
pub open spec fn same_output<E: Scalar>(
    o1: Result<LeastSquaresOutput<E>, i32>,
    o2: Result<LeastSquaresOutput<E>, i32>,
) -> bool {
    match (o1, o2) {
        (Ok(x), Ok(y)) => x.singular_values@ == y.singular_values@ && x.rank == y.rank,
        (Err(c1), Err(c2)) => c1 == c2,
        _ => false,
    }
}

/// The solver of `E` is a function of the layouts and of the contents of
/// the buffers it is given: no two calls on the same contents differ in
/// what they compute or in what they leave in the right-hand side.
pub open spec fn solver_is_function<E: LeastSquaresSvdDivideConquer>() -> bool {
    &&& forall|layout: MatrixLayout, a: Seq<E>, b: Seq<E>, s1: Solved<E>, s2: Solved<E>|
        #![trigger may_hand_back(layout, a, b, s1), may_hand_back(layout, a, b, s2)]
        may_hand_back(layout, a, b, s1) && may_hand_back(layout, a, b, s2) ==> s1.b@ == s2.b@
            && same_output(s1.output, s2.output)
    &&& forall|
        a_layout: MatrixLayout,
        a: Seq<E>,
        b_layout: MatrixLayout,
        b: Seq<E>,
        s1: Solved<E>,
        s2: Solved<E>,
    |
        #![trigger may_hand_back_nrhs(a_layout, a, b_layout, b, s1), may_hand_back_nrhs(a_layout, a, b_layout, b, s2)]
        may_hand_back_nrhs(a_layout, a, b_layout, b, s1) && may_hand_back_nrhs(
            a_layout,
            a,
            b_layout,
            b,
            s2,
        ) ==> s1.b@ == s2.b@ && same_output(s1.output, s2.output)
}

/// Two results for a single right-hand side are the same: the same error,
/// or the same singular values, solution, rank and residual.
pub open spec fn same_vector_result<E: Scalar>(
    r1: Result<LeastSquaresResult<E, Ix1>, LinalgError>,
    r2: Result<LeastSquaresResult<E, Ix1>, LinalgError>,
) -> bool {
    match (r1, r2) {
        (Ok(x), Ok(y)) => {
            &&& x.singular_values@ == y.singular_values@
            &&& x.solution@ == y.solution@
            &&& x.rank == y.rank
            &&& x.residual_sum_of_squares == y.residual_sum_of_squares
        },
        (Err(e1), Err(e2)) => e1 == e2,
        _ => false,
    }
}

/// Two results for a matrix of right-hand sides are the same: the same
/// error, or the same singular values, solution, rank and residuals.
pub open spec fn same_matrix_result<E: Scalar>(
    r1: Result<LeastSquaresResult<E, Ix2>, LinalgError>,
    r2: Result<LeastSquaresResult<E, Ix2>, LinalgError>,
) -> bool {
    match (r1, r2) {
        (Ok(x), Ok(y)) => {
            &&& x.singular_values@ == y.singular_values@
            &&& x.solution@ == y.solution@
            &&& x.rank == y.rank
            &&& match (x.residual_sum_of_squares, y.residual_sum_of_squares) {
                (Some(t1), Some(t2)) => t1@ == t2@,
                (None, None) => true,
                _ => false,
            }
        },
        (Err(e1), Err(e2)) => e1 == e2,
        _ => false,
    }
}

/// With arithmetic that is a function of its arguments, a sequence has one
/// sum of squares.
pub proof fn lemma_sum_of_squares_is_function<E: Scalar>(s: Seq<E>, t1: E, t2: E)
    requires
        scalar_is_function::<E>(),
        is_sum_of_squares(s, t1),
        is_sum_of_squares(s, t2),
    ensures
        t1 == t2,
    decreases s.len(),
{
    if s.len() != 0 {
        let (before1, sq1): (E, E) = choose|before: E, sq: E|
            {
                &&& is_sum_of_squares(s.drop_last(), before)
                &&& call_ensures(E::square, (s.last(),), sq)
                &&& #[trigger] call_ensures(E::plus, (before, sq), t1)
            };
        let (before2, sq2): (E, E) = choose|before: E, sq: E|
            {
                &&& is_sum_of_squares(s.drop_last(), before)
                &&& call_ensures(E::square, (s.last(),), sq)
                &&& #[trigger] call_ensures(E::plus, (before, sq), t2)
            };
        lemma_sum_of_squares_is_function(s.drop_last(), before1, before2);
    }
}

/// The residual sum of squares for a single right-hand side is there
/// exactly for a system with at least as many rows as columns and full
/// column rank.
pub proof fn lemma_vector_residual_is_present_iff_full_column_rank<
    E: LeastSquaresSvdDivideConquer,
>(a: Array2<E>, b: Array1<E>, r: LeastSquaresResult<E, Ix1>)
    requires
        is_vector_solve(a, b, Ok(r)),
    ensures
        r.residual_sum_of_squares is Some <==> a.dim.0 >= a.dim.1 && r.rank == a.dim.1,
{
}

/// The residual sums of squares for a matrix of right-hand sides are there
/// exactly for a system with at least as many rows as columns and full
/// column rank.
pub proof fn lemma_matrix_residual_is_present_iff_full_column_rank<
    E: LeastSquaresSvdDivideConquer,
>(a: Array2<E>, b: Array2<E>, r: LeastSquaresResult<E, Ix2>)
    requires
        is_matrix_solve(a, b, Ok(r)),
    ensures
        r.residual_sum_of_squares is Some <==> a.dim.0 >= a.dim.1 && r.rank == a.dim.1,
{
}

/// A result for a single right-hand side holds `min(m, n)` singular values
/// and a solution of `n` elements.
pub proof fn lemma_vector_result_shapes<E: LeastSquaresSvdDivideConquer>(
    a: Array2<E>,
    b: Array1<E>,
    r: LeastSquaresResult<E, Ix1>,
)
    requires
        is_vector_solve(a, b, Ok(r)),
    ensures
        r.singular_values@.len() == spec_min(a.dim.0 as int, a.dim.1 as int),
        r.solution@.len() == a.dim.1,
{
}

/// A result for `k` right-hand sides holds `min(m, n)` singular values, a
/// solution of `n` rows and `k` columns and, where it has residuals, `k` of
/// them.
pub proof fn lemma_matrix_result_shapes<E: LeastSquaresSvdDivideConquer>(
    a: Array2<E>,
    b: Array2<E>,
    r: LeastSquaresResult<E, Ix2>,
)
    requires
        is_matrix_solve(a, b, Ok(r)),
    ensures
        r.singular_values@.len() == spec_min(a.dim.0 as int, a.dim.1 as int),
        r.solution.dim == Ix2(a.dim.1, b.dim.1),
        r.residual_sum_of_squares matches Some(totals) ==> totals@.len() == b.dim.1,
{
}

/// A matrix that is packed in row-major order only and a matrix of
/// right-hand sides that is packed in column-major order only share no
/// order, and neither do the two the other way round: solving fails with
/// `IncompatibleShape`.
pub proof fn lemma_mismatched_layouts_fail<E: LeastSquaresSvdDivideConquer>(
    a: Array2<E>,
    b: Array2<E>,
    res: Result<LeastSquaresResult<E, Ix2>, LinalgError>,
)
    requires
        (a.spec_is_row_major() && !a.spec_is_column_major() && b.spec_is_column_major()
            && !b.spec_is_row_major()) || (a.spec_is_column_major() && !a.spec_is_row_major()
            && b.spec_is_row_major() && !b.spec_is_column_major()),
        is_matrix_solve(a, b, res),
    ensures
        res matches Err(e) && e == LinalgError::IncompatibleShape,
{
}

/// Each residual of a matrix of right-hand sides is a residual of its own
/// column taken alone. With arithmetic that is a function of its
/// arguments, it is the residual of any single right-hand side that the
/// solver has left the same as that column.
pub proof fn lemma_residual_is_column_independent<E: Scalar>(
    m: int,
    n: int,
    rank: int,
    b: Seq<Seq<E>>,
    k: int,
    totals: Array1<E>,
    j: int,
    v: Seq<E>,
    r: E,
)
    requires
        0 <= j < k,
        is_residual_array1(m, n, rank, b, k, Some(totals)),
        column(b, j) == v,
        is_residual_scalar(m, n, rank, v, Some(r)),
    ensures
        is_residual_scalar(m, n, rank, column(b, j), Some(totals@[j])),
        scalar_is_function::<E>() ==> totals@[j] == r,
{
    assert(totals@ =~= totals.data@);
    assert(is_residual_scalar(m, n, rank, column(b, j), Some(totals.data@[j])));
    if scalar_is_function::<E>() {
        lemma_sum_of_squares_is_function(v.subrange(n, m), totals.data@[j], r);
    }
}

/// Whatever entry point is called, the result for a single right-hand side
/// is one that `is_vector_solve` admits for the two arrays. With a solver
/// and arithmetic that are functions of their arguments there is only one
/// such result: the borrowed, the consuming and the in-place solve agree.
pub proof fn lemma_vector_entry_points_agree<E: LeastSquaresSvdDivideConquer>(
    a: Array2<E>,
    b: Array1<E>,
    r1: Result<LeastSquaresResult<E, Ix1>, LinalgError>,
    r2: Result<LeastSquaresResult<E, Ix1>, LinalgError>,
)
    requires
        scalar_is_function::<E>(),
        solver_is_function::<E>(),
        is_vector_solve(a, b, r1),
        is_vector_solve(a, b, r2),
    ensures
        same_vector_result(r1, r2),
{
    if let Ok(layout) = spec_vector_layout(a, b) {
        let m = a.dim.0 as int;
        let n = a.dim.1 as int;
        let s1 = choose|s: Solved<E>|
            {
                &&& #[trigger] may_hand_back(layout, a.data@, b.data@, s)
                &&& is_vector_result(
                    m,
                    n,
                    s.output,
                    Array { data: s.b, dim: b.dim, strides: b.strides },
                    r1,
                )
            };
        let s2 = choose|s: Solved<E>|
            {
                &&& #[trigger] may_hand_back(layout, a.data@, b.data@, s)
                &&& is_vector_result(
                    m,
                    n,
                    s.output,
                    Array { data: s.b, dim: b.dim, strides: b.strides },
                    r2,
                )
            };
        assert(s1.b@ == s2.b@ && same_output(s1.output, s2.output));
        let left1: Array1<E> = Array { data: s1.b, dim: b.dim, strides: b.strides };
        let left2: Array1<E> = Array { data: s2.b, dim: b.dim, strides: b.strides };
        assert forall|i: int| left1.offset(i) == left2.offset(i) by {}
        assert(left1@ =~= left2@);
        assert(left1.spec_is_contiguous() == left2.spec_is_contiguous());
        if let (Ok(x), Ok(y)) = (r1, r2) {
            assert forall|i: int| x.singular_values.offset(i) == y.singular_values.offset(i) by {}
            assert(x.singular_values@ =~= y.singular_values@);
            assert forall|i: int| x.solution.offset(i) == y.solution.offset(i) by {}
            assert(x.solution@ =~= y.solution@);
            if let (Some(t1), Some(t2)) = (x.residual_sum_of_squares, y.residual_sum_of_squares) {
                lemma_sum_of_squares_is_function(left1@.subrange(n, m), t1, t2);
            }
        }
    }
}

/// Whatever entry point is called, the result for a matrix of right-hand
/// sides is one that `is_matrix_solve` admits for the two arrays. With a
/// solver and arithmetic that are functions of their arguments there is
/// only one such result: the borrowed, the consuming and the in-place solve
/// agree.
pub proof fn lemma_matrix_entry_points_agree<E: LeastSquaresSvdDivideConquer>(
    a: Array2<E>,
    b: Array2<E>,
    r1: Result<LeastSquaresResult<E, Ix2>, LinalgError>,
    r2: Result<LeastSquaresResult<E, Ix2>, LinalgError>,
)
    requires
        scalar_is_function::<E>(),
        solver_is_function::<E>(),
        is_matrix_solve(a, b, r1),
        is_matrix_solve(a, b, r2),
    ensures
        same_matrix_result(r1, r2),
{
    if let Ok(layouts) = spec_matrix_layouts(a, b) {
        let m = a.dim.0 as int;
        let n = a.dim.1 as int;
        let k = b.dim.1 as int;
        let s1 = choose|s: Solved<E>|
            {
                &&& #[trigger] may_hand_back_nrhs(layouts.0, a.data@, layouts.1, b.data@, s)
                &&& is_matrix_result(
                    m,
                    n,
                    s.output,
                    Array { data: s.b, dim: b.dim, strides: b.strides },
                    r1,
                )
            };
        let s2 = choose|s: Solved<E>|
            {
                &&& #[trigger] may_hand_back_nrhs(layouts.0, a.data@, layouts.1, b.data@, s)
                &&& is_matrix_result(
                    m,
                    n,
                    s.output,
                    Array { data: s.b, dim: b.dim, strides: b.strides },
                    r2,
                )
            };
        assert(s1.b@ == s2.b@ && same_output(s1.output, s2.output));
        let left1: Array2<E> = Array { data: s1.b, dim: b.dim, strides: b.strides };
        let left2: Array2<E> = Array { data: s2.b, dim: b.dim, strides: b.strides };
        assert forall|i: int, j: int| left1.offset(i, j) == left2.offset(i, j) by {}
        assert(left1@ =~~= left2@);
        assert(left1.spec_is_row_major() == left2.spec_is_row_major());
        assert(left1.spec_is_column_major() == left2.spec_is_column_major());
        if let (Ok(x), Ok(y)) = (r1, r2) {
            assert forall|i: int| x.singular_values.offset(i) == y.singular_values.offset(i) by {}
            assert(x.singular_values@ =~= y.singular_values@);
            if let (Some(t1), Some(t2)) = (x.residual_sum_of_squares, y.residual_sum_of_squares) {
                assert forall|j: int| 0 <= j < k implies t1.data@[j] == t2.data@[j] by {
                    assert(is_residual_scalar(
                        m,
                        n,
                        x.rank as int,
                        column(left1@, j),
                        Some(t1.data@[j]),
                    ));
                    assert(is_residual_scalar(
                        m,
                        n,
                        y.rank as int,
                        column(left2@, j),
                        Some(t2.data@[j]),
                    ));
                    lemma_sum_of_squares_is_function(
                        column(left1@, j).subrange(n, m),
                        t1.data@[j],
                        t2.data@[j],
                    );
                }
                assert(t1.data@ =~= t2.data@);
                assert forall|i: int| t1.offset(i) == t2.offset(i) by {}
                assert(t1@ =~= t2@);
            }
        }
    }
}

} // verus!
