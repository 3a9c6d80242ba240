use crate::array::{Array, Array1, Array2, Ix1, Ix2};
use crate::error::LinalgError;
use crate::layout::{
    matrix_layouts, spec_matrix_layouts, spec_max, spec_min, spec_vector_layout, vector_layout,
};
use crate::scalar::{column, column_sum_of_squares, is_sum_of_squares, sum_of_squares, Scalar};
use crate::solver::{
    may_hand_back, may_hand_back_nrhs, LeastSquaresOutput, LeastSquaresSvdDivideConquer, Solved,
};
use vstd::prelude::*;

verus! {

/// The two shapes a right-hand side can have, and with each the shape of
/// the residual: one value for a vector, one value per column for a matrix.
pub trait Ix1OrIx2<E: Scalar> {
    /// What the residual sum of squares is for this shape.
    type ScalarOrArray1;
}

impl<E: Scalar> Ix1OrIx2<E> for Ix1 {
    type ScalarOrArray1 = E;
}

impl<E: Scalar> Ix1OrIx2<E> for Ix2 {
    type ScalarOrArray1 = Array1<E>;
}

/// The result of a least-squares computation for a right-hand side of
/// shape `I`.
#[derive(Debug, Clone)]
pub struct LeastSquaresResult<E: Scalar, I: Ix1OrIx2<E>> {
    /// The singular values of the matrix `A` in `A x = b`.
    pub singular_values: Array1<E::Real>,
    /// The `x` that makes the 2-norm of `b - A x` smallest.
    pub solution: Array<E, I>,
    /// The rank of `A`.
    pub rank: i32,
    /// The sum of the squared residuals, where `A` has at least as many
    /// rows as columns and full column rank: one value for a vector `b`,
    /// one per column for a matrix `b`.
    pub residual_sum_of_squares: Option<I::ScalarOrArray1>,
}

/// The system has a residual sum of squares: it has at least as many
/// equations as unknowns, and full column rank.
pub open spec fn has_residual(m: int, n: int, rank: int) -> bool {
    m >= n && rank == n
}

/// `r` is what the residual of a single right-hand side may be: absent
/// without full column rank or with fewer rows than columns, and else a
/// sum of the squares of rows `n..m` of the overwritten right-hand side.
pub open spec fn is_residual_scalar<E: Scalar>(
    m: int,
    n: int,
    rank: int,
    b: Seq<E>,
    r: Option<E>,
) -> bool {
    if has_residual(m, n, rank) {
        r matches Some(total) && is_sum_of_squares(b.subrange(n, m), total)
    } else {
        r is None
    }
}

/// `r` is what the residuals of a matrix of right-hand sides may be:
/// absent where a single one would be, and else a packed array that holds
/// for each column what its residual alone may be.
pub open spec fn is_residual_array1<E: Scalar>(
    m: int,
    n: int,
    rank: int,
    b: Seq<Seq<E>>,
    k: int,
    r: Option<Array1<E>>,
) -> bool {
    if has_residual(m, n, rank) {
        r matches Some(totals) && totals.holds(totals.data@) && totals.dim.0 == k && forall|
            j: int,
        |
            0 <= j < k ==> is_residual_scalar(
                m,
                n,
                rank,
                column(b, j),
                Some(#[trigger] totals.data@[j]),
            )
    } else {
        r is None
    }
}

/// The residual sum of squares for a single right-hand side, from the
/// buffer that the solver has overwritten.
pub fn compute_residual_scalar<E: Scalar>(m: usize, n: usize, rank: i32, b: &Array1<E>) -> (r:
    Option<E>)
    requires
        b.wf(),
        has_residual(m as int, n as int, rank as int) ==> m <= b.dim.0,
    ensures
        is_residual_scalar(m as int, n as int, rank as int, b@, r),
{
    if m < n || rank < 0 || n != rank as usize {
        return None;
    }
    Some(sum_of_squares(b, n, m))
}

/// The residual sums of squares for a matrix of right-hand sides, one per
/// column, from the buffer that the solver has overwritten.
pub fn compute_residual_array1<E: Scalar>(m: usize, n: usize, rank: i32, b: &Array2<E>) -> (r:
    Option<Array1<E>>)
    requires
        b.wf(),
        has_residual(m as int, n as int, rank as int) ==> m <= b.dim.0,
    ensures
        is_residual_array1(m as int, n as int, rank as int, b@, b.dim.1 as int, r),
{
    if m < n || rank < 0 || n != rank as usize {
        return None;
    }
    let k = b.dim.1;
    let mut totals: Vec<E> = Vec::new();
    let mut j: usize = 0;
    while j < k
        invariant
            b.wf(),
            k == b.dim.1,
            n <= m <= b.dim.0,
            j <= k,
            totals@.len() == j,
            forall|c: int|
                0 <= c < j ==> is_sum_of_squares(
                    column(b@, c).subrange(n as int, m as int),
                    #[trigger] totals@[c],
                ),
        decreases k - j,
    {
        let total = column_sum_of_squares(b, j, n, m);
        totals.push(total);
        j += 1;
    }
    Some(Array1::from_vec(totals))
}

/// `res` is what is returned for a single right-hand side once the solver
/// has handed back `output` and has left `b` in the buffer of the
/// right-hand side.
///
/// A failure of the solver is passed on with its code. A count of singular
/// values other than `min(m, n)`, or a buffer that no longer is a packed
/// vector of `max(m, n)` elements, is a `Shape` error. Otherwise the result
/// holds the singular values and the rank as the solver gave them, the first
/// `n` elements of `b` as the solution, and the residual of `b`.
pub open spec fn is_vector_result<E: Scalar>(
    m: int,
    n: int,
    output: Result<LeastSquaresOutput<E>, i32>,
    b: Array1<E>,
    res: Result<LeastSquaresResult<E, Ix1>, LinalgError>,
) -> bool {
    match output {
        Err(code) => res matches Err(e) && e == (LinalgError::Lapack { return_code: code }),
        Ok(out) => if out.singular_values@.len() != spec_min(m, n) || !b.spec_is_contiguous()
            || b.dim.0 != spec_max(m, n) {
            res matches Err(e) && e == LinalgError::Shape
        } else {
            res matches Ok(r) && {
                &&& r.singular_values.holds(out.singular_values@)
                &&& r.rank == out.rank
                &&& r.solution.holds(b@.subrange(0, n))
                &&& is_residual_scalar(m, n, out.rank as int, b@, r.residual_sum_of_squares)
            }
        },
    }
}

/// `res` is what is returned for a matrix of right-hand sides once the
/// solver has handed back `output` and has left `b` in the buffer of the
/// right-hand side.
///
/// As for a single right-hand side, with the first `n` rows of `b` as the
/// solution, packed in row-major order, and one residual for each column.
pub open spec fn is_matrix_result<E: Scalar>(
    m: int,
    n: int,
    output: Result<LeastSquaresOutput<E>, i32>,
    b: Array2<E>,
    res: Result<LeastSquaresResult<E, Ix2>, LinalgError>,
) -> bool {
    match output {
        Err(code) => res matches Err(e) && e == (LinalgError::Lapack { return_code: code }),
        Ok(out) => if out.singular_values@.len() != spec_min(m, n) || b.spec_layout() is Err
            || !b.spec_is_allocated() || b.dim.0 != spec_max(m, n) {
            res matches Err(e) && e == LinalgError::Shape
        } else {
            res matches Ok(r) && {
                &&& r.singular_values.holds(out.singular_values@)
                &&& r.rank == out.rank
                &&& r.solution.holds(b@.subrange(0, n), b.dim.1 as nat)
                &&& is_residual_array1(
                    m,
                    n,
                    out.rank as int,
                    b@,
                    b.dim.1 as int,
                    r.residual_sum_of_squares,
                )
            }
        },
    }
}

/// Turns what the solver handed back for a single right-hand side into the
/// result: `b` is the right-hand side as the solver has left it.
pub fn extract_vector<E: Scalar>(
    m: usize,
    n: usize,
    output: Result<LeastSquaresOutput<E>, i32>,
    b: &Array1<E>,
) -> (res: Result<LeastSquaresResult<E, Ix1>, LinalgError>)
    ensures
        is_vector_result(m as int, n as int, output, *b, res),
{
    let out = match output {
        Ok(out) => out,
        Err(code) => {
            return Err(LinalgError::Lapack { return_code: code });
        },
    };
    let (least, most) = if m <= n {
        (m, n)
    } else {
        (n, m)
    };
    if out.singular_values.len() != least || !b.is_contiguous() || b.dim.0 != most {
        return Err(LinalgError::Shape);
    }
    proof {
        b.lemma_contiguous_view();
    }
    let solution = b.leading(n);
    let residual_sum_of_squares = compute_residual_scalar(m, n, out.rank, b);
    let LeastSquaresOutput { singular_values, rank } = out;
    Ok(
        LeastSquaresResult {
            singular_values: Array1::from_vec(singular_values),
            solution,
            rank,
            residual_sum_of_squares,
        },
    )
}

/// Turns what the solver handed back for a matrix of right-hand sides into
/// the result: `b` is the right-hand side as the solver has left it.
pub fn extract_matrix<E: Scalar>(
    m: usize,
    n: usize,
    output: Result<LeastSquaresOutput<E>, i32>,
    b: &Array2<E>,
) -> (res: Result<LeastSquaresResult<E, Ix2>, LinalgError>)
    ensures
        is_matrix_result(m as int, n as int, output, *b, res),
{
    let out = match output {
        Ok(out) => out,
        Err(code) => {
            return Err(LinalgError::Lapack { return_code: code });
        },
    };
    let (least, most) = if m <= n {
        (m, n)
    } else {
        (n, m)
    };
    if out.singular_values.len() != least || b.layout().is_err() || !b.is_allocated() || b.dim.0
        != most {
        return Err(LinalgError::Shape);
    }
    proof {
        b.lemma_packed_wf();
        assert((n as int) * (b.dim.1 as int) <= (b.dim.0 as int) * (b.dim.1 as int))
            by (nonlinear_arith)
            requires
                n <= b.dim.0,
        ;
        assert(b.data@.len() == b.data.len());
    }
    let solution = b.leading_rows(n);
    let residual_sum_of_squares = compute_residual_array1(m, n, out.rank, b);
    let LeastSquaresOutput { singular_values, rank } = out;
    Ok(
        LeastSquaresResult {
            singular_values: Array1::from_vec(singular_values),
            solution,
            rank,
            residual_sum_of_squares,
        },
    )
}

/// `res` is what solving `a x = b` for a single right-hand side may
/// return.
///
/// Where the check of the two arrays fails, its error. Otherwise what
/// `is_vector_result` describes, for something that the solver may hand
/// back when it is given the layout of `a` and the two buffers.
pub open spec fn is_vector_solve<E: LeastSquaresSvdDivideConquer>(
    a: Array2<E>,
    b: Array1<E>,
    res: Result<LeastSquaresResult<E, Ix1>, LinalgError>,
) -> bool {
    match spec_vector_layout(a, b) {
        Err(e) => res matches Err(e2) && e2 == e,
        Ok(layout) => exists|s: Solved<E>|
            {
                &&& #[trigger] may_hand_back(layout, a.data@, b.data@, s)
                &&& is_vector_result(
                    a.dim.0 as int,
                    a.dim.1 as int,
                    s.output,
                    Array { data: s.b, dim: b.dim, strides: b.strides },
                    res,
                )
            },
    }
}

/// `res` is what solving `a x = b` for a matrix of right-hand sides may
/// return.
///
/// Where the check of the two arrays fails, its error. Otherwise what
/// `is_matrix_result` describes, for something that the solver may hand
/// back when it is given the layouts and the two buffers.
pub open spec fn is_matrix_solve<E: LeastSquaresSvdDivideConquer>(
    a: Array2<E>,
    b: Array2<E>,
    res: Result<LeastSquaresResult<E, Ix2>, LinalgError>,
) -> bool {
    match spec_matrix_layouts(a, b) {
        Err(e) => res matches Err(e2) && e2 == e,
        Ok(layouts) => exists|s: Solved<E>|
            {
                &&& #[trigger] may_hand_back_nrhs(layouts.0, a.data@, layouts.1, b.data@, s)
                &&& is_matrix_result(
                    a.dim.0 as int,
                    a.dim.1 as int,
                    s.output,
                    Array { data: s.b, dim: b.dim, strides: b.strides },
                    res,
                )
            },
    }
}

/// What solving may return depends on the two arrays only through their
/// shapes, their strides and the contents of their buffers.
pub proof fn lemma_vector_solve_reads_contents<E: LeastSquaresSvdDivideConquer>(
    a1: Array2<E>,
    b1: Array1<E>,
    a2: Array2<E>,
    b2: Array1<E>,
    res: Result<LeastSquaresResult<E, Ix1>, LinalgError>,
)
    requires
        a1.data@ == a2.data@,
        a1.dim == a2.dim,
        a1.strides == a2.strides,
        b1.data@ == b2.data@,
        b1.dim == b2.dim,
        b1.strides == b2.strides,
        is_vector_solve(a1, b1, res),
    ensures
        is_vector_solve(a2, b2, res),
{
    assert forall|i: int, j: int| a1.offset(i, j) == a2.offset(i, j) by {}
    assert forall|i: int| b1.offset(i) == b2.offset(i) by {}
    assert(a1.spec_is_row_major() == a2.spec_is_row_major());
    assert(a1.spec_is_column_major() == a2.spec_is_column_major());
    assert(b1.spec_is_contiguous() == b2.spec_is_contiguous());
}

/// What solving may return depends on the two arrays only through their
/// shapes, their strides and the contents of their buffers.
pub proof fn lemma_matrix_solve_reads_contents<E: LeastSquaresSvdDivideConquer>(
    a1: Array2<E>,
    b1: Array2<E>,
    a2: Array2<E>,
    b2: Array2<E>,
    res: Result<LeastSquaresResult<E, Ix2>, LinalgError>,
)
    requires
        a1.data@ == a2.data@,
        a1.dim == a2.dim,
        a1.strides == a2.strides,
        b1.data@ == b2.data@,
        b1.dim == b2.dim,
        b1.strides == b2.strides,
        is_matrix_solve(a1, b1, res),
    ensures
        is_matrix_solve(a2, b2, res),
{
    assert forall|i: int, j: int| a1.offset(i, j) == a2.offset(i, j) by {}
    assert forall|i: int, j: int| b1.offset(i, j) == b2.offset(i, j) by {}
    assert(a1.spec_is_row_major() == a2.spec_is_row_major());
    assert(a1.spec_is_column_major() == a2.spec_is_column_major());
    assert(b1.spec_is_row_major() == b2.spec_is_row_major());
    assert(b1.spec_is_column_major() == b2.spec_is_column_major());
}

/// Solves a least-squares problem without touching its arguments.
pub trait LeastSquaresSvd<E, I> where E: LeastSquaresSvdDivideConquer, I: Ix1OrIx2<E> {
    /// Solves `A x = rhs` for the `x` of least residual, on copies of `A`
    /// and `rhs`.
    fn least_squares(&self, rhs: &Array<E, I>) -> Result<LeastSquaresResult<E, I>, LinalgError>;
}

/// Solves a least-squares problem and uses up its arguments.
pub trait LeastSquaresSvdInto<E, I> where E: LeastSquaresSvdDivideConquer, I: Ix1OrIx2<E> {
    /// Solves `A x = rhs` for the `x` of least residual, in the buffers of
    /// `A` and `rhs`.
    fn least_squares_into(self, rhs: Array<E, I>) -> Result<LeastSquaresResult<E, I>, LinalgError>;
}

/// Solves a least-squares problem and overwrites its arguments.
pub trait LeastSquaresSvdInPlace<E, I> where E: LeastSquaresSvdDivideConquer, I: Ix1OrIx2<E> {
    /// Solves `A x = rhs` for the `x` of least residual, in the buffers of
    /// `A` and `rhs`, which afterwards hold what the solver left there.
    fn least_squares_in_place(&mut self, rhs: &mut Array<E, I>) -> Result<
        LeastSquaresResult<E, I>,
        LinalgError,
    >;
}

impl<E: LeastSquaresSvdDivideConquer> LeastSquaresSvdInPlace<E, Ix1> for Array2<E> {
    /// The result is one that `is_vector_solve` admits. Where the check of
    /// the arrays fails, both are left as they were. Otherwise both keep
    /// their shape and strides, and they now have the buffers that the
    /// solver handed back for the buffers they had.
    fn least_squares_in_place(&mut self, rhs: &mut Array1<E>) -> (res: Result<
        LeastSquaresResult<E, Ix1>,
        LinalgError,
    >)
        ensures
            is_vector_solve(*old(self), *old(rhs), res),
            final(self).dim == old(self).dim,
            final(self).strides == old(self).strides,
            final(rhs).dim == old(rhs).dim,
            final(rhs).strides == old(rhs).strides,
            match spec_vector_layout(*old(self), *old(rhs)) {
                Err(e) => *final(self) == *old(self) && *final(rhs) == *old(rhs),
                Ok(layout) => exists|output: Result<LeastSquaresOutput<E>, i32>|
                    {
                        &&& #[trigger] may_hand_back(
                            layout,
                            old(self).data@,
                            old(rhs).data@,
                            (Solved { a: final(self).data, b: final(rhs).data, output }),
                        )
                        &&& is_vector_result(
                            old(self).dim.0 as int,
                            old(self).dim.1 as int,
                            output,
                            *final(rhs),
                            res,
                        )
                    },
            },
    {
        let layout = match vector_layout(self, rhs) {
            Ok(layout) => layout,
            Err(e) => {
                return Err(e);
            },
        };
        let m = self.dim.0;
        let n = self.dim.1;
        let mut a_buf: Vec<E> = Vec::new();
        let mut b_buf: Vec<E> = Vec::new();
        core::mem::swap(&mut self.data, &mut a_buf);
        core::mem::swap(&mut rhs.data, &mut b_buf);
        let s = E::least_squares(layout, a_buf, b_buf);
        let Solved { a, b, output } = s;
        self.data = a;
        rhs.data = b;
        let res = extract_vector(m, n, output, rhs);
        proof {
            let handed_back = Solved { a: self.data, b: rhs.data, output };
            assert(call_ensures(E::least_squares, (layout, a_buf, b_buf), handed_back));
            assert(may_hand_back(layout, old(self).data@, old(rhs).data@, handed_back));
        }
        res
    }
}

impl<E: LeastSquaresSvdDivideConquer> LeastSquaresSvdInto<E, Ix1> for Array2<E> {
    /// The result is one that `is_vector_solve` admits.
    fn least_squares_into(self, rhs: Array1<E>) -> (res: Result<
        LeastSquaresResult<E, Ix1>,
        LinalgError,
    >)
        ensures
            is_vector_solve(self, rhs, res),
    {
        let mut a = self;
        let mut b = rhs;
        a.least_squares_in_place(&mut b)
    }
}

impl<E: LeastSquaresSvdDivideConquer> LeastSquaresSvd<E, Ix1> for Array2<E> {
    /// The result is one that `is_vector_solve` admits.
    fn least_squares(&self, rhs: &Array1<E>) -> (res: Result<
        LeastSquaresResult<E, Ix1>,
        LinalgError,
    >)
        ensures
            is_vector_solve(*self, *rhs, res),
    {
        let a = self.to_owned();
        let b = rhs.to_owned();
        let res = a.least_squares_into(b);
        proof {
            lemma_vector_solve_reads_contents(a, b, *self, *rhs, res);
        }
        res
    }
}

impl<E: LeastSquaresSvdDivideConquer> LeastSquaresSvdInPlace<E, Ix2> for Array2<E> {
    /// The result is one that `is_matrix_solve` admits. Where the check of
    /// the arrays fails, both are left as they were. Otherwise both keep
    /// their shape and strides, and they now have the buffers that the
    /// solver handed back for the buffers they had.
    fn least_squares_in_place(&mut self, rhs: &mut Array2<E>) -> (res: Result<
        LeastSquaresResult<E, Ix2>,
        LinalgError,
    >)
        ensures
            is_matrix_solve(*old(self), *old(rhs), res),
            final(self).dim == old(self).dim,
            final(self).strides == old(self).strides,
            final(rhs).dim == old(rhs).dim,
            final(rhs).strides == old(rhs).strides,
            match spec_matrix_layouts(*old(self), *old(rhs)) {
                Err(e) => *final(self) == *old(self) && *final(rhs) == *old(rhs),
                Ok(layouts) => exists|output: Result<LeastSquaresOutput<E>, i32>|
                    {
                        &&& #[trigger] may_hand_back_nrhs(
                            layouts.0,
                            old(self).data@,
                            layouts.1,
                            old(rhs).data@,
                            (Solved { a: final(self).data, b: final(rhs).data, output }),
                        )
                        &&& is_matrix_result(
                            old(self).dim.0 as int,
                            old(self).dim.1 as int,
                            output,
                            *final(rhs),
                            res,
                        )
                    },
            },
    {
        let (a_layout, b_layout) = match matrix_layouts(self, rhs) {
            Ok(layouts) => layouts,
            Err(e) => {
                return Err(e);
            },
        };
        let m = self.dim.0;
        let n = self.dim.1;
        let mut a_buf: Vec<E> = Vec::new();
        let mut b_buf: Vec<E> = Vec::new();
        core::mem::swap(&mut self.data, &mut a_buf);
        core::mem::swap(&mut rhs.data, &mut b_buf);
        let s = E::least_squares_nrhs(a_layout, a_buf, b_layout, b_buf);
        let Solved { a, b, output } = s;
        self.data = a;
        rhs.data = b;
        let res = extract_matrix(m, n, output, rhs);
        proof {
            let handed_back = Solved { a: self.data, b: rhs.data, output };
            assert(call_ensures(
                E::least_squares_nrhs,
                (a_layout, a_buf, b_layout, b_buf),
                handed_back,
            ));
            assert(may_hand_back_nrhs(
                a_layout,
                old(self).data@,
                b_layout,
                old(rhs).data@,
                handed_back,
            ));
        }
        res
    }
}

impl<E: LeastSquaresSvdDivideConquer> LeastSquaresSvdInto<E, Ix2> for Array2<E> {
    /// The result is one that `is_matrix_solve` admits.
    fn least_squares_into(self, rhs: Array2<E>) -> (res: Result<
        LeastSquaresResult<E, Ix2>,
        LinalgError,
    >)
        ensures
            is_matrix_solve(self, rhs, res),
    {
        let mut a = self;
        let mut b = rhs;
        a.least_squares_in_place(&mut b)
    }
}

impl<E: LeastSquaresSvdDivideConquer> LeastSquaresSvd<E, Ix2> for Array2<E> {
    /// The result is one that `is_matrix_solve` admits.
    fn least_squares(&self, rhs: &Array2<E>) -> (res: Result<
        LeastSquaresResult<E, Ix2>,
        LinalgError,
    >)
        ensures
            is_matrix_solve(*self, *rhs, res),
    {
        let a = self.to_owned();
        let b = rhs.to_owned();
        let res = a.least_squares_into(b);
        proof {
            lemma_matrix_solve_reads_contents(a, b, *self, *rhs, res);
        }
        res
    }
}

} // verus!
