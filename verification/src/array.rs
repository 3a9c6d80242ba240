use crate::error::LinalgError;
use vstd::prelude::*;

verus! {

/// Shape of a one-dimensional array: its length.
#[derive(Debug, Clone, Copy, PartialEq, Eq, Structural)]
pub struct Ix1(pub usize);

/// Shape of a two-dimensional array: rows, then columns.
#[derive(Debug, Clone, Copy, PartialEq, Eq, Structural)]
pub struct Ix2(pub usize, pub usize);

/// A dense array: a flat buffer, a shape, and the distance in the buffer
/// between neighbours along each axis.
///
/// The fields are plain data and carry no invariant. Every function that
/// reads elements either checks the array first or asks for `wf` in its
/// precondition.
#[derive(Debug, Clone, PartialEq)]
pub struct Array<E, I> {
    /// The buffer that holds the elements.
    pub data: Vec<E>,
    /// The number of elements along each axis.
    pub dim: I,
    /// The distance in the buffer between neighbours along each axis.
    pub strides: I,
}

/// A one-dimensional array.
pub type Array1<E> = Array<E, Ix1>;

/// A two-dimensional array.
pub type Array2<E> = Array<E, Ix2>;

/// In a packed matrix of `rows` by `cols` elements every position, counted
/// along the rows or along the columns, falls inside the `rows * cols`
/// slots of the buffer.
pub proof fn lemma_packed_offset_in_range(i: int, j: int, rows: int, cols: int)
    requires
        0 <= i < rows,
        0 <= j < cols,
    ensures
        0 <= i * cols + j < rows * cols,
        0 <= j * rows + i < rows * cols,
{
    assert(i * cols + cols <= rows * cols) by (nonlinear_arith)
        requires
            0 <= i < rows,
            0 < cols,
    ;
    assert(0 <= i * cols) by (nonlinear_arith)
        requires
            0 <= i,
            0 < cols,
    ;
    assert(j * rows + rows <= rows * cols) by (nonlinear_arith)
        requires
            0 <= j < cols,
            0 < rows,
    ;
    assert(0 <= j * rows) by (nonlinear_arith)
        requires
            0 <= j,
            0 < rows,
    ;
}

impl<E> View for Array<E, Ix1> {
    type V = Seq<E>;

    /// The elements in logical order.
    open spec fn view(&self) -> Seq<E> {
        Seq::new(self.dim.0 as nat, |i: int| self.data@[self.offset(i)])
    }
}

impl<E> Array<E, Ix1> {
    /// Where element `i` sits in the buffer.
    pub open spec fn offset(&self, i: int) -> int {
        i * (self.strides.0 as int)
    }

    /// Every element lies inside the buffer.
    pub open spec fn wf(&self) -> bool {
        forall|i: int| 0 <= i < self.dim.0 ==> 0 <= #[trigger] self.offset(i) < self.data@.len()
    }

    /// The buffer holds exactly the elements, in logical order.
    pub open spec fn spec_is_contiguous(&self) -> bool {
        &&& self.data@.len() == self.dim.0
        &&& forall|i: int| 0 <= i < self.dim.0 ==> #[trigger] self.offset(i) == i
    }

    /// The array is the packed array that holds `s`.
    pub open spec fn holds(&self, s: Seq<E>) -> bool {
        &&& self.data@ == s
        &&& self.dim.0 == s.len()
        &&& self.strides.0 == 1
    }

    /// A contiguous array is well formed and reads as its buffer.
    pub proof fn lemma_contiguous_view(&self)
        requires
            self.spec_is_contiguous(),
        ensures
            self.wf(),
            self@ == self.data@,
    {
        assert(self@ =~= self.data@);
    }

    /// The packed array that holds the elements of `data`.
    pub fn from_vec(data: Vec<E>) -> (r: Self)
        ensures
            r.holds(data@),
            r.spec_is_contiguous(),
            r.wf(),
            r@ == data@,
    {
        let n = data.len();
        let r = Array { data, dim: Ix1(n), strides: Ix1(1) };
        proof {
            r.lemma_contiguous_view();
        }
        r
    }

    /// Number of elements.
    pub fn len(&self) -> (r: usize)
        ensures
            r == self.dim.0,
            r == self@.len(),
    {
        self.dim.0
    }

    /// Whether the buffer holds exactly the elements, in logical order.
    pub fn is_contiguous(&self) -> (r: bool)
        ensures
            r == self.spec_is_contiguous(),
    {
        let r = self.data.len() == self.dim.0 && (self.dim.0 <= 1 || self.strides.0 == 1);
        proof {
            if r {
                assert forall|i: int| 0 <= i < self.dim.0 implies #[trigger] self.offset(i)
                    == i by {
                    assert(i * self.strides.0 == i) by (nonlinear_arith)
                        requires
                            i == 0 || self.strides.0 == 1,
                    ;
                }
            } else if self.data.len() == self.dim.0 {
                assert(self.offset(1) == self.strides.0);
            }
        }
        r
    }
}

impl<E: Copy> Array<E, Ix1> {
    /// Element `i`.
    pub fn get(&self, i: usize) -> (r: E)
        requires
            self.wf(),
            i < self.dim.0,
        ensures
            r == self@[i as int],
    {
        assert(0 <= self.offset(i as int) < self.data@.len() == self.data.len());
        self.data[i * self.strides.0]
    }

    /// A packed copy of the first `n` elements.
    pub fn leading(&self, n: usize) -> (r: Self)
        requires
            self.wf(),
            n <= self.dim.0,
        ensures
            r.holds(self@.subrange(0, n as int)),
    {
        let mut data: Vec<E> = Vec::new();
        let mut i: usize = 0;
        while i < n
            invariant
                self.wf(),
                i <= n <= self.dim.0,
                data@ == self@.subrange(0, i as int),
            decreases n - i,
        {
            data.push(self.get(i));
            assert(data@ =~= self@.subrange(0, i + 1));
            i += 1;
        }
        Array { data, dim: Ix1(n), strides: Ix1(1) }
    }

    /// A copy with its own buffer.
    pub fn to_owned(&self) -> (r: Self)
        ensures
            r.data@ == self.data@,
            r.dim == self.dim,
            r.strides == self.strides,
    {
        Array {
            data: vstd::slice::slice_to_vec(self.data.as_slice()),
            dim: self.dim,
            strides: self.strides,
        }
    }
}

impl<E> View for Array<E, Ix2> {
    type V = Seq<Seq<E>>;

    /// The rows in order, each a sequence of its elements.
    open spec fn view(&self) -> Seq<Seq<E>> {
        Seq::new(
            self.dim.0 as nat,
            |i: int| Seq::new(self.dim.1 as nat, |j: int| self.data@[self.offset(i, j)]),
        )
    }
}

impl<E> Array<E, Ix2> {
    /// Where element `(i, j)` sits in the buffer.
    pub open spec fn offset(&self, i: int, j: int) -> int {
        i * (self.strides.0 as int) + j * (self.strides.1 as int)
    }

    /// Every element lies inside the buffer.
    pub open spec fn wf(&self) -> bool {
        forall|i: int, j: int|
            0 <= i < self.dim.0 && 0 <= j < self.dim.1 ==> 0 <= #[trigger] self.offset(i, j)
                < self.data@.len()
    }

    /// Element `(i, j)` sits at `i * cols + j`: the rows lie one after the
    /// other.
    pub open spec fn spec_is_row_major(&self) -> bool {
        forall|i: int, j: int|
            0 <= i < self.dim.0 && 0 <= j < self.dim.1 ==> #[trigger] self.offset(i, j) == i
                * self.dim.1 + j
    }

    /// Element `(i, j)` sits at `j * rows + i`: the columns lie one after the
    /// other.
    pub open spec fn spec_is_column_major(&self) -> bool {
        forall|i: int, j: int|
            0 <= i < self.dim.0 && 0 <= j < self.dim.1 ==> #[trigger] self.offset(i, j) == j
                * self.dim.0 + i
    }

    /// The buffer has one slot for each element and no more.
    pub open spec fn spec_is_allocated(&self) -> bool {
        self.data@.len() == (self.dim.0 as int) * (self.dim.1 as int)
    }

    /// The array is the packed row-major array whose rows are `rows`, each
    /// of length `cols`.
    pub open spec fn holds(&self, rows: Seq<Seq<E>>, cols: nat) -> bool {
        &&& self.dim.0 == rows.len()
        &&& self.dim.1 == cols
        &&& self.strides.0 == cols
        &&& self.strides.1 == 1
        &&& self.data@.len() == rows.len() * cols
        &&& self@ == rows
    }

    /// A packed array, in either order, is well formed.
    pub proof fn lemma_packed_wf(&self)
        requires
            self.spec_is_allocated(),
            self.spec_is_row_major() || self.spec_is_column_major(),
        ensures
            self.wf(),
    {
        assert forall|i: int, j: int| 0 <= i < self.dim.0 && 0 <= j < self.dim.1 implies 0
            <= #[trigger] self.offset(i, j) < self.data@.len() by {
            lemma_packed_offset_in_range(i, j, self.dim.0 as int, self.dim.1 as int);
        }
    }

    /// Number of rows.
    pub fn nrows(&self) -> (r: usize)
        ensures
            r == self.dim.0,
    {
        self.dim.0
    }

    /// Number of columns.
    pub fn ncols(&self) -> (r: usize)
        ensures
            r == self.dim.1,
    {
        self.dim.1
    }

    /// Whether the rows lie one after the other in the buffer.
    pub fn is_row_major(&self) -> (r: bool)
        ensures
            r == self.spec_is_row_major(),
    {
        let rows = self.dim.0;
        let cols = self.dim.1;
        let r = rows == 0 || cols == 0 || ((rows == 1 || self.strides.0 == cols) && (cols == 1
            || self.strides.1 == 1));
        proof {
            if r {
                assert forall|i: int, j: int|
                    0 <= i < self.dim.0 && 0 <= j < self.dim.1 implies #[trigger] self.offset(i, j)
                    == i * self.dim.1 + j by {
                    if rows != 1 {
                        assert(i * self.strides.0 == i * cols);
                    }
                    if cols != 1 {
                        assert(j * self.strides.1 == j) by (nonlinear_arith)
                            requires
                                self.strides.1 == 1,
                        ;
                    }
                }
            } else if rows >= 2 && self.strides.0 != cols {
                assert(self.offset(1, 0) == self.strides.0);
            } else {
                assert(self.offset(0, 1) == self.strides.1);
            }
        }
        r
    }

    /// Whether the columns lie one after the other in the buffer.
    pub fn is_column_major(&self) -> (r: bool)
        ensures
            r == self.spec_is_column_major(),
    {
        let rows = self.dim.0;
        let cols = self.dim.1;
        let r = rows == 0 || cols == 0 || ((rows == 1 || self.strides.0 == 1) && (cols == 1
            || self.strides.1 == rows));
        proof {
            if r {
                assert forall|i: int, j: int|
                    0 <= i < self.dim.0 && 0 <= j < self.dim.1 implies #[trigger] self.offset(i, j)
                    == j * self.dim.0 + i by {
                    if rows != 1 {
                        assert(i * self.strides.0 == i) by (nonlinear_arith)
                            requires
                                self.strides.0 == 1,
                        ;
                    }
                    if cols != 1 {
                        assert(j * self.strides.1 == j * rows);
                    }
                }
            } else if rows >= 2 && self.strides.0 != 1 {
                assert(self.offset(1, 0) == self.strides.0);
            } else {
                assert(self.offset(0, 1) == self.strides.1);
            }
        }
        r
    }

    /// Whether the buffer has one slot for each element and no more.
    pub fn is_allocated(&self) -> (r: bool)
        ensures
            r == self.spec_is_allocated(),
    {
        let count = self.dim.0.checked_mul(self.dim.1);
        assert(self.data@.len() == self.data.len());
        match count {
            Some(c) => self.data.len() == c,
            None => false,
        }
    }

    /// The packed row-major array of the given shape over `data`.
    ///
    /// Fails with `Shape` exactly when `data` does not have one element for
    /// each position.
    pub fn from_shape_vec(shape: (usize, usize), data: Vec<E>) -> (r: Result<Self, LinalgError>)
        ensures
            data@.len() != shape.0 * shape.1 ==> r == Err::<Self, LinalgError>(LinalgError::Shape),
            data@.len() == shape.0 * shape.1 ==> r == Ok::<Self, LinalgError>(
                Array { data, dim: Ix2(shape.0, shape.1), strides: Ix2(shape.1, 1) },
            ),
            r matches Ok(a) ==> a.spec_is_row_major() && a.spec_is_allocated() && a.wf(),
    {
        let a = Array { data, dim: Ix2(shape.0, shape.1), strides: Ix2(shape.1, 1) };
        if a.is_allocated() {
            let row_major = a.is_row_major();
            proof {
                a.lemma_packed_wf();
            }
            Ok(a)
        } else {
            Err(LinalgError::Shape)
        }
    }

    /// The packed column-major array of the given shape over `data`.
    ///
    /// Fails with `Shape` exactly when `data` does not have one element for
    /// each position.
    pub fn from_shape_vec_column_major(shape: (usize, usize), data: Vec<E>) -> (r: Result<
        Self,
        LinalgError,
    >)
        ensures
            data@.len() != shape.0 * shape.1 ==> r == Err::<Self, LinalgError>(LinalgError::Shape),
            data@.len() == shape.0 * shape.1 ==> r == Ok::<Self, LinalgError>(
                Array { data, dim: Ix2(shape.0, shape.1), strides: Ix2(1, shape.0) },
            ),
            r matches Ok(a) ==> a.spec_is_column_major() && a.spec_is_allocated() && a.wf(),
    {
        let a = Array { data, dim: Ix2(shape.0, shape.1), strides: Ix2(1, shape.0) };
        if a.is_allocated() {
            let column_major = a.is_column_major();
            proof {
                a.lemma_packed_wf();
            }
            Ok(a)
        } else {
            Err(LinalgError::Shape)
        }
    }
}

impl<E: Copy> Array<E, Ix2> {
    /// Element `(i, j)`.
    pub fn get(&self, i: usize, j: usize) -> (r: E)
        requires
            self.wf(),
            i < self.dim.0,
            j < self.dim.1,
        ensures
            r == self@[i as int][j as int],
    {
        assert(0 <= self.offset(i as int, j as int) < self.data@.len() == self.data.len());
        assert(0 <= (i as int) * (self.strides.0 as int) && 0 <= (j as int) * (
        self.strides.1 as int)) by (nonlinear_arith);
        self.data[i * self.strides.0 + j * self.strides.1]
    }

    /// A packed row-major copy of the first `n` rows.
    pub fn leading_rows(&self, n: usize) -> (r: Self)
        requires
            self.wf(),
            n <= self.dim.0,
            n * self.dim.1 <= usize::MAX,
        ensures
            r.holds(self@.subrange(0, n as int), self.dim.1 as nat),
    {
        let k = self.dim.1;
        let mut data: Vec<E> = Vec::new();
        let mut i: usize = 0;
        while i < n
            invariant
                self.wf(),
                k == self.dim.1,
                i <= n <= self.dim.0,
                data@.len() == i * k,
                forall|p: int, q: int|
                    0 <= p < i && 0 <= q < k ==> data@[p * k + q] == #[trigger] self@[p][q],
            decreases n - i,
        {
            let mut j: usize = 0;
            while j < k
                invariant
                    self.wf(),
                    k == self.dim.1,
                    i < n <= self.dim.0,
                    j <= k,
                    data@.len() == i * k + j,
                    forall|p: int, q: int|
                        0 <= p < i && 0 <= q < k ==> data@[p * k + q] == #[trigger] self@[p][q],
                    forall|q: int| 0 <= q < j ==> data@[i * k + q] == #[trigger] self@[i as int][q],
                decreases k - j,
            {
                let ghost before = data@;
                data.push(self.get(i, j));
                proof {
                    assert forall|p: int, q: int| 0 <= p < i && 0 <= q < k implies data@[p * k
                        + q] == #[trigger] self@[p][q] by {
                        lemma_packed_offset_in_range(p, q, i as int, k as int);
                        assert(data@[p * k + q] == before[p * k + q]);
                    }
                }
                j += 1;
            }
            proof {
                assert((i + 1) * k == i * k + k) by (nonlinear_arith);
                assert forall|p: int, q: int| 0 <= p < i + 1 && 0 <= q < k implies data@[p * k
                    + q] == #[trigger] self@[p][q] by {
                    if p == i {
                    }
                }
            }
            i += 1;
        }
        let r = Array { data, dim: Ix2(n, k), strides: Ix2(k, 1) };
        proof {
            let rows = self@.subrange(0, n as int);
            assert(r@.len() == rows.len());
            assert forall|p: int| 0 <= p < n implies #[trigger] r@[p] =~= rows[p] by {
                assert forall|q: int| 0 <= q < k implies r@[p][q] == rows[p][q] by {
                    assert(r.offset(p, q) == p * k + q) by (nonlinear_arith)
                        requires
                            r.offset(p, q) == p * (k as int) + q * 1,
                    ;
                    assert(data@[p * k + q] == self@[p][q]);
                }
            }
            assert(r@ =~= rows);
        }
        r
    }

    /// A copy with its own buffer.
    pub fn to_owned(&self) -> (r: Self)
        ensures
            r.data@ == self.data@,
            r.dim == self.dim,
            r.strides == self.strides,
    {
        Array {
            data: vstd::slice::slice_to_vec(self.data.as_slice()),
            dim: self.dim,
            strides: self.strides,
        }
    }
}

} // verus!
