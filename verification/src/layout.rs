use crate::array::{Array1, Array2};
use crate::error::LinalgError;
use vstd::prelude::*;

verus! {

/// How a packed matrix lies in its buffer.
#[derive(Debug, Clone, Copy, PartialEq, Eq, Structural)]
pub enum MatrixLayout {
    /// Row-major: `row` rows, each `lda` elements long.
    C { row: usize, lda: usize },
    /// Column-major: `col` columns, each `lda` elements long.
    F { col: usize, lda: usize },
}

/// The larger of two numbers.
pub open spec fn spec_max(a: int, b: int) -> int {
    if a >= b {
        a
    } else {
        b
    }
}

/// The smaller of two numbers.
pub open spec fn spec_min(a: int, b: int) -> int {
    if a <= b {
        a
    } else {
        b
    }
}

impl MatrixLayout {
    /// Rows, then columns.
    pub open spec fn spec_size(self) -> (usize, usize) {
        match self {
            MatrixLayout::C { row, lda } => (row, lda),
            MatrixLayout::F { col, lda } => (lda, col),
        }
    }

    /// The number of rows.
    pub open spec fn rows(self) -> int {
        self.spec_size().0 as int
    }

    /// The number of columns.
    pub open spec fn cols(self) -> int {
        self.spec_size().1 as int
    }

    /// Both layouts are row-major, or both are column-major.
    pub open spec fn spec_same_order(self, other: MatrixLayout) -> bool {
        (self is C) == (other is C)
    }

    /// Rows, then columns.
    #[verifier::when_used_as_spec(spec_size)]
    pub fn size(self) -> (r: (usize, usize))
        ensures
            r == self.spec_size(),
    {
        match self {
            MatrixLayout::C { row, lda } => (row, lda),
            MatrixLayout::F { col, lda } => (lda, col),
        }
    }

    /// Whether both layouts are row-major, or both are column-major.
    #[verifier::when_used_as_spec(spec_same_order)]
    pub fn same_order(self, other: MatrixLayout) -> (r: bool)
        ensures
            r == self.spec_same_order(other),
    {
        match (self, other) {
            (MatrixLayout::C { .. }, MatrixLayout::C { .. }) => true,
            (MatrixLayout::F { .. }, MatrixLayout::F { .. }) => true,
            _ => false,
        }
    }
}

impl<E> Array2<E> {
    /// The row-major layout of this shape.
    pub open spec fn row_major_layout(&self) -> MatrixLayout {
        MatrixLayout::C { row: self.dim.0, lda: self.dim.1 }
    }

    /// The column-major layout of this shape.
    pub open spec fn column_major_layout(&self) -> MatrixLayout {
        MatrixLayout::F { col: self.dim.1, lda: self.dim.0 }
    }

    /// The storage order that the strides describe; row-major where they
    /// describe both, and `IncompatibleShape` where they describe neither.
    pub open spec fn spec_layout(&self) -> Result<MatrixLayout, LinalgError> {
        if self.spec_is_row_major() {
            Ok(self.row_major_layout())
        } else if self.spec_is_column_major() {
            Ok(self.column_major_layout())
        } else {
            Err(LinalgError::IncompatibleShape)
        }
    }

    /// The storage order that the strides describe.
    pub fn layout(&self) -> (r: Result<MatrixLayout, LinalgError>)
        ensures
            r == self.spec_layout(),
            r matches Ok(l) ==> l.spec_size() == (self.dim.0, self.dim.1),
    {
        if self.is_row_major() {
            Ok(MatrixLayout::C { row: self.dim.0, lda: self.dim.1 })
        } else if self.is_column_major() {
            Ok(MatrixLayout::F { col: self.dim.1, lda: self.dim.0 })
        } else {
            Err(LinalgError::IncompatibleShape)
        }
    }
}

/// What a system with a single right-hand side is checked for before it is
/// handed to the solver, and the layout it is handed over with.
///
/// In this order: the matrix is packed in row-major or column-major order
/// (`IncompatibleShape`), its buffer has one slot for each element
/// (`MemoryNotCont`), the right-hand side is contiguous (`MemoryNotCont`),
/// and the right-hand side has `max(m, n)` elements (`IncompatibleShape`).
pub open spec fn spec_vector_layout<E>(a: Array2<E>, b: Array1<E>) -> Result<
    MatrixLayout,
    LinalgError,
> {
    if a.spec_layout() is Err {
        Err(LinalgError::IncompatibleShape)
    } else if !a.spec_is_allocated() {
        Err(LinalgError::MemoryNotCont)
    } else if !b.spec_is_contiguous() {
        Err(LinalgError::MemoryNotCont)
    } else if b.dim.0 != spec_max(a.dim.0 as int, a.dim.1 as int) {
        Err(LinalgError::IncompatibleShape)
    } else {
        a.spec_layout()
    }
}

/// Checks a system with a single right-hand side and gives the layout of
/// its matrix.
pub fn vector_layout<E>(a: &Array2<E>, b: &Array1<E>) -> (r: Result<MatrixLayout, LinalgError>)
    ensures
        r == spec_vector_layout(*a, *b),
{
    let layout = match a.layout() {
        Ok(layout) => layout,
        Err(e) => {
            return Err(e);
        },
    };
    if !a.is_allocated() || !b.is_contiguous() {
        return Err(LinalgError::MemoryNotCont);
    }
    let needed = if a.dim.0 >= a.dim.1 {
        a.dim.0
    } else {
        a.dim.1
    };
    if b.dim.0 != needed {
        return Err(LinalgError::IncompatibleShape);
    }
    Ok(layout)
}

/// The storage order that two matrices share; row-major where they share
/// both, and `IncompatibleShape` where they share none.
pub open spec fn spec_common_layouts<E>(a: Array2<E>, b: Array2<E>) -> Result<
    (MatrixLayout, MatrixLayout),
    LinalgError,
> {
    if a.spec_is_row_major() && b.spec_is_row_major() {
        Ok((a.row_major_layout(), b.row_major_layout()))
    } else if a.spec_is_column_major() && b.spec_is_column_major() {
        Ok((a.column_major_layout(), b.column_major_layout()))
    } else {
        Err(LinalgError::IncompatibleShape)
    }
}

/// What a system with a matrix of right-hand sides is checked for before it
/// is handed to the solver, and the layouts it is handed over with.
///
/// In this order: both arrays are packed in one common order
/// (`IncompatibleShape`), each buffer has one slot for each element
/// (`MemoryNotCont`), and the right-hand side has `max(m, n)` rows
/// (`IncompatibleShape`).
pub open spec fn spec_matrix_layouts<E>(a: Array2<E>, b: Array2<E>) -> Result<
    (MatrixLayout, MatrixLayout),
    LinalgError,
> {
    if spec_common_layouts(a, b) is Err {
        Err(LinalgError::IncompatibleShape)
    } else if !a.spec_is_allocated() || !b.spec_is_allocated() {
        Err(LinalgError::MemoryNotCont)
    } else if b.dim.0 != spec_max(a.dim.0 as int, a.dim.1 as int) {
        Err(LinalgError::IncompatibleShape)
    } else {
        spec_common_layouts(a, b)
    }
}

/// Checks a system with a matrix of right-hand sides and gives the layouts
/// of the matrix and of the right-hand side.
pub fn matrix_layouts<E>(a: &Array2<E>, b: &Array2<E>) -> (r: Result<
    (MatrixLayout, MatrixLayout),
    LinalgError,
>)
    ensures
        r == spec_matrix_layouts(*a, *b),
{
    let layouts = if a.is_row_major() && b.is_row_major() {
        (
            MatrixLayout::C { row: a.dim.0, lda: a.dim.1 },
            MatrixLayout::C { row: b.dim.0, lda: b.dim.1 },
        )
    } else if a.is_column_major() && b.is_column_major() {
        (
            MatrixLayout::F { col: a.dim.1, lda: a.dim.0 },
            MatrixLayout::F { col: b.dim.1, lda: b.dim.0 },
        )
    } else {
        return Err(LinalgError::IncompatibleShape);
    };
    if !a.is_allocated() || !b.is_allocated() {
        return Err(LinalgError::MemoryNotCont);
    }
    let needed = if a.dim.0 >= a.dim.1 {
        a.dim.0
    } else {
        a.dim.1
    };
    if b.dim.0 != needed {
        return Err(LinalgError::IncompatibleShape);
    }
    Ok(layouts)
}

} // verus!
