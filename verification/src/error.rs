use vstd::prelude::*;

verus! {

/// Why a least-squares call did not produce a result.
#[derive(Debug, Clone, Copy, PartialEq, Eq, Structural)]
pub enum LinalgError {
    /// The matrix and the right-hand side do not fit together: they share no
    /// storage order, or the right-hand side has the wrong number of rows.
    IncompatibleShape,
    /// The backing buffer of an array is not one contiguous, fully allocated
    /// run of elements.
    MemoryNotCont,
    /// The solver reported a failure; its code is passed on untouched.
    Lapack { return_code: i32 },
    /// The solver handed back a different number of values than the shape of
    /// the system calls for.
    Shape,
}

} // verus!
