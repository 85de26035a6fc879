//! A dense, fixed-shape matrix library with verified structural and
//! algebraic operations (transpose, axis flip, addition, multiplication),
//! together with a few plain data containers (a rose tree and a small
//! message/markup model) that consumers can use alongside the matrices.
use vstd::prelude::*;

pub mod mat;
pub mod sums;
pub mod laws;
pub mod message;

verus! {

/// Sum of two machine-word counters; the caller keeps the sum in range.
pub fn add(left: usize, right: usize) -> (result: usize)
    requires
        left + right <= usize::MAX,
    ensures
        result == left + right,
{
    left + right
}

} // verus!
