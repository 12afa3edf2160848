//! Rotated chain products of square matrices: for each start index, the product of the
//! whole chain taken cyclically from there, by a naive and by a memoizing strategy.

pub mod cmd;
pub mod element;
pub mod exact;
pub mod par;
pub mod seq;
pub mod solver;
pub mod task;
pub mod util;
