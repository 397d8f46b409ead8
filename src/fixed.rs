use vstd::prelude::*;

verus! {

/// A real quantity held in fixed point with six decimal places:
/// `1_500_000` stands for 1.5, `-13_418_230` for -13.41823.
pub type Fixed = i64;

/// The fixed-point representation of 1.
pub const FIXED_ONE: i64 = 1_000_000;

} // verus!
