//! Derivation of CLDR plural operands.
//!
//! A number is canonicalized into the five plural operands `i`, `v`, `w`,
//! `f` and `t` that drive plural-category selection: the integer part, the
//! visible fraction digit counts with and without trailing zeros, and the
//! fraction digits read as integers with and without trailing zeros. The
//! operands always describe the absolute value of the input; the sign is
//! discarded.
//!
//! Inputs can be machine integers, decimal strings, or fixed-point decimal
//! digit sequences queried by magnitude.

pub mod decimal;
pub mod digits;
pub mod laws;
pub mod operands;
