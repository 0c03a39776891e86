//! Numeric primitive type codes.
//!
//! A primitive type is encoded in a single byte: the two highest bits select the
//! number class ([`NumTy`]), bit 5 selects how the size is encoded ([`NumSize`]) and
//! the lowest five bits hold either the size in bytes or a size factor.

pub mod num;
pub mod constants;

pub use constants::Primitive;
pub use num::{NumInfo, NumSize, NumTy};
