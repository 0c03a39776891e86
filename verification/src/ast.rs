//! Abstract syntax tree of strict types.

pub mod ty;
pub mod id;
pub mod serialize;
pub mod display;
pub mod path;
pub mod translate;
pub mod iter;
pub mod key;

pub use ty::{Cls, EnumVariants, Variant};
