//! Memory layout of strict types: sizes, compatibility and layout descriptions.

pub mod size;
pub mod memory;
pub mod vesper;
pub mod id;
pub mod info;

pub use memory::{AtomicItem, Compat, Compatibility, ItemsSorting};
pub use size::TypeSize;
pub use vesper::{AttrExpr, LenRange, Pred};
pub use id::{MemCommit, MemId};
