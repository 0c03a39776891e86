//! Binary encoding of the library data.

pub mod serialize;
pub mod base;
pub mod types;
pub mod semver;
pub mod write;

pub use serialize::DecodeError;
