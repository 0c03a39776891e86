//! Descriptions of data types by the primitive types they are made of.

use vstd::prelude::*;

use crate::collection::{StrictSet, StrictVec};

verus! {

/// Primitive numeric types.
#[derive(Copy, Clone, PartialEq, Eq, PartialOrd, Ord, Hash, Debug, Structural)]
pub enum PrimitiveType {
    U8,
    U16,
    U32,
    U64,
    U128,
    U256,
    U512,
    U1024,
    I8,
    I16,
    I32,
    I64,
    I128,
    I256,
    I512,
    I1024,
    F16b,
    F16,
    F32,
    F64,
    F80,
    F128,
    F256,
    F512,
}

/// A field of a structure: its data type, and whether it may be absent.
pub struct StructField {
    pub optional: bool,
    pub value: DataType,
}

/// The fields of a structure: at least one.
pub struct StructType(pub StrictVec<StructField, 1>);

/// Types of map keys.
#[derive(Copy, Clone, PartialEq, Eq, Debug, Structural)]
pub enum KeyType {
    Primitive(PrimitiveType),
    Fixed(u16, PrimitiveType),
    Bytes,
    Unicode,
}

/// A data type.
pub enum DataType {
    Primitive(PrimitiveType),
    Union(StrictSet<PrimitiveType, 2>),
    Enum(StrictSet<PrimitiveType, 1>),
    Struct(Box<StructType>),
    Fixed(u16, Box<DataType>),
    List(Box<DataType>),
    MapOf(KeyType, Box<DataType>),
}

} // verus!
