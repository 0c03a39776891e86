use vstd::prelude::*;

use super::num::{NumInfo, NumSize, NumTy, lemma_info_roundtrip};
use crate::util::{decimal, push_decimal, string_from_chars};

verus! {

pub const UNIT: u8 = 0x00;
pub const BYTE: u8 = 0x40;
pub const RESERVED: u8 = 0x80;
pub const F16B: u8 = 0xC0;

pub const U8: u8 = 0x01;
pub const U16: u8 = 0x02;
pub const U24: u8 = 0x03;
pub const U32: u8 = 0x04;
pub const U48: u8 = 0x06;
pub const U64: u8 = 0x08;
pub const U128: u8 = 0x10;
pub const U160: u8 = 0x14;
pub const U256: u8 = 0x20;
pub const U512: u8 = 0x22;
pub const U1024: u8 = 0x26;

pub const I8: u8 = 0x41;
pub const I16: u8 = 0x42;
pub const I24: u8 = 0x43;
pub const I32: u8 = 0x44;
pub const I48: u8 = 0x46;
pub const I64: u8 = 0x48;
pub const I128: u8 = 0x50;
pub const I256: u8 = 0x60;
pub const I512: u8 = 0x62;
pub const I1024: u8 = 0x66;

pub const N8: u8 = 0x81;
pub const N16: u8 = 0x82;
pub const N24: u8 = 0x83;
pub const N32: u8 = 0x84;
pub const N48: u8 = 0x86;
pub const N64: u8 = 0x88;
pub const N128: u8 = 0x90;

pub const F16: u8 = 0xC2;
pub const F32: u8 = 0xC4;
pub const F64: u8 = 0xC8;
pub const F80: u8 = 0xCA;
pub const F128: u8 = 0xD0;
pub const F256: u8 = 0xE0;

/// A primitive type, identified by its one-byte type code.
#[derive(Copy, Clone, PartialEq, Eq, Debug, Hash, Structural)]
pub struct Primitive(pub u8);

impl Primitive {
    /// The primitive of the given class and byte size.
    pub open spec fn spec_with(ty: NumTy, bytes: u16) -> Primitive {
        Primitive(NumInfo { ty, size: NumSize::spec_from_bytes(bytes) }.code())
    }

    fn with(ty: NumTy, bytes: u16) -> (prim: Primitive)
        requires
            NumSize::representable(bytes),
        ensures
            prim == Primitive::spec_with(ty, bytes),
            prim.spec_info().ty == ty,
            prim.spec_byte_size() == bytes,
    {
        let info = NumInfo { ty, size: NumSize::from_bytes(bytes) };
        proof {
            lemma_info_roundtrip(info);
        }
        Primitive(info.into_code())
    }

    pub fn unsigned(bytes: u16) -> (prim: Primitive)
        requires
            NumSize::representable(bytes),
        ensures
            prim == Primitive::spec_with(NumTy::Unsigned, bytes),
            prim.spec_info().ty == NumTy::Unsigned,
            prim.spec_byte_size() == bytes,
    {
        Primitive::with(NumTy::Unsigned, bytes)
    }

    pub fn signed(bytes: u16) -> (prim: Primitive)
        requires
            NumSize::representable(bytes),
        ensures
            prim == Primitive::spec_with(NumTy::Signed, bytes),
            prim.spec_info().ty == NumTy::Signed,
            prim.spec_byte_size() == bytes,
    {
        Primitive::with(NumTy::Signed, bytes)
    }

    pub fn non_zero(bytes: u16) -> (prim: Primitive)
        requires
            NumSize::representable(bytes),
        ensures
            prim == Primitive::spec_with(NumTy::NonZero, bytes),
            prim.spec_info().ty == NumTy::NonZero,
            prim.spec_byte_size() == bytes,
    {
        Primitive::with(NumTy::NonZero, bytes)
    }

    pub fn float(bytes: u16) -> (prim: Primitive)
        requires
            NumSize::representable(bytes),
        ensures
            prim == Primitive::spec_with(NumTy::Float, bytes),
            prim.spec_info().ty == NumTy::Float,
            prim.spec_byte_size() == bytes,
    {
        Primitive::with(NumTy::Float, bytes)
    }

    pub fn from_code(code: u8) -> (prim: Primitive)
        ensures
            prim.0 == code,
    {
        Primitive(code)
    }

    pub fn into_code(self) -> (code: u8)
        ensures
            code == self.0,
    {
        self.0
    }

    pub open spec fn spec_info(self) -> NumInfo {
        NumInfo::spec_from_code(self.0)
    }

    pub fn info(self) -> (info: NumInfo)
        ensures
            info == self.spec_info(),
            info.wf(),
    {
        NumInfo::from_code(self.0)
    }

    pub open spec fn spec_byte_size(self) -> int {
        self.spec_info().size.spec_byte_size()
    }

    pub fn byte_size(self) -> (size: u16)
        ensures
            size == self.spec_byte_size(),
    {
        self.info().byte_size()
    }
}

/// The letter that starts the name of a number of class `ty`.
pub open spec fn num_letter(ty: NumTy) -> char {
    match ty {
        NumTy::Unsigned => 'U',
        NumTy::Signed => 'I',
        NumTy::NonZero => 'N',
        NumTy::Float => 'F',
    }
}

/// The name of a primitive type: `()`, `Byte` and `F16b` for those, else the letter
/// of its class and its size in bits.
pub open spec fn primitive_text(p: Primitive) -> Seq<char> {
    if p.0 == UNIT {
        seq!['(', ')']
    } else if p.0 == BYTE {
        seq!['B', 'y', 't', 'e']
    } else if p.0 == F16B {
        seq!['F', '1', '6', 'b']
    } else {
        seq![num_letter(p.spec_info().ty)] + decimal((p.spec_byte_size() * 8) as nat)
    }
}

impl Primitive {
    /// Appends the name of the type to `out`.
    pub fn push_text(self, out: &mut Vec<char>)
        ensures
            final(out)@ == old(out)@ + primitive_text(self),
    {
        let ghost start = out@;
        if self.0 == UNIT {
            out.push('(');
            out.push(')');
        } else if self.0 == BYTE {
            out.push('B');
            out.push('y');
            out.push('t');
            out.push('e');
        } else if self.0 == F16B {
            out.push('F');
            out.push('1');
            out.push('6');
            out.push('b');
        } else {
            let info = self.info();
            let letter = match info.ty {
                NumTy::Unsigned => 'U',
                NumTy::Signed => 'I',
                NumTy::NonZero => 'N',
                NumTy::Float => 'F',
            };
            out.push(letter);
            let bits = (self.byte_size() as u64) * 8;
            push_decimal(bits, out);
        }
        assert(out@ =~= start + primitive_text(self));
    }

    /// The name of the type.
    pub fn to_string(self) -> (s: String)
        ensures
            s@ == primitive_text(self),
    {
        let mut out: Vec<char> = Vec::new();
        self.push_text(&mut out);
        assert(out@ =~= primitive_text(self));
        string_from_chars(out)
    }
}

} // verus!
