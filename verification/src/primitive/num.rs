use vstd::prelude::*;

verus! {

/// Class of the number type, taken from the two highest bits of a type code.
#[derive(Copy, Clone, PartialEq, Eq, Debug, Structural)]
pub enum NumTy {
    Unsigned,
    Signed,
    NonZero,
    Float,
}

impl NumTy {
    /// The two highest bits of a type code that stand for this class.
    pub open spec fn code(self) -> u8 {
        match self {
            NumTy::Unsigned => 0x00,
            NumTy::Signed => 0x40,
            NumTy::NonZero => 0x80,
            NumTy::Float => 0xC0,
        }
    }

    /// The class whose code equals the two highest bits of `id`.
    pub open spec fn spec_from_code(id: u8) -> NumTy {
        let bits = id & 0xC0u8;
        if bits == 0x00 {
            NumTy::Unsigned
        } else if bits == 0x40 {
            NumTy::Signed
        } else if bits == 0x80 {
            NumTy::NonZero
        } else {
            NumTy::Float
        }
    }

    pub fn from_code(id: u8) -> (ty: NumTy)
        ensures
            ty == NumTy::spec_from_code(id),
            ty.code() == id & 0xC0u8,
    {
        let bits = id & 0xC0u8;
        assert(bits == 0x00 || bits == 0x40 || bits == 0x80 || bits == 0xC0) by (bit_vector)
            requires
                bits == id & 0xC0u8,
        ;
        if bits == 0x00 {
            NumTy::Unsigned
        } else if bits == 0x40 {
            NumTy::Signed
        } else if bits == 0x80 {
            NumTy::NonZero
        } else {
            NumTy::Float
        }
    }

    pub fn into_code(self) -> (code: u8)
        ensures
            code == self.code(),
    {
        match self {
            NumTy::Unsigned => 0x00,
            NumTy::Signed => 0x40,
            NumTy::NonZero => 0x80,
            NumTy::Float => 0xC0,
        }
    }
}

/// The way how the size is computed and encoded in the type id.
#[derive(Copy, Clone, PartialEq, Eq, Debug, Structural)]
pub enum NumSizeInner {
    /// Lowest 5 bits contain type size in bytes
    Bytes(u8),
    /// Lowest 5 bits contain a factor defining the size according to the
    /// equation `16 * (2 + factor)`
    Factored(u8),
}

/// Size of a number, as encoded in the lowest six bits of a type code.
#[derive(Copy, Clone, PartialEq, Eq, Debug, Structural)]
pub struct NumSize(pub NumSizeInner);

impl NumSize {
    /// Both forms keep their value within the lowest five bits.
    pub open spec fn wf(self) -> bool {
        match self.0 {
            NumSizeInner::Bytes(b) => b < 0x20,
            NumSizeInner::Factored(f) => f < 0x20,
        }
    }

    /// Size in bytes that this size descriptor stands for.
    pub open spec fn spec_byte_size(self) -> int {
        match self.0 {
            NumSizeInner::Bytes(b) => b as int,
            NumSizeInner::Factored(f) => 16 * (2 + f),
        }
    }

    /// The lowest six bits of a type code for this size.
    pub open spec fn code(self) -> u8 {
        match self.0 {
            NumSizeInner::Bytes(b) => b,
            NumSizeInner::Factored(f) => (f | 0x20u8) as u8,
        }
    }

    /// Byte sizes that have a size descriptor: below 32 bytes directly, from 32 to
    /// 528 bytes in steps of 16.
    pub open spec fn representable(bytes: u16) -> bool {
        bytes < 0x20 || (bytes % 16 == 0 && bytes <= 16 * 33)
    }

    pub open spec fn spec_from_bytes(bytes: u16) -> NumSize {
        if bytes < 0x20 {
            NumSize(NumSizeInner::Bytes(bytes as u8))
        } else {
            NumSize(NumSizeInner::Factored((bytes / 16 - 2) as u8))
        }
    }

    pub fn from_bytes(bytes: u16) -> (size: NumSize)
        requires
            NumSize::representable(bytes),
        ensures
            size.wf(),
            size.spec_byte_size() == bytes,
            size == NumSize::spec_from_bytes(bytes),
    {
        if bytes < 0x20 {
            NumSize(NumSizeInner::Bytes(bytes as u8))
        } else {
            NumSize(NumSizeInner::Factored((bytes / 16 - 2) as u8))
        }
    }

    /// The size descriptor held in the lowest six bits of `id`.
    pub open spec fn spec_from_code(id: u8) -> NumSize {
        if id & 0x20u8 == 0 {
            NumSize(NumSizeInner::Bytes(id & 0x1Fu8))
        } else {
            NumSize(NumSizeInner::Factored(id & 0x1Fu8))
        }
    }

    pub fn from_code(id: u8) -> (size: NumSize)
        ensures
            size == NumSize::spec_from_code(id),
            size.wf(),
    {
        let code = id & 0x1Fu8;
        assert(code < 0x20) by (bit_vector)
            requires
                code == id & 0x1Fu8,
        ;
        if id & 0x20u8 == 0 {
            NumSize(NumSizeInner::Bytes(code))
        } else {
            NumSize(NumSizeInner::Factored(code))
        }
    }

    pub fn into_code(self) -> (code: u8)
        ensures
            code == self.code(),
    {
        match self.0 {
            NumSizeInner::Bytes(bytes) => bytes,
            NumSizeInner::Factored(factor) => factor | 0x20u8,
        }
    }

    pub fn byte_size(self) -> (size: u16)
        requires
            self.wf(),
        ensures
            size == self.spec_byte_size(),
    {
        match self.0 {
            NumSizeInner::Bytes(bytes) => bytes as u16,
            NumSizeInner::Factored(factor) => 16 * (2 + factor as u16),
        }
    }
}

/// Information about numeric type
#[derive(Copy, Clone, PartialEq, Eq, Debug, Structural)]
pub struct NumInfo {
    /// Class of the number
    pub ty: NumTy,
    /// Size of the number, in bytes
    pub size: NumSize,
}

impl NumInfo {
    pub open spec fn wf(self) -> bool {
        self.size.wf()
    }

    /// The type code of this numeric type.
    pub open spec fn code(self) -> u8 {
        self.ty.code() | self.size.code()
    }

    pub open spec fn spec_from_code(id: u8) -> NumInfo {
        NumInfo { ty: NumTy::spec_from_code(id), size: NumSize::spec_from_code(id) }
    }

    pub fn from_code(id: u8) -> (info: NumInfo)
        ensures
            info == NumInfo::spec_from_code(id),
            info.wf(),
    {
        NumInfo { ty: NumTy::from_code(id), size: NumSize::from_code(id) }
    }

    pub fn into_code(self) -> (code: u8)
        ensures
            code == self.code(),
    {
        self.ty.into_code() | self.size.into_code()
    }

    pub fn byte_size(self) -> (size: u16)
        requires
            self.wf(),
        ensures
            size == self.size.spec_byte_size(),
    {
        self.size.byte_size()
    }
}

/// Reading a numeric type back from any type code and writing it again gives the
/// same code.
pub proof fn lemma_code_roundtrip(id: u8)
    ensures
        NumInfo::spec_from_code(id).code() == id,
{
    let info = NumInfo::spec_from_code(id);
    let t = id & 0xC0u8;
    let c = id & 0x1Fu8;
    assert(t == 0x00 || t == 0x40 || t == 0x80 || t == 0xC0) by (bit_vector)
        requires
            t == id & 0xC0u8,
    ;
    if id & 0x20u8 == 0 {
        assert(t | c == id) by (bit_vector)
            requires
                t == id & 0xC0u8,
                c == id & 0x1Fu8,
                id & 0x20u8 == 0,
        ;
    } else {
        assert(t | (c | 0x20u8) == id) by (bit_vector)
            requires
                t == id & 0xC0u8,
                c == id & 0x1Fu8,
                id & 0x20u8 != 0,
        ;
    }
}

/// Writing a well-formed numeric type into a code and reading it back gives the
/// same numeric type.
pub proof fn lemma_info_roundtrip(info: NumInfo)
    requires
        info.wf(),
    ensures
        NumInfo::spec_from_code(info.code()) == info,
{
    let t = info.ty.code();
    assert(t == 0x00 || t == 0x40 || t == 0x80 || t == 0xC0);
    match info.size.0 {
        NumSizeInner::Bytes(b) => {
            assert((t | b) & 0xC0u8 == t && (t | b) & 0x20u8 == 0 && (t | b) & 0x1Fu8 == b)
                by (bit_vector)
                requires
                    t == 0x00 || t == 0x40 || t == 0x80 || t == 0xC0,
                    b < 0x20,
            ;
        },
        NumSizeInner::Factored(f) => {
            let s = f | 0x20u8;
            assert((t | s) & 0xC0u8 == t && (t | s) & 0x20u8 != 0 && (t | s) & 0x1Fu8 == f)
                by (bit_vector)
                requires
                    t == 0x00 || t == 0x40 || t == 0x80 || t == 0xC0,
                    f < 0x20,
                    s == f | 0x20u8,
            ;
        },
    }
}

} // verus!
