//! Types that may stand as the keys of a map, and their binary encoding.

use vstd::prelude::*;

use crate::ast::serialize::{
    enum_item_parser, lemma_enum_list_at, lemma_pow256_values, lemma_sizing_at, lemma_split, list_bytes,
    parse_byte, parse_le, parse_list, parse_sizing, read_byte, read_enum_variants, read_sizing, read_u16,
    sizing_bytes, valid_variants, variant_enc,
};
use crate::ast::ty::{Cls, EnumVariants};
use crate::encoding::base::{le_bytes, lemma_le_len, lemma_le_roundtrip, write_le};
use crate::encoding::serialize::{DecodeError, Encode};
use crate::primitive::Primitive;
use crate::util::Sizing;

verus! {

/// A type that a map can be keyed by: a primitive, an enumeration, a byte array of a
/// fixed length, or a string or byte string within a size bound.
#[derive(Debug)]
pub enum KeyTy {
    Primitive(Primitive),
    Enum(EnumVariants),
    Array(u16),
    UnicodeStr(Sizing),
    AsciiStr(Sizing),
    Bytes(Sizing),
}

/// What a key type holds, as plain values.
pub enum KeyModel {
    Primitive(u8),
    Enum(Seq<(Seq<u8>, u8)>),
    Array(u16),
    UnicodeStr(Sizing),
    AsciiStr(Sizing),
    Bytes(Sizing),
}

impl KeyTy {
    /// The model of the key type.
    pub open spec fn model(&self) -> KeyModel {
        match *self {
            KeyTy::Primitive(p) => KeyModel::Primitive(p.0),
            KeyTy::Enum(vs) => KeyModel::Enum(vs@),
            KeyTy::Array(len) => KeyModel::Array(len),
            KeyTy::UnicodeStr(s) => KeyModel::UnicodeStr(s),
            KeyTy::AsciiStr(s) => KeyModel::AsciiStr(s),
            KeyTy::Bytes(s) => KeyModel::Bytes(s),
        }
    }
}

/// The class under which a key type is encoded: a byte string is encoded as a list.
pub open spec fn key_cls(m: KeyModel) -> Cls {
    match m {
        KeyModel::Primitive(_) => Cls::Primitive,
        KeyModel::Enum(_) => Cls::Enum,
        KeyModel::Array(_) => Cls::Array,
        KeyModel::UnicodeStr(_) => Cls::Unicode,
        KeyModel::AsciiStr(_) => Cls::AsciiStr,
        KeyModel::Bytes(_) => Cls::List,
    }
}

/// The encoding of a key type: the code of its class, then what it holds.
pub open spec fn key_bytes(m: KeyModel) -> Seq<u8> {
    seq![key_cls(m).code()] + match m {
        KeyModel::Primitive(code) => seq![code],
        KeyModel::Enum(vs) => list_bytes(vs, variant_enc()),
        KeyModel::Array(len) => le_bytes(len as nat, 2),
        KeyModel::UnicodeStr(s) => sizing_bytes(s),
        KeyModel::AsciiStr(s) => sizing_bytes(s),
        KeyModel::Bytes(s) => sizing_bytes(s),
    }
}

/// The models that key types have: the variants of an enumeration are valid.
pub open spec fn valid_key(m: KeyModel) -> bool {
    match m {
        KeyModel::Enum(vs) => valid_variants(vs),
        _ => true,
    }
}

/// Reading a key type at `pos`. A class code above the last class is unknown; a known
/// class that no key type has is refused as a key class.
pub open spec fn parse_key_ty(data: Seq<u8>, pos: int) -> Result<(KeyModel, int), DecodeError> {
    match parse_byte(data, pos) {
        Err(e) => Err(e),
        Ok((cls, p)) => if cls == 0 {
            match parse_byte(data, p) {
                Err(e) => Err(e),
                Ok((code, q)) => Ok((KeyModel::Primitive(code), q)),
            }
        } else if cls == 3 {
            match parse_list(data, p, enum_item_parser()) {
                Err(e) => Err(e),
                Ok((vs, q)) => Ok((KeyModel::Enum(vs), q)),
            }
        } else if cls == 7 {
            match parse_le(data, p, 2) {
                Err(e) => Err(e),
                Ok((len, q)) => Ok((KeyModel::Array(len as u16), q)),
            }
        } else if cls == 1 || cls == 2 || cls == 8 {
            match parse_sizing(data, p) {
                Err(e) => Err(e),
                Ok((s, q)) => Ok((
                    if cls == 1 {
                        KeyModel::UnicodeStr(s)
                    } else if cls == 2 {
                        KeyModel::AsciiStr(s)
                    } else {
                        KeyModel::Bytes(s)
                    },
                    q,
                )),
            }
        } else if cls <= 10 {
            Err(DecodeError::InvalidTyCls(cls))
        } else {
            Err(DecodeError::WrongTyCls(cls))
        },
    }
}

impl KeyTy {
    /// The class under which the key type is encoded.
    pub fn cls(&self) -> (c: Cls)
        ensures
            c == key_cls(self.model()),
    {
        match self {
            KeyTy::Primitive(_) => Cls::Primitive,
            KeyTy::Enum(_) => Cls::Enum,
            KeyTy::Array(_) => Cls::Array,
            KeyTy::UnicodeStr(_) => Cls::Unicode,
            KeyTy::AsciiStr(_) => Cls::AsciiStr,
            KeyTy::Bytes(_) => Cls::List,
        }
    }

    /// Appends the encoding of the key type. What it holds is a valid model.
    pub fn encode_checked(&self, out: &mut Vec<u8>)
        ensures
            final(out)@ == old(out)@ + key_bytes(self.model()),
            valid_key(self.model()),
    {
        let ghost start = out@;
        out.push(self.cls().into_u8());
        match self {
            KeyTy::Primitive(p) => {
                out.push(p.0);
            },
            KeyTy::Enum(vars) => {
                vars.encode_checked(out);
            },
            KeyTy::Array(len) => {
                write_le(*len as u128, 2, out);
            },
            KeyTy::UnicodeStr(s) => {
                s.encode(out);
            },
            KeyTy::AsciiStr(s) => {
                s.encode(out);
            },
            KeyTy::Bytes(s) => {
                s.encode(out);
            },
        }
        assert(out@ =~= start + key_bytes(self.model()));
    }

    /// Reads a key type at position `pos` of `data`, returning it with the position
    /// after it.
    pub fn decode(data: &[u8], pos: usize) -> (res: Result<(KeyTy, usize), DecodeError>)
        requires
            pos <= data@.len(),
        ensures
            res matches Ok((k, p)) ==> parse_key_ty(data@, pos as int) == Ok::<(KeyModel, int), DecodeError>(
                (k.model(), p as int),
            ) && p <= data@.len(),
            res matches Err(e) ==> parse_key_ty(data@, pos as int) == Err::<(KeyModel, int), DecodeError>(e),
    {
        let (cls, p) = match read_byte(data, pos) {
            Ok(r) => r,
            Err(e) => return Err(e),
        };
        if cls == 0 {
            match read_byte(data, p) {
                Ok((code, q)) => Ok((KeyTy::Primitive(Primitive(code)), q)),
                Err(e) => Err(e),
            }
        } else if cls == 3 {
            match read_enum_variants(data, p) {
                Ok((vs, q)) => Ok((KeyTy::Enum(vs), q)),
                Err(e) => Err(e),
            }
        } else if cls == 7 {
            match read_u16(data, p) {
                Ok((len, q)) => Ok((KeyTy::Array(len), q)),
                Err(e) => Err(e),
            }
        } else if cls == 1 || cls == 2 || cls == 8 {
            match read_sizing(data, p) {
                Ok((s, q)) => {
                    let k = if cls == 1 {
                        KeyTy::UnicodeStr(s)
                    } else if cls == 2 {
                        KeyTy::AsciiStr(s)
                    } else {
                        KeyTy::Bytes(s)
                    };
                    Ok((k, q))
                },
                Err(e) => Err(e),
            }
        } else if cls <= 10 {
            Err(DecodeError::InvalidTyCls(cls))
        } else {
            Err(DecodeError::WrongTyCls(cls))
        }
    }
}

impl Encode for KeyTy {
    open spec fn spec_encode(&self) -> Seq<u8> {
        key_bytes(self.model())
    }

    fn encode(&self, out: &mut Vec<u8>) {
        self.encode_checked(out)
    }
}

/// Reading a key type back from its encoding gives the key type and stops right
/// after the encoding, whatever bytes follow it.
pub proof fn lemma_key_ty_roundtrip(m: KeyModel, data: Seq<u8>, pos: int)
    requires
        valid_key(m),
        0 <= pos,
        pos + key_bytes(m).len() <= data.len(),
        data.subrange(pos, pos + key_bytes(m).len()) == key_bytes(m),
    ensures
        parse_key_ty(data, pos) == Ok::<(KeyModel, int), DecodeError>((m, pos + key_bytes(m).len())),
{
    let tag = key_cls(m).code();
    let body = key_bytes(m).drop_first();
    assert(key_bytes(m) =~= seq![tag] + body);
    lemma_split(data, pos, seq![tag], body);
    assert(data.subrange(pos, pos + 1)[0] == data[pos]);
    let p = pos + 1;
    match m {
        KeyModel::Primitive(code) => {
            assert(data.subrange(p, p + 1)[0] == data[p]);
        },
        KeyModel::Enum(vs) => {
            assert(body =~= list_bytes(vs, variant_enc()));
            lemma_enum_list_at(data, p, vs);
        },
        KeyModel::Array(len) => {
            lemma_pow256_values();
            lemma_le_roundtrip(len as nat, 2);
            assert(body =~= le_bytes(len as nat, 2));
        },
        KeyModel::UnicodeStr(sz) => {
            lemma_le_len(sz.min as nat, 8);
            lemma_le_len(sz.max as nat, 8);
            assert(body =~= sizing_bytes(sz));
            lemma_sizing_at(data, p, sz);
        },
        KeyModel::AsciiStr(sz) => {
            lemma_le_len(sz.min as nat, 8);
            lemma_le_len(sz.max as nat, 8);
            assert(body =~= sizing_bytes(sz));
            lemma_sizing_at(data, p, sz);
        },
        KeyModel::Bytes(sz) => {
            lemma_le_len(sz.min as nat, 8);
            lemma_le_len(sz.max as nat, 8);
            assert(body =~= sizing_bytes(sz));
            lemma_sizing_at(data, p, sz);
        },
    }
}

/// The layout of the encoding of a key type: the class code (0 primitive, 3 enum,
/// 7 byte array, 1 Unicode string, 2 ASCII string, 8 byte string), then a primitive's
/// code, an array's length as two little-endian bytes, or a string's minimum and
/// maximum length as eight little-endian bytes each.
pub proof fn lemma_key_layout(k: KeyTy)
    ensures
        key_bytes(k.model()).len() >= 1,
        match k {
            KeyTy::Primitive(p) => key_bytes(k.model()) == seq![0u8, p.0],
            KeyTy::Enum(_) => key_bytes(k.model())[0] == 3,
            KeyTy::Array(n) => key_bytes(k.model()) == seq![7u8, (n % 256) as u8, (n / 256) as u8],
            KeyTy::UnicodeStr(s) => key_bytes(k.model()) == seq![1u8] + le_bytes(s.min as nat, 8) + le_bytes(
                s.max as nat,
                8,
            ),
            KeyTy::AsciiStr(s) => key_bytes(k.model()) == seq![2u8] + le_bytes(s.min as nat, 8) + le_bytes(
                s.max as nat,
                8,
            ),
            KeyTy::Bytes(s) => key_bytes(k.model()) == seq![8u8] + le_bytes(s.min as nat, 8) + le_bytes(
                s.max as nat,
                8,
            ),
        },
{
    let b = key_bytes(k.model());
    match k {
        KeyTy::Primitive(p) => assert(b =~= seq![0u8, p.0]),
        KeyTy::Array(n) => {
            reveal_with_fuel(le_bytes, 3);
            assert(b =~= seq![7u8, (n % 256) as u8, (n / 256) as u8]);
        },
        KeyTy::UnicodeStr(s) => assert(b =~= seq![1u8] + le_bytes(s.min as nat, 8) + le_bytes(s.max as nat, 8)),
        KeyTy::AsciiStr(s) => assert(b =~= seq![2u8] + le_bytes(s.min as nat, 8) + le_bytes(s.max as nat, 8)),
        KeyTy::Bytes(s) => assert(b =~= seq![8u8] + le_bytes(s.min as nat, 8) + le_bytes(s.max as nat, 8)),
        _ => {},
    }
}

} // verus!
