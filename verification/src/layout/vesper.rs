use vstd::prelude::*;

use crate::ast::ty::Cls;
use crate::util::{decimal, push_decimal, push_str, string_from_chars, Sizing};

verus! {

/// Predicate of a type layout description.
#[derive(Copy, Clone, PartialEq, Eq, Debug, Structural)]
pub enum Pred {
    /// Type alias
    Is,
    Tuple,
    Rec,
    Enum,
    Union,
    // Composites
    Char,
    Str,
    Ascii,
    Bytes,
    // Collections:
    Array,
    List,
    SetOf,
    MapOf,
}

impl Pred {
    /// The predicate as written in layout descriptions.
    pub open spec fn spec_name(self) -> Seq<char> {
        match self {
            Pred::Is => seq!['i', 's'],
            Pred::Tuple => seq!['t', 'u', 'p', 'l', 'e'],
            Pred::Rec => seq!['r', 'e', 'c'],
            Pred::Enum => seq!['e', 'n', 'u', 'm'],
            Pred::Union => seq!['u', 'n', 'i', 'o', 'n'],
            Pred::Char => seq!['c', 'h', 'a', 'r'],
            Pred::Str => seq!['s', 't', 'r'],
            Pred::Ascii => seq!['a', 's', 'c', 'i', 'i'],
            Pred::Bytes => seq!['b', 'y', 't', 'e', 's'],
            Pred::Array => seq!['a', 'r', 'r', 'a', 'y'],
            Pred::List => seq!['l', 'i', 's', 't'],
            Pred::SetOf => seq!['s', 'e', 't'],
            Pred::MapOf => seq!['m', 'a', 'p'],
        }
    }

    pub fn as_str(self) -> (s: &'static str)
        ensures
            s@ == self.spec_name(),
    {
        match self {
            Pred::Is => {
                let s = "is";
                proof {
                    reveal_strlit("is");
                }
                s
            },
            Pred::Tuple => {
                let s = "tuple";
                proof {
                    reveal_strlit("tuple");
                }
                s
            },
            Pred::Rec => {
                let s = "rec";
                proof {
                    reveal_strlit("rec");
                }
                s
            },
            Pred::Enum => {
                let s = "enum";
                proof {
                    reveal_strlit("enum");
                }
                s
            },
            Pred::Union => {
                let s = "union";
                proof {
                    reveal_strlit("union");
                }
                s
            },
            Pred::Char => {
                let s = "char";
                proof {
                    reveal_strlit("char");
                }
                s
            },
            Pred::Str => {
                let s = "str";
                proof {
                    reveal_strlit("str");
                }
                s
            },
            Pred::Ascii => {
                let s = "ascii";
                proof {
                    reveal_strlit("ascii");
                }
                s
            },
            Pred::Bytes => {
                let s = "bytes";
                proof {
                    reveal_strlit("bytes");
                }
                s
            },
            Pred::Array => {
                let s = "array";
                proof {
                    reveal_strlit("array");
                }
                s
            },
            Pred::List => {
                let s = "list";
                proof {
                    reveal_strlit("list");
                }
                s
            },
            Pred::SetOf => {
                let s = "set";
                proof {
                    reveal_strlit("set");
                }
                s
            },
            Pred::MapOf => {
                let s = "map";
                proof {
                    reveal_strlit("map");
                }
                s
            },
        }
    }

    /// The predicate that describes a type of the given class.
    pub open spec fn spec_from_cls(cls: Cls) -> Pred {
        match cls {
            Cls::Primitive => Pred::Is,
            Cls::Unicode => Pred::Str,
            Cls::AsciiStr => Pred::Ascii,
            Cls::Enum => Pred::Enum,
            Cls::Union => Pred::Union,
            Cls::Struct => Pred::Rec,
            Cls::Tuple => Pred::Tuple,
            Cls::Array => Pred::Array,
            Cls::List => Pred::List,
            Cls::SetOf => Pred::SetOf,
            Cls::MapOf => Pred::MapOf,
        }
    }

    pub fn from_cls(cls: Cls) -> (p: Pred)
        ensures
            p == Pred::spec_from_cls(cls),
    {
        match cls {
            Cls::Primitive => Pred::Is,
            Cls::Unicode => Pred::Str,
            Cls::AsciiStr => Pred::Ascii,
            Cls::Enum => Pred::Enum,
            Cls::Union => Pred::Union,
            Cls::Struct => Pred::Rec,
            Cls::Tuple => Pred::Tuple,
            Cls::Array => Pred::Array,
            Cls::List => Pred::List,
            Cls::SetOf => Pred::SetOf,
            Cls::MapOf => Pred::MapOf,
        }
    }
}

/// A range of lengths, from `start` up to `end`.
#[derive(Copy, Clone, PartialEq, Eq, Debug, Structural)]
pub struct LenRange {
    pub start: u64,
    pub end: u64,
}

/// The name by which the largest value of an unsigned integer of the given width is
/// written, for the widths that have one.
pub open spec fn max_name(end: u64) -> Option<Seq<char>> {
    if end == 0xFF {
        Some(seq!['M', 'A', 'X', '8'])
    } else if end == 0xFFFF {
        Some(seq!['M', 'A', 'X', '1', '6'])
    } else if end == 0xFF_FFFF {
        Some(seq!['M', 'A', 'X', '2', '4'])
    } else if end == 0xFFFF_FFFF {
        Some(seq!['M', 'A', 'X', '3', '2'])
    } else if end == 0xFFFF_FFFF_FFFF_FFFF {
        Some(seq!['M', 'A', 'X', '6', '4'])
    } else {
        None
    }
}

impl LenRange {
    pub fn from_sizing(sizing: Sizing) -> (r: LenRange)
        ensures
            r == (LenRange { start: sizing.min, end: sizing.max }),
    {
        LenRange { start: sizing.min, end: sizing.max }
    }

    /// The range as written in layout descriptions: `{start}..{end}`, with the largest
    /// values of 8, 16, 24, 32 and 64-bit numbers written by name.
    pub open spec fn spec_text(self) -> Seq<char> {
        decimal(self.start as nat) + seq!['.', '.'] + match max_name(self.end) {
            Some(name) => name,
            None => decimal(self.end as nat),
        }
    }

    pub fn write(&self, out: &mut Vec<char>)
        ensures
            final(out)@ == old(out)@ + self.spec_text(),
    {
        let ghost start = out@;
        push_decimal(self.start, out);
        out.push('.');
        out.push('.');
        let end = self.end;
        if end == 0xFF {
            push_str("MAX8", out);
            proof {
                reveal_strlit("MAX8");
            }
        } else if end == 0xFFFF {
            push_str("MAX16", out);
            proof {
                reveal_strlit("MAX16");
            }
        } else if end == 0xFF_FFFF {
            push_str("MAX24", out);
            proof {
                reveal_strlit("MAX24");
            }
        } else if end == 0xFFFF_FFFF {
            push_str("MAX32", out);
            proof {
                reveal_strlit("MAX32");
            }
        } else if end == 0xFFFF_FFFF_FFFF_FFFF {
            push_str("MAX64", out);
            proof {
                reveal_strlit("MAX64");
            }
        } else {
            push_decimal(end, out);
        }
        assert(out@ =~= start + self.spec_text());
    }

    pub fn to_string(&self) -> (s: String)
        ensures
            s@ == self.spec_text(),
    {
        let mut out: Vec<char> = Vec::new();
        self.write(&mut out);
        assert(out@ =~= self.spec_text());
        string_from_chars(out)
    }
}

/// Expression of an attribute in a layout description.
#[derive(Copy, Clone, PartialEq, Eq, Debug, Structural)]
pub enum AttrExpr {
    Tag(u8),
    EnumVariant(u8),
    Len(u16),
    LenRange(LenRange),
}

impl AttrExpr {
    pub open spec fn spec_text(self) -> Seq<char> {
        match self {
            AttrExpr::Tag(t) => decimal(t as nat),
            AttrExpr::EnumVariant(v) => decimal(v as nat),
            AttrExpr::Len(l) => decimal(l as nat),
            AttrExpr::LenRange(r) => r.spec_text(),
        }
    }

    pub fn to_string(&self) -> (s: String)
        ensures
            s@ == self.spec_text(),
    {
        let mut out: Vec<char> = Vec::new();
        match self {
            AttrExpr::Tag(t) => push_decimal(*t as u64, &mut out),
            AttrExpr::EnumVariant(v) => push_decimal(*v as u64, &mut out),
            AttrExpr::Len(l) => push_decimal(*l as u64, &mut out),
            AttrExpr::LenRange(r) => r.write(&mut out),
        }
        assert(out@ =~= self.spec_text());
        string_from_chars(out)
    }
}

} // verus!
