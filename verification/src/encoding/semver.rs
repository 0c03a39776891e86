//! Semantic versions and their binary encoding.

use vstd::prelude::*;

use crate::ast::serialize::{
    concat_bytes, lemma_concat_push, lemma_items_roundtrip, lemma_le_at, lemma_name_at, lemma_pow256_values,
    lemma_split, name_bytes, parse_byte, parse_items, parse_le, parse_name, read_byte, read_name, read_u16,
};
use crate::encoding::base::{le_bytes, lemma_le_len, lemma_le_roundtrip, lemma_le_value_bound, pow256, read_le, write_le};
use crate::encoding::serialize::DecodeError;
use crate::ident::{valid_ident, Ident};

verus! {

/// A pre-release fragment of a version: an identifier or a number.
#[derive(Debug)]
pub enum PreFragment {
    Ident(Ident),
    Digits(u128),
}

/// A build fragment of a version: an identifier, or digits written as an identifier.
#[derive(Debug)]
pub enum BuildFragment {
    Ident(Ident),
    Digits(Ident),
}

/// A fragment, as plain values: its kind (0 for an identifier, 1 for digits), the
/// identifier's bytes and the number.
pub struct FragModel {
    pub kind: u8,
    pub name: Seq<u8>,
    pub digits: u128,
}

impl View for PreFragment {
    type V = FragModel;

    open spec fn view(&self) -> FragModel {
        match self {
            PreFragment::Ident(id) => FragModel { kind: 0, name: id@, digits: 0 },
            PreFragment::Digits(d) => FragModel { kind: 1, name: Seq::empty(), digits: *d },
        }
    }
}

impl View for BuildFragment {
    type V = FragModel;

    open spec fn view(&self) -> FragModel {
        match self {
            BuildFragment::Ident(id) => FragModel { kind: 0, name: id@, digits: 0 },
            BuildFragment::Digits(id) => FragModel { kind: 1, name: id@, digits: 0 },
        }
    }
}

/// A semantic version: major, minor and patch numbers, then up to 255 pre-release
/// and up to 255 build fragments.
#[derive(Debug)]
pub struct SemVer {
    pub major: u16,
    pub minor: u16,
    pub patch: u16,
    pub pre: Vec<PreFragment>,
    pub build: Vec<BuildFragment>,
}

/// The encoding of a pre-release fragment: 0 and the identifier, or 1 and the number
/// as 16 bytes, least significant first.
pub open spec fn pre_bytes(f: FragModel) -> Seq<u8> {
    if f.kind == 0 {
        seq![0u8] + name_bytes(f.name)
    } else {
        seq![1u8] + le_bytes(f.digits as nat, 16)
    }
}

/// The encoding of a build fragment: 0 or 1, then the identifier.
pub open spec fn build_bytes(f: FragModel) -> Seq<u8> {
    seq![f.kind] + name_bytes(f.name)
}

pub open spec fn pre_enc() -> spec_fn(FragModel) -> Seq<u8> {
    |f: FragModel| pre_bytes(f)
}

pub open spec fn build_enc() -> spec_fn(FragModel) -> Seq<u8> {
    |f: FragModel| build_bytes(f)
}

impl SemVer {
    pub open spec fn pre_model(&self) -> Seq<FragModel> {
        self.pre@.map_values(|f: PreFragment| f@)
    }

    pub open spec fn build_model(&self) -> Seq<FragModel> {
        self.build@.map_values(|f: BuildFragment| f@)
    }

    /// The encoding of the version: the three numbers as two bytes each, least
    /// significant first, then the number of pre-release fragments as one byte and
    /// the fragments, then the same for the build fragments.
    pub open spec fn spec_bytes(&self) -> Seq<u8> {
        semver_bytes(self.model())
    }
}

fn encode_ident(id: &Ident, out: &mut Vec<u8>)
    ensures
        final(out)@ == old(out)@ + name_bytes(id@),
        valid_ident(id@),
{
    id.check_valid();
    id.encode(out);
}

impl PreFragment {
    /// Every pre-release fragment is well-formed.
    fn check_wf(&self)
        ensures
            valid_pre(self@),
    {
        match self {
            PreFragment::Ident(id) => id.check_valid(),
            PreFragment::Digits(_) => {},
        }
    }

    pub fn encode(&self, out: &mut Vec<u8>)
        ensures
            final(out)@ == old(out)@ + pre_bytes(self@),
    {
        let ghost start = out@;
        match self {
            PreFragment::Ident(id) => {
                out.push(0);
                encode_ident(id, out);
            },
            PreFragment::Digits(d) => {
                out.push(1);
                write_le(*d, 16, out);
            },
        }
        assert(out@ =~= start + pre_bytes(self@));
    }
}

impl BuildFragment {
    /// Every build fragment is well-formed.
    fn check_wf(&self)
        ensures
            valid_build(self@),
    {
        match self {
            BuildFragment::Ident(id) => id.check_valid(),
            BuildFragment::Digits(id) => id.check_valid(),
        }
    }

    pub fn encode(&self, out: &mut Vec<u8>)
        ensures
            final(out)@ == old(out)@ + build_bytes(self@),
    {
        let ghost start = out@;
        match self {
            BuildFragment::Ident(id) => {
                out.push(0);
                encode_ident(id, out);
            },
            BuildFragment::Digits(id) => {
                out.push(1);
                encode_ident(id, out);
            },
        }
        assert(out@ =~= start + build_bytes(self@));
    }
}

impl SemVer {
    /// Appends the encoding of the version to `out`.
    pub fn encode(&self, out: &mut Vec<u8>)
        requires
            self.pre@.len() <= 255,
            self.build@.len() <= 255,
        ensures
            final(out)@ == old(out)@ + self.spec_bytes(),
            valid_semver(self.model()),
    {
        let ghost start = out@;
        write_le(self.major as u128, 2, out);
        write_le(self.minor as u128, 2, out);
        write_le(self.patch as u128, 2, out);
        out.push(self.pre.len() as u8);
        let ghost head = out@;
        let mut i: usize = 0;
        while i < self.pre.len()
            invariant
                i <= self.pre@.len(),
                out@ == head + concat_bytes(self.pre_model().subrange(0, i as int), pre_enc()),
                forall|j: int| 0 <= j < i ==> valid_pre(#[trigger] self.pre_model()[j]),
            decreases self.pre@.len() - i,
        {
            self.pre[i].check_wf();
            self.pre[i].encode(out);
            proof {
                lemma_concat_push(self.pre_model().subrange(0, i as int), self.pre_model()[i as int], pre_enc());
                assert(self.pre_model().subrange(0, i as int).push(self.pre_model()[i as int])
                    =~= self.pre_model().subrange(0, i + 1));
            }
            i = i + 1;
        }
        assert(self.pre_model().subrange(0, self.pre@.len() as int) =~= self.pre_model());
        out.push(self.build.len() as u8);
        let ghost mid = out@;
        let mut i: usize = 0;
        while i < self.build.len()
            invariant
                i <= self.build@.len(),
                out@ == mid + concat_bytes(self.build_model().subrange(0, i as int), build_enc()),
                forall|j: int| 0 <= j < i ==> valid_build(#[trigger] self.build_model()[j]),
                forall|j: int| 0 <= j < self.pre@.len() ==> valid_pre(#[trigger] self.pre_model()[j]),
            decreases self.build@.len() - i,
        {
            self.build[i].check_wf();
            self.build[i].encode(out);
            proof {
                lemma_concat_push(
                    self.build_model().subrange(0, i as int),
                    self.build_model()[i as int],
                    build_enc(),
                );
                assert(self.build_model().subrange(0, i as int).push(self.build_model()[i as int])
                    =~= self.build_model().subrange(0, i + 1));
            }
            i = i + 1;
        }
        assert(self.build_model().subrange(0, self.build@.len() as int) =~= self.build_model());
        assert(out@ =~= start + self.spec_bytes());
    }
}

/// A version, as plain values.
pub struct SemVerModel {
    pub major: u16,
    pub minor: u16,
    pub patch: u16,
    pub pre: Seq<FragModel>,
    pub build: Seq<FragModel>,
}

impl SemVer {
    pub open spec fn model(&self) -> SemVerModel {
        SemVerModel {
            major: self.major,
            minor: self.minor,
            patch: self.patch,
            pre: self.pre_model(),
            build: self.build_model(),
        }
    }
}

/// Reading a pre-release fragment at `pos`.
pub open spec fn parse_pre(prev: Seq<FragModel>, data: Seq<u8>, pos: int) -> Result<(FragModel, int), DecodeError> {
    match parse_byte(data, pos) {
        Err(e) => Err(e),
        Ok((t, p)) => if t == 0 {
            match parse_name(data, p) {
                Err(e) => Err(e),
                Ok((n, q)) => Ok((FragModel { kind: 0, name: n, digits: 0 }, q)),
            }
        } else if t == 1 {
            match parse_le(data, p, 16) {
                Err(e) => Err(e),
                Ok((v, q)) => Ok((FragModel { kind: 1, name: Seq::empty(), digits: v as u128 }, q)),
            }
        } else {
            Err(DecodeError::WrongEnumId("PreFragment", t))
        },
    }
}

/// Reading a build fragment at `pos`.
pub open spec fn parse_build(prev: Seq<FragModel>, data: Seq<u8>, pos: int) -> Result<(FragModel, int), DecodeError> {
    match parse_byte(data, pos) {
        Err(e) => Err(e),
        Ok((t, p)) => if t == 0 || t == 1 {
            match parse_name(data, p) {
                Err(e) => Err(e),
                Ok((n, q)) => Ok((FragModel { kind: t, name: n, digits: 0 }, q)),
            }
        } else {
            Err(DecodeError::WrongEnumId("BuildFragment", t))
        },
    }
}

pub open spec fn pre_parser() -> spec_fn(Seq<FragModel>, Seq<u8>, int) -> Result<(FragModel, int), DecodeError> {
    |prev: Seq<FragModel>, data: Seq<u8>, pos: int| parse_pre(prev, data, pos)
}

pub open spec fn build_parser() -> spec_fn(Seq<FragModel>, Seq<u8>, int) -> Result<(FragModel, int), DecodeError> {
    |prev: Seq<FragModel>, data: Seq<u8>, pos: int| parse_build(prev, data, pos)
}

/// Reading a version at `pos`.
pub open spec fn parse_semver(data: Seq<u8>, pos: int) -> Result<(SemVerModel, int), DecodeError> {
    match parse_le(data, pos, 2) {
        Err(e) => Err(e),
        Ok((major, p1)) => match parse_le(data, p1, 2) {
            Err(e) => Err(e),
            Ok((minor, p2)) => match parse_le(data, p2, 2) {
                Err(e) => Err(e),
                Ok((patch, p3)) => match parse_byte(data, p3) {
                    Err(e) => Err(e),
                    Ok((n, p4)) => match parse_items(Seq::empty(), data, p4, n as nat, pre_parser()) {
                        Err(e) => Err(e),
                        Ok((pre, p5)) => match parse_byte(data, p5) {
                            Err(e) => Err(e),
                            Ok((m, p6)) => match parse_items(Seq::empty(), data, p6, m as nat, build_parser()) {
                                Err(e) => Err(e),
                                Ok((build, p7)) => Ok((
                                    SemVerModel {
                                        major: major as u16,
                                        minor: minor as u16,
                                        patch: patch as u16,
                                        pre,
                                        build,
                                    },
                                    p7,
                                )),
                            },
                        },
                    },
                },
            },
        },
    }
}

fn read_pre(data: &[u8], pos: usize) -> (res: Result<(PreFragment, usize), DecodeError>)
    requires
        pos <= data@.len(),
    ensures
        forall|prev: Seq<FragModel>|
            res matches Ok((f, p)) ==> #[trigger] parse_pre(prev, data@, pos as int) == Ok::<(FragModel, int), DecodeError>(
                (f@, p as int),
            ) && p <= data@.len(),
        forall|prev: Seq<FragModel>|
            res matches Err(e) ==> #[trigger] parse_pre(prev, data@, pos as int) == Err::<(FragModel, int), DecodeError>(e),
{
    let (t, p) = match read_byte(data, pos) {
        Ok(r) => r,
        Err(e) => return Err(e),
    };
    if t == 0 {
        match read_name(data, p) {
            Ok((id, q)) => Ok((PreFragment::Ident(id), q)),
            Err(e) => Err(e),
        }
    } else if t == 1 {
        let len = data.len();
        match read_le(data, p, 16) {
            Ok(v) => Ok((PreFragment::Digits(v), p + 16)),
            Err(e) => Err(e),
        }
    } else {
        Err(DecodeError::WrongEnumId("PreFragment", t))
    }
}

fn read_build(data: &[u8], pos: usize) -> (res: Result<(BuildFragment, usize), DecodeError>)
    requires
        pos <= data@.len(),
    ensures
        forall|prev: Seq<FragModel>|
            res matches Ok((f, p)) ==> #[trigger] parse_build(prev, data@, pos as int) == Ok::<(FragModel, int), DecodeError>(
                (f@, p as int),
            ) && p <= data@.len(),
        forall|prev: Seq<FragModel>|
            res matches Err(e) ==> #[trigger] parse_build(prev, data@, pos as int) == Err::<(FragModel, int), DecodeError>(e),
{
    let (t, p) = match read_byte(data, pos) {
        Ok(r) => r,
        Err(e) => return Err(e),
    };
    if t == 0 {
        match read_name(data, p) {
            Ok((id, q)) => Ok((BuildFragment::Ident(id), q)),
            Err(e) => Err(e),
        }
    } else if t == 1 {
        match read_name(data, p) {
            Ok((id, q)) => Ok((BuildFragment::Digits(id), q)),
            Err(e) => Err(e),
        }
    } else {
        Err(DecodeError::WrongEnumId("BuildFragment", t))
    }
}

impl SemVer {
    /// Reads a version at position `pos` of `data`, returning it with the position
    /// after it.
    pub fn decode(data: &[u8], pos: usize) -> (res: Result<(SemVer, usize), DecodeError>)
        requires
            pos <= data@.len(),
        ensures
            res matches Ok((v, p)) ==> parse_semver(data@, pos as int) == Ok::<(SemVerModel, int), DecodeError>(
                (v.model(), p as int),
            ) && v.pre@.len() <= 255 && v.build@.len() <= 255 && p <= data@.len(),
            res matches Err(e) ==> parse_semver(data@, pos as int) == Err::<(SemVerModel, int), DecodeError>(e),
    {
        let (major, p1) = match read_u16(data, pos) {
            Ok(r) => r,
            Err(e) => return Err(e),
        };
        let (minor, p2) = match read_u16(data, p1) {
            Ok(r) => r,
            Err(e) => return Err(e),
        };
        let (patch, p3) = match read_u16(data, p2) {
            Ok(r) => r,
            Err(e) => return Err(e),
        };
        let (n, p4) = match read_byte(data, p3) {
            Ok(r) => r,
            Err(e) => return Err(e),
        };
        let ghost fp = pre_parser();
        let mut pre: Vec<PreFragment> = Vec::new();
        let mut p = p4;
        let mut i: u8 = 0;
        assert(pre@.map_values(|f: PreFragment| f@) =~= Seq::<FragModel>::empty());
        while i < n
            invariant
                i <= n,
                p <= data@.len(),
                pre@.len() == i,
                fp == pre_parser(),
                parse_le(data@, pos as int, 2) == Ok::<(nat, int), DecodeError>((major as nat, p1 as int)),
                parse_le(data@, p1 as int, 2) == Ok::<(nat, int), DecodeError>((minor as nat, p2 as int)),
                parse_le(data@, p2 as int, 2) == Ok::<(nat, int), DecodeError>((patch as nat, p3 as int)),
                parse_byte(data@, p3 as int) == Ok::<(u8, int), DecodeError>((n, p4 as int)),
                parse_items(Seq::<FragModel>::empty(), data@, p4 as int, n as nat, fp) == parse_items(
                    pre@.map_values(|f: PreFragment| f@),
                    data@,
                    p as int,
                    (n - i) as nat,
                    fp,
                ),
            decreases n - i,
        {
            let ghost prev = pre@.map_values(|f: PreFragment| f@);
            let (f, q) = match read_pre(data, p) {
                Ok(r) => r,
                Err(e) => {
                    assert(parse_pre(prev, data@, p as int) == Err::<(FragModel, int), DecodeError>(e));
                    return Err(e);
                },
            };
            assert(parse_pre(prev, data@, p as int) == Ok::<(FragModel, int), DecodeError>((f@, q as int)));
            let ghost fv = f@;
            pre.push(f);
            assert(pre@.map_values(|f: PreFragment| f@) =~= prev.push(fv));
            p = q;
            i = i + 1;
        }
        let p5 = p;
        assert(parse_items(pre@.map_values(|f: PreFragment| f@), data@, p as int, 0, fp)
            == Ok::<(Seq<FragModel>, int), DecodeError>((pre@.map_values(|f: PreFragment| f@), p as int)));
        let (m, p6) = match read_byte(data, p5) {
            Ok(r) => r,
            Err(e) => return Err(e),
        };
        let ghost fb = build_parser();
        let mut build: Vec<BuildFragment> = Vec::new();
        let mut p = p6;
        let mut i: u8 = 0;
        assert(build@.map_values(|f: BuildFragment| f@) =~= Seq::<FragModel>::empty());
        while i < m
            invariant
                i <= m,
                p <= data@.len(),
                build@.len() == i,
                fb == build_parser(),
                parse_le(data@, pos as int, 2) == Ok::<(nat, int), DecodeError>((major as nat, p1 as int)),
                parse_le(data@, p1 as int, 2) == Ok::<(nat, int), DecodeError>((minor as nat, p2 as int)),
                parse_le(data@, p2 as int, 2) == Ok::<(nat, int), DecodeError>((patch as nat, p3 as int)),
                parse_byte(data@, p3 as int) == Ok::<(u8, int), DecodeError>((n, p4 as int)),
                parse_items(Seq::<FragModel>::empty(), data@, p4 as int, n as nat, pre_parser())
                    == Ok::<(Seq<FragModel>, int), DecodeError>((pre@.map_values(|f: PreFragment| f@), p5 as int)),
                parse_byte(data@, p5 as int) == Ok::<(u8, int), DecodeError>((m, p6 as int)),
                parse_items(Seq::<FragModel>::empty(), data@, p6 as int, m as nat, fb) == parse_items(
                    build@.map_values(|f: BuildFragment| f@),
                    data@,
                    p as int,
                    (m - i) as nat,
                    fb,
                ),
            decreases m - i,
        {
            let ghost prev = build@.map_values(|f: BuildFragment| f@);
            let (f, q) = match read_build(data, p) {
                Ok(r) => r,
                Err(e) => {
                    assert(parse_build(prev, data@, p as int) == Err::<(FragModel, int), DecodeError>(e));
                    return Err(e);
                },
            };
            assert(parse_build(prev, data@, p as int) == Ok::<(FragModel, int), DecodeError>((f@, q as int)));
            let ghost fv = f@;
            build.push(f);
            assert(build@.map_values(|f: BuildFragment| f@) =~= prev.push(fv));
            p = q;
            i = i + 1;
        }
        let v = SemVer { major, minor, patch, pre, build };
        Ok((v, p))
    }
}

/// The encoding of a version model (see [`SemVer::spec_bytes`]).
pub open spec fn semver_bytes(v: SemVerModel) -> Seq<u8> {
    le_bytes(v.major as nat, 2) + le_bytes(v.minor as nat, 2) + le_bytes(v.patch as nat, 2) + seq![
        v.pre.len() as u8,
    ] + concat_bytes(v.pre, pre_enc()) + seq![v.build.len() as u8] + concat_bytes(v.build, build_enc())
}

/// Pre-release fragments as versions hold them: an identifier, or a number.
pub open spec fn valid_pre(f: FragModel) -> bool {
    (f.kind == 0 && valid_ident(f.name) && f.digits == 0) || (f.kind == 1 && f.name == Seq::<u8>::empty())
}

/// Build fragments as versions hold them: an identifier of either kind.
pub open spec fn valid_build(f: FragModel) -> bool {
    (f.kind == 0 || f.kind == 1) && valid_ident(f.name) && f.digits == 0
}

/// Version models as versions hold them.
pub open spec fn valid_semver(v: SemVerModel) -> bool {
    &&& v.pre.len() <= 255
    &&& v.build.len() <= 255
    &&& forall|i: int| 0 <= i < v.pre.len() ==> valid_pre(#[trigger] v.pre[i])
    &&& forall|i: int| 0 <= i < v.build.len() ==> valid_build(#[trigger] v.build[i])
}

proof fn lemma_pow256_16()
    ensures
        pow256(16) == 0x1_0000_0000_0000_0000_0000_0000_0000_0000,
{
    reveal_with_fuel(pow256, 17);
}

proof fn lemma_pre_at(prev: Seq<FragModel>, data: Seq<u8>, p: int, x: FragModel)
    requires
        valid_pre(x),
        0 <= p,
        p + pre_bytes(x).len() <= data.len(),
        data.subrange(p, p + pre_bytes(x).len()) == pre_bytes(x),
    ensures
        parse_pre(prev, data, p) == Ok::<(FragModel, int), DecodeError>((x, p + pre_bytes(x).len())),
{
    assert(data.subrange(p, p + pre_bytes(x).len())[0] == data[p]);
    if x.kind == 0 {
        lemma_split(data, p, seq![0u8], name_bytes(x.name));
        lemma_name_at(data, p + 1, x.name);
    } else {
        lemma_pow256_16();
        lemma_le_len(x.digits as nat, 16);
        lemma_split(data, p, seq![1u8], le_bytes(x.digits as nat, 16));
        lemma_le_at(data, p + 1, x.digits as nat, 16);
    }
}

proof fn lemma_build_at(prev: Seq<FragModel>, data: Seq<u8>, p: int, x: FragModel)
    requires
        valid_build(x),
        0 <= p,
        p + build_bytes(x).len() <= data.len(),
        data.subrange(p, p + build_bytes(x).len()) == build_bytes(x),
    ensures
        parse_build(prev, data, p) == Ok::<(FragModel, int), DecodeError>((x, p + build_bytes(x).len())),
{
    assert(data.subrange(p, p + build_bytes(x).len())[0] == data[p]);
    lemma_split(data, p, seq![x.kind], name_bytes(x.name));
    lemma_name_at(data, p + 1, x.name);
}

/// Reading a version back from its encoding gives the version and stops right after
/// the encoding, whatever bytes follow it.
pub proof fn lemma_semver_roundtrip(v: SemVerModel, data: Seq<u8>, pos: int)
    requires
        valid_semver(v),
        0 <= pos,
        pos + semver_bytes(v).len() <= data.len(),
        data.subrange(pos, pos + semver_bytes(v).len()) == semver_bytes(v),
    ensures
        parse_semver(data, pos) == Ok::<(SemVerModel, int), DecodeError>((v, pos + semver_bytes(v).len())),
{
    lemma_pow256_values();
    lemma_le_len(v.major as nat, 2);
    lemma_le_len(v.minor as nat, 2);
    lemma_le_len(v.patch as nat, 2);
    let a = le_bytes(v.major as nat, 2);
    let b = le_bytes(v.minor as nat, 2);
    let c = le_bytes(v.patch as nat, 2);
    let pre = concat_bytes(v.pre, pre_enc());
    let build = concat_bytes(v.build, build_enc());
    let s1 = a + b + c + seq![v.pre.len() as u8] + pre + seq![v.build.len() as u8];
    lemma_split(data, pos, s1, build);
    let s2 = a + b + c + seq![v.pre.len() as u8] + pre;
    lemma_split(data, pos, s2, seq![v.build.len() as u8]);
    let s3 = a + b + c + seq![v.pre.len() as u8];
    lemma_split(data, pos, s3, pre);
    let s4 = a + b + c;
    lemma_split(data, pos, s4, seq![v.pre.len() as u8]);
    lemma_split(data, pos, a + b, c);
    lemma_split(data, pos, a, b);
    lemma_le_at(data, pos, v.major as nat, 2);
    lemma_le_at(data, pos + 2, v.minor as nat, 2);
    lemma_le_at(data, pos + 4, v.patch as nat, 2);
    assert(data.subrange(pos + 6, pos + 7)[0] == data[pos + 6]);
    let p4 = pos + 7;
    let okp = |pr: Seq<FragModel>, x: FragModel| valid_pre(x);
    assert forall|pr: Seq<FragModel>, x: FragModel, p: int|
        #[trigger] okp(pr, x) && 0 <= p && p + pre_enc()(x).len() <= data.len() && data.subrange(
            p,
            p + pre_enc()(x).len(),
        ) == pre_enc()(x) implies #[trigger] pre_parser()(pr, data, p) == Ok::<(FragModel, int), DecodeError>(
        (x, p + pre_enc()(x).len()),
    ) by {
        lemma_pre_at(pr, data, p, x);
    }
    assert forall|i: int| 0 <= i < v.pre.len() implies #[trigger] okp(Seq::<FragModel>::empty() + v.pre.take(i), v.pre[i]) by {
    }
    lemma_items_roundtrip(Seq::<FragModel>::empty(), v.pre, data, p4, pre_parser(), pre_enc(), okp);
    assert(Seq::<FragModel>::empty() + v.pre =~= v.pre);
    let p5 = p4 + pre.len();
    assert(data.subrange(p5, p5 + 1)[0] == data[p5]);
    let p6 = p5 + 1;
    let okb = |pr: Seq<FragModel>, x: FragModel| valid_build(x);
    assert forall|pr: Seq<FragModel>, x: FragModel, p: int|
        #[trigger] okb(pr, x) && 0 <= p && p + build_enc()(x).len() <= data.len() && data.subrange(
            p,
            p + build_enc()(x).len(),
        ) == build_enc()(x) implies #[trigger] build_parser()(pr, data, p) == Ok::<(FragModel, int), DecodeError>(
        (x, p + build_enc()(x).len()),
    ) by {
        lemma_build_at(pr, data, p, x);
    }
    assert forall|i: int| 0 <= i < v.build.len() implies #[trigger] okb(Seq::<FragModel>::empty() + v.build.take(i), v.build[i]) by {
    }
    lemma_items_roundtrip(Seq::<FragModel>::empty(), v.build, data, p6, build_parser(), build_enc(), okb);
    assert(Seq::<FragModel>::empty() + v.build =~= v.build);
}

} // verus!
