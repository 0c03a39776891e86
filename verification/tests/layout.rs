use strict_types::ast::ty::Cls;
use strict_types::layout::memory::sum as compat_sum;
use strict_types::layout::size::sum as size_sum;
use strict_types::layout::{AttrExpr, Compat, ItemsSorting, LenRange, Pred, TypeSize};
use strict_types::util::Sizing;

fn all() -> [Compat; 5] {
    [Compat::NonCompatible, Compat::Alloset, Compat::Subset, Compat::Superset, Compat::Compatible]
}

#[test]
fn compat_negation_is_involutive() {
    for c in all() {
        assert_eq!(c.neg().neg(), c);
    }
    assert_eq!(Compat::Subset.neg(), Compat::Superset);
}

#[test]
fn compat_addition_laws() {
    for a in all() {
        assert_eq!(a.add(Compat::Compatible), a);
        assert_eq!(a.add(Compat::NonCompatible), Compat::NonCompatible);
        for b in all() {
            assert_eq!(a.add(b), b.add(a));
            assert_eq!(a.add(b).neg(), a.neg().add(b.neg()));
            for c in all() {
                assert_eq!(a.add(b).add(c), a.add(b.add(c)));
            }
        }
    }
    assert_eq!(Compat::Subset.add(Compat::Superset), Compat::Alloset);
}

#[test]
fn compat_sum_folds_addition() {
    assert_eq!(compat_sum(&[]), Compat::Compatible);
    assert_eq!(compat_sum(&[Compat::Subset, Compat::Compatible]), Compat::Subset);
    assert_eq!(compat_sum(&[Compat::Subset, Compat::Superset, Compat::Compatible]), Compat::Alloset);
    let mut c = Compat::Superset;
    c.add_assign(Compat::Superset);
    assert_eq!(c, Compat::Superset);
}

#[test]
fn type_size_sums() {
    assert_eq!(TypeSize::Fixed(2).add(TypeSize::Fixed(3)), TypeSize::Fixed(5));
    assert_eq!(TypeSize::Fixed(2).add(TypeSize::Variable { max: 10 }), TypeSize::Variable { max: 12 });
    assert_eq!(size_sum(&[TypeSize::Fixed(1), TypeSize::Fixed(2)]), TypeSize::Fixed(3));
    assert_eq!(size_sum(&[]), TypeSize::Fixed(0));
    assert_eq!(TypeSize::Fixed(7).exact_size(), Some(7));
    assert_eq!(TypeSize::Variable { max: 7 }.exact_size(), None);
    assert_eq!(TypeSize::Variable { max: 9 }.max_size(), 9);
    assert_eq!(TypeSize::Fixed(4).max_size(), 4);
}

#[test]
fn items_sorting_codes() {
    for code in 0u8..=255 {
        match ItemsSorting::try_from_u8(code) {
            Ok(s) => assert_eq!(s.into_u8(), code),
            Err(c) => assert_eq!(c, code),
        }
    }
}

#[test]
fn vesper_predicates() {
    assert_eq!(Pred::from_cls(Cls::Primitive).as_str(), "is");
    assert_eq!(Pred::from_cls(Cls::Struct).as_str(), "rec");
    assert_eq!(Pred::from_cls(Cls::MapOf).as_str(), "map");
}

#[test]
fn vesper_len_ranges() {
    assert_eq!(LenRange::from_sizing(Sizing::u8()).to_string(), "0..MAX8");
    assert_eq!(LenRange::from_sizing(Sizing::u16_nonempty()).to_string(), "1..MAX16");
    assert_eq!(LenRange::from_sizing(Sizing::new(3, 10)).to_string(), "3..10");
    assert_eq!(AttrExpr::Len(42).to_string(), "42");
    assert_eq!(AttrExpr::LenRange(LenRange { start: 0, end: 0xFFFF_FFFF }).to_string(), "0..MAX32");
}

#[test]
fn cls_codes() {
    for code in 0u8..=10 {
        assert_eq!(Cls::try_from_u8(code).unwrap().into_u8(), code);
    }
    assert_eq!(Cls::try_from_u8(11).err(), Some(11));
}
