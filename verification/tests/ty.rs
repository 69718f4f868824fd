use lopa::common::LitKind;
use lopa::ty::{BareFn, Param, Type};

fn nilable(t: Type) -> Type {
    Type::Nilable(Box::new(t))
}

#[test]
fn nested_nilables_collapse_to_one() {
    let t = nilable(nilable(nilable(Type::int_type())));
    assert_eq!(t.collapsed_nil(), nilable(Type::Lit(LitKind::Int)));
}

#[test]
fn nilable_nil_holds_unknown() {
    assert_eq!(nilable(Type::Lit(LitKind::Nil)).collapsed_nil(), nilable(Type::Unknown));
    assert_eq!(nilable(nilable(Type::Lit(LitKind::Nil))).collapsed_nil(), nilable(Type::Unknown));
    let mut t = nilable(nilable(Type::Lit(LitKind::Nil)));
    t.collapse_nil();
    assert_eq!(t, nilable(Type::Unknown));
}

#[test]
fn collapse_leaves_other_types() {
    assert_eq!(Type::unit().collapsed_nil(), Type::Unit);
    assert_eq!(nilable(Type::unit()).collapsed_nil(), nilable(Type::Unknown));
    let f = Type::BareFn(BareFn {
        params: vec![Param { name: Some("a".to_string()), ty: nilable(nilable(Type::bool())) }],
        return_type: Box::new(Type::never()),
    });
    let g = Type::BareFn(BareFn {
        params: vec![Param { name: Some("a".to_string()), ty: nilable(nilable(Type::bool())) }],
        return_type: Box::new(Type::never()),
    });
    assert_eq!(f.collapsed_nil(), g);
}

#[test]
fn collapse_in_place_matches_by_value() {
    let mut t = nilable(nilable(Type::float()));
    t.collapse_nil();
    assert_eq!(t, nilable(Type::float()));
    let mut u = t;
    u.collapse_nil();
    assert_eq!(u, nilable(Type::float()));
}

#[test]
fn type_predicates() {
    assert!(Type::int_type().is_int());
    assert!(Type::int_type().is_number());
    assert!(Type::float().is_float());
    assert!(Type::float().is_number());
    assert!(!Type::bool().is_number());
    assert!(!Type::any().is_number());
    assert!(Type::unit().is_nilable());
    assert!(Type::Lit(LitKind::Nil).is_nilable());
    assert!(nilable(Type::int_type()).is_nilable());
    assert!(!Type::unknown().is_nilable());
    assert!(!Type::Struct(3).is_nilable());
    assert!(!Type::Function(1).is_number());
}
