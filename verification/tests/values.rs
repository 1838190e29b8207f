use constfold::{Constant, ConstFn, NewType, PathOp, PathSegment, Prefab, TypedConstant};

fn s(text: &str) -> Constant {
    Constant::String(text.to_string())
}

#[test]
fn string_constructor() {
    assert_eq!(Constant::string("abc"), s("abc"));
}

#[test]
fn default_is_untyped_null() {
    assert_eq!(Constant::default(), Constant::Null(None));
}

#[test]
fn contains_key_on_lists() {
    let list = Constant::List(vec![
        (s("a"), Some(Constant::Int(1))),
        (Constant::Int(2), None),
    ]);
    assert!(list.contains_key(&s("a")));
    assert!(list.contains_key(&Constant::Int(2)));
    assert!(!list.contains_key(&s("b")));
    assert!(!Constant::Int(1).contains_key(&Constant::Int(1)));
}

#[test]
fn index_by_position_and_key() {
    let list = Constant::List(vec![
        (s("a"), Some(Constant::Int(1))),
        (s("b"), None),
    ]);
    // an integer key selects the key at that position
    assert_eq!(list.index(&Constant::Int(0)), Some(&s("a")));
    assert_eq!(list.index(&Constant::Int(1)), Some(&s("b")));
    assert_eq!(list.index(&Constant::Int(2)), None);
    assert_eq!(list.index(&Constant::Int(-1)), None);
    // any other key selects the value of the matching element
    assert_eq!(list.index(&s("a")), Some(&Constant::Int(1)));
    assert_eq!(list.index(&s("b")), None);
    assert_eq!(list.index(&s("c")), None);
}

#[test]
fn truthiness() {
    assert!(!Constant::Null(None).to_bool());
    assert!(!Constant::Int(0).to_bool());
    assert!(Constant::Int(-1).to_bool());
    assert!(!Constant::Float(0.0f32.to_bits()).to_bool());
    assert!(!Constant::Float((-0.0f32).to_bits()).to_bool());
    assert!(Constant::Float(0.5f32.to_bits()).to_bool());
    assert!(!s("").to_bool());
    assert!(s("x").to_bool());
    assert!(Constant::List(vec![]).to_bool());
}

#[test]
fn to_float_converts_integers() {
    assert_eq!(Constant::Int(3).to_float(), Some(3.0f32.to_bits()));
    assert_eq!(Constant::Float(2.5f32.to_bits()).to_float(), Some(2.5f32.to_bits()));
    assert_eq!(s("x").to_float(), None);
}

#[test]
fn to_int_truncates_floats() {
    assert_eq!(Constant::Int(7).to_int(), Some(7));
    assert_eq!(Constant::Float(2.75f32.to_bits()).to_int(), Some(2));
    assert_eq!(Constant::Float((-2.75f32).to_bits()).to_int(), Some(-2));
    assert_eq!(Constant::Float(f32::NAN.to_bits()).to_int(), Some(0));
    assert_eq!(Constant::Float(1e20f32.to_bits()).to_int(), Some(i32::MAX));
    assert_eq!(Constant::Float((-1e20f32).to_bits()).to_int(), Some(i32::MIN));
    assert_eq!(s("x").to_int(), None);
}

#[test]
fn string_and_resource_equality() {
    assert!(s("abc").eq_string("abc"));
    assert!(!s("abc").eq_string("abd"));
    assert!(!Constant::Resource("abc".to_string()).eq_string("abc"));
    assert!(Constant::Resource("icon.dmi".to_string()).eq_resource("icon.dmi"));
    assert!(s("icon.dmi").eq_resource("icon.dmi"));
    assert!(!Constant::Int(3).eq_resource("3"));
}

#[test]
fn value_equality_is_deep() {
    let a = Constant::List(vec![(s("k"), Some(Constant::Int(1)))]);
    let b = Constant::List(vec![(s("k"), Some(Constant::Int(1)))]);
    let c = Constant::List(vec![(s("k"), Some(Constant::Int(2)))]);
    assert_eq!(a, b);
    assert_ne!(a, c);
    assert_ne!(s("x"), Constant::Resource("x".to_string()));
}

#[test]
fn render_literals() {
    assert_eq!(Constant::Null(None).render(), "null");
    assert_eq!(Constant::Int(42).render(), "42");
    assert_eq!(Constant::Int(-7).render(), "-7");
    assert_eq!(Constant::Int(i32::MIN).render(), "-2147483648");
    assert_eq!(s("hi").render(), "\"hi\"");
    assert_eq!(Constant::Resource("a.dmi".to_string()).render(), "'a.dmi'");
}

#[test]
fn render_composites() {
    let list = Constant::List(vec![
        (s("a"), Some(Constant::Int(1))),
        (Constant::Int(2), None),
    ]);
    assert_eq!(list.render(), "list(\"a\" = 1, 2)");
    let call = Constant::Call(ConstFn::Icon, vec![s("i.dmi")]);
    assert_eq!(call.render(), "icon(\"i.dmi\")");
    let prefab = Constant::Prefab(Prefab {
        path: vec![
            PathSegment { op: PathOp::Slash, name: "obj".to_string() },
            PathSegment { op: PathOp::Slash, name: "item".to_string() },
        ],
        vars: vec![],
    });
    assert_eq!(prefab.render(), "/obj/item");
    let newv = Constant::New {
        type_: NewType::Prefab(Prefab {
            path: vec![PathSegment { op: PathOp::Slash, name: "mob".to_string() }],
            vars: vec![],
        }),
        args: Some(vec![Constant::Int(1)]),
    };
    assert_eq!(newv.render(), "new/mob(1)");
    let bare = Constant::New { type_: NewType::Implicit, args: None };
    assert_eq!(bare.render(), "new");
}

#[test]
fn render_path_separators() {
    let prefab = Constant::Prefab(Prefab {
        path: vec![
            PathSegment { op: PathOp::Slash, name: "obj".to_string() },
            PathSegment { op: PathOp::Dot, name: "sub".to_string() },
            PathSegment { op: PathOp::Colon, name: "leaf".to_string() },
        ],
        vars: vec![],
    });
    assert_eq!(prefab.render(), "/obj.sub:leaf");
}

#[test]
fn render_float_is_nonempty() {
    let text = Constant::Float(1.5f32.to_bits()).render();
    assert!(!text.is_empty());
}

#[test]
fn const_fn_names() {
    assert_eq!(ConstFn::Icon.render(), "icon");
    assert_eq!(ConstFn::Matrix.render(), "matrix");
    assert_eq!(ConstFn::Newlist.render(), "newlist");
}

#[test]
fn typed_constant_renders_its_value() {
    let tc = TypedConstant { type_hint: None, constant: Constant::Int(5) };
    assert_eq!(tc.render(), "5");
}
