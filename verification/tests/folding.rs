use constfold::diag::FollowKind;
use constfold::{
    BinaryOp, Constant, ConstFn, ConstKind, ConstLookup, DiagKind, Expression, Follow, Location,
    NewType, ObjectTree, PathOp, PathSegment, Prefab, Term, TypePath, UnaryOp,
    constant_ident_lookup, evaluate_all, fold_binary, fold_unary, recursive_lookup,
};

fn loc() -> Location {
    Location { file: 0, line: 1, column: 1 }
}

fn expr(t: Term) -> Expression {
    Expression::Base { unary: vec![], term: Box::new(t), follow: vec![] }
}

fn num(i: i32) -> Expression {
    expr(Term::Int(i))
}

fn bin(op: BinaryOp, l: Expression, r: Expression) -> Expression {
    Expression::BinaryOp { op, lhs: Box::new(l), rhs: Box::new(r) }
}

fn ident(name: &str) -> Expression {
    expr(Term::Ident(name.to_string()))
}

fn seg(op: PathOp, name: &str) -> PathSegment {
    PathSegment { op, name: name.to_string() }
}

/// One class holding one constant-evaluable variable with the expression.
fn single_var_tree(e: Expression) -> ObjectTree {
    let mut t = ObjectTree::new();
    let c = t.add_class("/const", None);
    t.add_decl(c, "x", vec![], false, true);
    assert!(t.add_var(c, "x", loc(), Some(e)));
    t
}

fn fold_single(e: Expression) -> Constant {
    let mut t = single_var_tree(e);
    let diags = evaluate_all(&mut t);
    assert!(diags.is_empty(), "unexpected diagnostics");
    t.var_constant(0, "x").expect("variable should be reduced")
}

fn fold_single_err(e: Expression) -> Vec<constfold::Diagnostic> {
    let mut t = single_var_tree(e);
    let diags = evaluate_all(&mut t);
    assert!(t.var_constant(0, "x").is_none(), "errored slot must hold no value");
    assert!(!diags.is_empty(), "expected a diagnostic");
    diags
}

#[test]
fn arithmetic_precedence() {
    let e = bin(BinaryOp::Add, num(1), bin(BinaryOp::Mul, num(2), num(3)));
    assert_eq!(fold_single(e), Constant::Int(7));
}

#[test]
fn numeric_promotion_to_float() {
    let e = bin(BinaryOp::Add, num(1), expr(Term::Float(2.0f32.to_bits())));
    assert_eq!(fold_single(e), Constant::Float(3.0f32.to_bits()));
}

#[test]
fn promotion_in_every_operand_position() {
    let l = loc();
    let two = 2.0f32.to_bits();
    assert_eq!(
        fold_binary(l, Constant::Int(1), Constant::Int(2), BinaryOp::Add),
        Ok(Constant::Int(3))
    );
    assert_eq!(
        fold_binary(l, Constant::Int(1), Constant::Float(two), BinaryOp::Add),
        Ok(Constant::Float(3.0f32.to_bits()))
    );
    assert_eq!(
        fold_binary(l, Constant::Float(two), Constant::Int(1), BinaryOp::Add),
        Ok(Constant::Float(3.0f32.to_bits()))
    );
    assert_eq!(
        fold_binary(l, Constant::Float(two), Constant::Float(two), BinaryOp::Mul),
        Ok(Constant::Float(4.0f32.to_bits()))
    );
}

#[test]
fn float_sub_and_div() {
    let l = loc();
    assert_eq!(
        fold_binary(l, Constant::Float(5.0f32.to_bits()), Constant::Float(2.25f32.to_bits()), BinaryOp::Sub),
        Ok(Constant::Float(2.75f32.to_bits()))
    );
    assert_eq!(
        fold_binary(l, Constant::Float(7.0f32.to_bits()), Constant::Int(2), BinaryOp::Div),
        Ok(Constant::Float(3.5f32.to_bits()))
    );
    // float division by zero yields infinity, not an error
    assert_eq!(
        fold_binary(l, Constant::Float(1.0f32.to_bits()), Constant::Float(0.0f32.to_bits()), BinaryOp::Div),
        Ok(Constant::Float(f32::INFINITY.to_bits()))
    );
}

#[test]
fn integer_wrapping_and_bit_ops() {
    let l = loc();
    assert_eq!(
        fold_binary(l, Constant::Int(i32::MAX), Constant::Int(1), BinaryOp::Add),
        Ok(Constant::Int(i32::MIN))
    );
    assert_eq!(
        fold_binary(l, Constant::Int(0b1100), Constant::Int(0b1010), BinaryOp::BitAnd),
        Ok(Constant::Int(0b1000))
    );
    assert_eq!(
        fold_binary(l, Constant::Int(0b1100), Constant::Int(0b1010), BinaryOp::BitOr),
        Ok(Constant::Int(0b1110))
    );
    assert_eq!(
        fold_binary(l, Constant::Int(1), Constant::Int(4), BinaryOp::LShift),
        Ok(Constant::Int(16))
    );
    assert_eq!(
        fold_binary(l, Constant::Int(-16), Constant::Int(2), BinaryOp::RShift),
        Ok(Constant::Int(-4))
    );
    assert_eq!(
        fold_binary(l, Constant::Int(7), Constant::Int(-2), BinaryOp::Div),
        Ok(Constant::Int(-3))
    );
    assert_eq!(
        fold_binary(l, Constant::Int(i32::MIN), Constant::Int(-1), BinaryOp::Div),
        Ok(Constant::Int(i32::MIN))
    );
}

#[test]
fn division_by_zero_is_reported() {
    let d = fold_single_err(bin(BinaryOp::Div, num(1), num(0)));
    assert!(matches!(d[0].kind, DiagKind::IntegerDivisionByZero));
}

#[test]
fn or_is_not_constant() {
    let d = fold_single_err(bin(BinaryOp::Or, num(1), num(2)));
    assert!(matches!(d[0].kind, DiagKind::NonConstantBinary(_, BinaryOp::Or, _)));
}

#[test]
fn string_concatenation() {
    let e = bin(
        BinaryOp::Add,
        expr(Term::String("hi".to_string())),
        expr(Term::String("!".to_string())),
    );
    assert_eq!(fold_single(e), Constant::String("hi!".to_string()));
}

#[test]
fn rgb_folds_to_hex_string() {
    let e = expr(Term::Call("rgb".to_string(), vec![num(255), num(0), num(128)]));
    assert_eq!(fold_single(e), Constant::String("#ff0080".to_string()));
}

#[test]
fn rgb_clamps_components() {
    let e = expr(Term::Call("rgb".to_string(), vec![num(256), num(-1), num(0)]));
    assert_eq!(fold_single(e), Constant::String("#ff0000".to_string()));
}

#[test]
fn rgb_four_components() {
    let e = expr(Term::Call("rgb".to_string(), vec![num(1), num(2), num(3), num(4)]));
    assert_eq!(fold_single(e), Constant::String("#01020304".to_string()));
}

#[test]
fn rgb_wrong_arity_is_malformed() {
    let d = fold_single_err(expr(Term::Call("rgb".to_string(), vec![num(1)])));
    assert!(matches!(d[0].kind, DiagKind::MalformedRgbCall));
}

#[test]
fn rgb_non_integer_is_malformed() {
    let e = expr(Term::Call(
        "rgb".to_string(),
        vec![expr(Term::String("x".to_string())), num(0), num(0)],
    ));
    let d = fold_single_err(e);
    assert!(matches!(d[0].kind, DiagKind::MalformedRgbCall));
}

#[test]
fn matrix_is_preserved_symbolically() {
    let e = expr(Term::Call(
        "matrix".to_string(),
        vec![num(1), num(0), num(0), num(0), num(1), num(0)],
    ));
    let got = fold_single(e);
    assert_eq!(
        got,
        Constant::Call(
            ConstFn::Matrix,
            vec![
                Constant::Int(1),
                Constant::Int(0),
                Constant::Int(0),
                Constant::Int(0),
                Constant::Int(1),
                Constant::Int(0)
            ]
        )
    );
}

#[test]
fn unknown_function_is_not_constant() {
    let d = fold_single_err(expr(Term::Call("sin".to_string(), vec![num(1)])));
    assert!(matches!(&d[0].kind, DiagKind::NonConstantFunctionCall(n) if n == "sin"));
}

#[test]
fn list_preserves_insertion_order() {
    let e = expr(Term::List(vec![
        (expr(Term::String("a".to_string())), Some(num(1))),
        (expr(Term::String("b".to_string())), Some(num(2))),
    ]));
    assert_eq!(
        fold_single(e),
        Constant::List(vec![
            (Constant::String("a".to_string()), Some(Constant::Int(1))),
            (Constant::String("b".to_string()), Some(Constant::Int(2))),
        ])
    );
}

#[test]
fn ident_list_key_becomes_string_with_warning() {
    let e = expr(Term::List(vec![(ident("tag"), Some(num(1)))]));
    let mut t = single_var_tree(e);
    let diags = evaluate_all(&mut t);
    assert_eq!(diags.len(), 1);
    assert!(matches!(&diags[0].kind, DiagKind::IdentUsedAsListKey(n) if n == "tag"));
    assert_eq!(
        t.var_constant(0, "x").unwrap(),
        Constant::List(vec![(Constant::String("tag".to_string()), Some(Constant::Int(1)))])
    );
}

#[test]
fn cycle_is_detected_and_nothing_stored() {
    let mut t = ObjectTree::new();
    let c = t.add_class("/const", None);
    t.add_decl(c, "a", vec![], false, true);
    t.add_decl(c, "b", vec![], false, true);
    assert!(t.add_var(c, "a", loc(), Some(ident("b"))));
    assert!(t.add_var(c, "b", loc(), Some(ident("a"))));
    let diags = evaluate_all(&mut t);
    assert_eq!(diags.len(), 2);
    assert!(diags.iter().all(|d| matches!(d.kind, DiagKind::CyclicReference(_))));
    assert!(t.var_constant(c, "a").is_none());
    assert!(t.var_constant(c, "b").is_none());
}

#[test]
fn self_cycle_of_length_one() {
    let d = fold_single_err(ident("x"));
    assert!(matches!(&d[0].kind, DiagKind::CyclicReference(n) if n == "x"));
}

#[test]
fn static_field_through_typed_null() {
    let mut t = ObjectTree::new();
    let root = t.add_class("/", None);
    let c = t.add_class("/C", Some(root));
    t.add_decl(c, "M", vec![], true, true);
    assert!(t.add_var(c, "M", loc(), Some(num(4))));
    let d = t.add_class("/D", Some(root));
    t.add_decl(d, "g", vec![seg(PathOp::Slash, "C")], false, true);
    assert!(t.add_var(d, "g", loc(), None));
    t.add_decl(d, "x", vec![], false, true);
    let access = Expression::Base {
        unary: vec![],
        term: Box::new(Term::Ident("g".to_string())),
        follow: vec![Follow::Field("M".to_string())],
    };
    assert!(t.add_var(d, "x", loc(), Some(access)));
    let diags = evaluate_all(&mut t);
    assert!(diags.is_empty());
    assert_eq!(t.var_constant(d, "x").unwrap(), Constant::Int(4));
}

#[test]
fn path_join_discards_segment_prefixes() {
    // a dot- or colon-prefixed segment still joins with a slash
    for op in [PathOp::Slash, PathOp::Dot, PathOp::Colon] {
        let mut t = ObjectTree::new();
        let c = t.add_class("/C", None);
        t.add_decl(c, "M", vec![], true, true);
        assert!(t.add_var(c, "M", loc(), Some(num(9))));
        let d = t.add_class("/D", None);
        t.add_decl(d, "g", vec![seg(op, "C")], false, true);
        assert!(t.add_var(d, "g", loc(), None));
        t.add_decl(d, "x", vec![], false, true);
        let access = Expression::Base {
            unary: vec![],
            term: Box::new(Term::Ident("g".to_string())),
            follow: vec![Follow::Field("M".to_string())],
        };
        assert!(t.add_var(d, "x", loc(), Some(access)));
        let diags = evaluate_all(&mut t);
        assert!(diags.is_empty());
        assert_eq!(t.var_constant(d, "x").unwrap(), Constant::Int(9));
    }
}

#[test]
fn non_static_field_through_typed_null_fails() {
    // the accessing class comes first, so the driver forces the per-instance
    // variable through the static-only path before reducing it itself
    let mut t = ObjectTree::new();
    let d = t.add_class("/D", None);
    let c = t.add_class("/C", None);
    t.add_decl(c, "M", vec![], false, true);
    assert!(t.add_var(c, "M", Location { file: 0, line: 9, column: 9 }, Some(num(4))));
    t.add_decl(d, "g", vec![seg(PathOp::Slash, "C")], false, true);
    assert!(t.add_var(d, "g", loc(), None));
    t.add_decl(d, "x", vec![], false, true);
    let access = Expression::Base {
        unary: vec![],
        term: Box::new(Term::Ident("g".to_string())),
        follow: vec![Follow::Field("M".to_string())],
    };
    assert!(t.add_var(d, "x", loc(), Some(access)));
    let diags = evaluate_all(&mut t);
    assert_eq!(diags.len(), 1);
    assert!(matches!(&diags[0].kind, DiagKind::NonStaticVariable(n) if n == "M"));
    // the diagnostic names the offending slot, not the referencing one
    assert_eq!(diags[0].location, Location { file: 0, line: 9, column: 9 });
}

#[test]
fn unknown_typepath_is_reported() {
    let mut t = ObjectTree::new();
    let d = t.add_class("/D", None);
    t.add_decl(d, "g", vec![seg(PathOp::Slash, "Nowhere")], false, true);
    assert!(t.add_var(d, "g", loc(), None));
    t.add_decl(d, "x", vec![], false, true);
    let access = Expression::Base {
        unary: vec![],
        term: Box::new(Term::Ident("g".to_string())),
        follow: vec![Follow::Field("M".to_string())],
    };
    assert!(t.add_var(d, "x", loc(), Some(access)));
    let diags = evaluate_all(&mut t);
    assert_eq!(diags.len(), 1);
    assert!(matches!(&diags[0].kind, DiagKind::UnknownTypepath(p) if p == "/Nowhere"));
}

#[test]
fn unknown_variable_is_reported() {
    let mut t = ObjectTree::new();
    let c = t.add_class("/const", None);
    t.add_decl(c, "x", vec![], false, true);
    assert!(t.add_var(c, "x", loc(), Some(ident("nope"))));
    let diags = evaluate_all(&mut t);
    assert_eq!(diags.len(), 1);
    assert!(matches!(&diags[0].kind, DiagKind::UnknownVariable(n) if n == "nope"));
}

#[test]
fn non_const_variable_reference_fails() {
    let mut t = ObjectTree::new();
    let c = t.add_class("/const", None);
    t.add_decl(c, "mutable", vec![], false, false);
    assert!(t.add_var(c, "mutable", loc(), Some(num(1))));
    t.add_decl(c, "x", vec![], false, true);
    assert!(t.add_var(c, "x", loc(), Some(ident("mutable"))));
    let diags = evaluate_all(&mut t);
    assert_eq!(diags.len(), 1);
    assert!(matches!(&diags[0].kind, DiagKind::NonConstVariable(n) if n == "mutable"));
}

#[test]
fn augmented_assignment_is_not_constant() {
    let e = Expression::AssignOp { lhs: Box::new(num(1)), rhs: Box::new(num(2)) };
    let d = fold_single_err(e);
    assert!(matches!(d[0].kind, DiagKind::NonConstantAugmentedAssignment));
}

#[test]
fn new_with_identifier_type_is_not_constant() {
    let e = expr(Term::New {
        type_: NewType::Ident("thing".to_string()),
        args: None,
    });
    let d = fold_single_err(e);
    assert!(matches!(d[0].kind, DiagKind::NonConstantNewExpression));
}

#[test]
fn new_with_prefab_type_is_preserved() {
    let e = expr(Term::New {
        type_: NewType::Prefab(Prefab {
            path: vec![seg(PathOp::Slash, "obj")],
            vars: vec![("n".to_string(), num(3))],
        }),
        args: Some(vec![num(1), num(2)]),
    });
    let got = fold_single(e);
    match got {
        Constant::New { type_: NewType::Prefab(p), args: Some(args) } => {
            assert_eq!(p.path.len(), 1);
            assert_eq!(p.vars, vec![("n".to_string(), Constant::Int(3))]);
            assert_eq!(args, vec![Constant::Int(1), Constant::Int(2)]);
        },
        other => panic!("unexpected fold result: {:?}", other),
    }
}

#[test]
fn unary_operators() {
    let l = loc();
    assert_eq!(fold_unary(l, Constant::Int(5), UnaryOp::Neg), Ok(Constant::Int(-5)));
    assert_eq!(fold_unary(l, Constant::Int(0), UnaryOp::Not), Ok(Constant::Int(1)));
    assert_eq!(fold_unary(l, Constant::Int(3), UnaryOp::Not), Ok(Constant::Int(0)));
    assert_eq!(fold_unary(l, Constant::Int(0), UnaryOp::BitNot), Ok(Constant::Int(-1)));
    assert_eq!(
        fold_unary(l, Constant::Float(1.5f32.to_bits()), UnaryOp::Neg),
        Ok(Constant::Float((-1.5f32).to_bits()))
    );
    let err = fold_unary(l, Constant::String("s".to_string()), UnaryOp::Neg);
    assert!(matches!(err, Err(d) if matches!(d.kind, DiagKind::NonConstantUnary(..))));
}

#[test]
fn unary_applied_after_follows_right_to_left() {
    let e = Expression::Base {
        unary: vec![UnaryOp::Neg, UnaryOp::BitNot],
        term: Box::new(Term::Int(5)),
        follow: vec![],
    };
    // BitNot first (innermost), then Neg: -(!5) == -(-6) == 6
    assert_eq!(fold_single(e), Constant::Int(6));
}

#[test]
fn field_follow_on_primitive_fails() {
    let e = Expression::Base {
        unary: vec![],
        term: Box::new(Term::Int(1)),
        follow: vec![Follow::Field("f".to_string())],
    };
    let d = fold_single_err(e);
    assert!(matches!(
        d[0].kind,
        DiagKind::NonConstantExpressionFollower(ConstKind::Int, FollowKind::Field)
    ));
}

#[test]
fn index_follower_is_not_constant() {
    let e = Expression::Base {
        unary: vec![],
        term: Box::new(Term::String("s".to_string())),
        follow: vec![Follow::Index(Box::new(num(0)))],
    };
    let d = fold_single_err(e);
    assert!(matches!(
        d[0].kind,
        DiagKind::NonConstantExpressionFollower(ConstKind::String, FollowKind::Index)
    ));
}

#[test]
fn missing_initializer_reduces_to_typed_null() {
    let mut t = ObjectTree::new();
    let c = t.add_class("/const", None);
    let path: TypePath = vec![seg(PathOp::Slash, "obj")];
    t.add_decl(c, "x", path, false, true);
    assert!(t.add_var(c, "x", loc(), None));
    let diags = evaluate_all(&mut t);
    assert!(diags.is_empty());
    match t.var_constant(c, "x").unwrap() {
        Constant::Null(Some(p)) => {
            assert_eq!(p.len(), 1);
            assert_eq!(p[0].name, "obj");
        },
        other => panic!("unexpected value: {:?}", other),
    }
}

#[test]
fn nested_parenthesised_expression_keeps_hint() {
    let inner = expr(Term::Null);
    let e = expr(Term::Expr(Box::new(inner)));
    let mut t = ObjectTree::new();
    let c = t.add_class("/const", None);
    t.add_decl(c, "x", vec![seg(PathOp::Slash, "obj")], false, true);
    assert!(t.add_var(c, "x", loc(), Some(e)));
    let diags = evaluate_all(&mut t);
    assert!(diags.is_empty());
    match t.var_constant(c, "x").unwrap() {
        Constant::Null(Some(p)) => assert_eq!(p[0].name, "obj"),
        other => panic!("unexpected value: {:?}", other),
    }
}

#[test]
fn memoized_value_reused_across_variables() {
    let mut t = ObjectTree::new();
    let c = t.add_class("/const", None);
    t.add_decl(c, "base", vec![], false, true);
    assert!(t.add_var(c, "base", loc(), Some(num(21))));
    t.add_decl(c, "twice", vec![], false, true);
    assert!(t.add_var(c, "twice", loc(), Some(bin(BinaryOp::Add, ident("base"), ident("base")))));
    let diags = evaluate_all(&mut t);
    assert!(diags.is_empty());
    assert_eq!(t.var_constant(c, "base").unwrap(), Constant::Int(21));
    assert_eq!(t.var_constant(c, "twice").unwrap(), Constant::Int(42));
}

#[test]
fn inherited_declaration_resolves_from_subclass() {
    let mut t = ObjectTree::new();
    let parent = t.add_class("/base", None);
    t.add_decl(parent, "k", vec![], false, true);
    assert!(t.add_var(parent, "k", loc(), Some(num(11))));
    let child = t.add_class("/base/kid", Some(parent));
    t.add_decl(child, "x", vec![], false, true);
    assert!(t.add_var(child, "x", loc(), Some(bin(BinaryOp::Add, ident("k"), num(1)))));
    let diags = evaluate_all(&mut t);
    assert!(diags.is_empty());
    assert_eq!(t.var_constant(child, "x").unwrap(), Constant::Int(12));
}

#[test]
fn folding_twice_is_idempotent() {
    let mut t = ObjectTree::new();
    let c = t.add_class("/const", None);
    t.add_decl(c, "x", vec![], false, true);
    assert!(t.add_var(c, "x", loc(), Some(bin(BinaryOp::Mul, num(6), num(7)))));
    t.add_decl(c, "bad", vec![], false, true);
    assert!(t.add_var(c, "bad", loc(), Some(ident("bad"))));
    let d1 = evaluate_all(&mut t);
    let x1 = t.var_constant(c, "x");
    let bad1 = t.var_constant(c, "bad");
    let d2 = evaluate_all(&mut t);
    assert_eq!(t.var_constant(c, "x"), x1);
    assert_eq!(t.var_constant(c, "bad"), bad1);
    assert_eq!(x1.unwrap(), Constant::Int(42));
    assert!(bad1.is_none());
    assert_eq!(d1.len(), 1);
    assert_eq!(d2.len(), 1);
}

#[test]
fn driver_order_does_not_change_results() {
    // same two classes, inserted in both orders; D.x forces C.M either way
    let build = |c_first: bool| {
        let mut t = ObjectTree::new();
        let (c, d);
        if c_first {
            c = t.add_class("/C", None);
            d = t.add_class("/D", None);
        } else {
            d = t.add_class("/D", None);
            c = t.add_class("/C", None);
        }
        t.add_decl(c, "M", vec![], true, true);
        assert!(t.add_var(c, "M", loc(), Some(num(4))));
        t.add_decl(d, "g", vec![seg(PathOp::Slash, "C")], false, true);
        assert!(t.add_var(d, "g", loc(), None));
        t.add_decl(d, "x", vec![], false, true);
        let access = Expression::Base {
            unary: vec![],
            term: Box::new(Term::Ident("g".to_string())),
            follow: vec![Follow::Field("M".to_string())],
        };
        assert!(t.add_var(d, "x", loc(), Some(access)));
        let diags = evaluate_all(&mut t);
        assert!(diags.is_empty());
        (t.var_constant(c, "M").unwrap(), t.var_constant(d, "x").unwrap())
    };
    assert_eq!(build(true), build(false));
}

#[test]
fn list_hint_propagates_element_type_to_members() {
    // a declaration typed /list/obj hints each element as /obj
    let mut t = ObjectTree::new();
    let c = t.add_class("/const", None);
    t.add_decl(
        c,
        "x",
        vec![seg(PathOp::Slash, "list"), seg(PathOp::Slash, "obj")],
        false,
        true,
    );
    let e = expr(Term::List(vec![(expr(Term::Null), None)]));
    assert!(t.add_var(c, "x", loc(), Some(e)));
    let diags = evaluate_all(&mut t);
    assert!(diags.is_empty());
    match t.var_constant(c, "x").unwrap() {
        Constant::List(elems) => match &elems[0].0 {
            Constant::Null(Some(p)) => {
                assert_eq!(p.len(), 1);
                assert_eq!(p[0].name, "obj");
            },
            other => panic!("unexpected element: {:?}", other),
        },
        other => panic!("unexpected value: {:?}", other),
    }
}

#[test]
fn null_identifier_keeps_declared_type() {
    let mut t = ObjectTree::new();
    let c = t.add_class("/const", None);
    t.add_decl(c, "x", vec![seg(PathOp::Slash, "obj")], false, true);
    assert!(t.add_var(c, "x", loc(), Some(ident("null"))));
    let diags = evaluate_all(&mut t);
    assert!(diags.is_empty());
    match t.var_constant(c, "x").unwrap() {
        Constant::Null(Some(p)) => assert_eq!(p[0].name, "obj"),
        other => panic!("unexpected value: {:?}", other),
    }
}

#[test]
fn prefab_literal_keeps_path_and_folds_overrides() {
    let e = expr(Term::Prefab(Prefab {
        path: vec![seg(PathOp::Slash, "obj"), seg(PathOp::Slash, "door")],
        vars: vec![("opacity".to_string(), bin(BinaryOp::Add, num(1), num(1)))],
    }));
    match fold_single(e) {
        Constant::Prefab(p) => {
            assert_eq!(p.path.len(), 2);
            assert_eq!(p.path[1].name, "door");
            assert_eq!(p.vars, vec![("opacity".to_string(), Constant::Int(2))]);
        },
        other => panic!("unexpected value: {:?}", other),
    }
}

#[test]
fn resolver_continues_past_missing_declarations() {
    let mut t = ObjectTree::new();
    let root = t.add_class("/", None);
    let child = t.add_class("/kid", Some(root));
    let mut diags = Vec::new();
    // nothing declared anywhere: the resolver signals "continue", then the
    // chain ends
    match constant_ident_lookup(&mut t, child, "ghostly", false, &mut diags) {
        Ok(ConstLookup::Continue(next)) => assert_eq!(next, None),
        other => panic!("unexpected resolver answer: {:?}", matches!(other, Ok(_))),
    }
    let err = recursive_lookup(&mut t, child, loc(), "ghostly", false, &mut diags);
    assert!(matches!(err, Err(d) if matches!(&d.kind, DiagKind::UnknownVariable(n) if n == "ghostly")));
    assert!(diags.is_empty());
}

#[test]
fn resolver_walks_to_the_declaring_parent() {
    let mut t = ObjectTree::new();
    let root = t.add_class("/", None);
    t.add_decl(root, "k", vec![], false, true);
    assert!(t.add_var(root, "k", loc(), Some(num(11))));
    let child = t.add_class("/kid", Some(root));
    let mut diags = Vec::new();
    let got = recursive_lookup(&mut t, child, loc(), "k", false, &mut diags);
    assert!(matches!(got, Ok(Constant::Int(11))));
    assert!(diags.is_empty());
    // memoized now: a second lookup answers from the slot
    let again = recursive_lookup(&mut t, child, loc(), "k", false, &mut diags);
    assert!(matches!(again, Ok(Constant::Int(11))));
}

#[test]
fn errors_carry_the_offending_slot_location() {
    // the failing slot sits at line 7; the reference that forces it sits at
    // line 2: the diagnostic must name line 7
    let mut t = ObjectTree::new();
    let c = t.add_class("/const", None);
    t.add_decl(c, "mutable", vec![], false, false);
    assert!(t.add_var(c, "mutable", Location { file: 0, line: 7, column: 3 }, Some(num(1))));
    t.add_decl(c, "x", vec![], false, true);
    assert!(t.add_var(c, "x", Location { file: 0, line: 2, column: 1 }, Some(ident("mutable"))));
    let diags = evaluate_all(&mut t);
    assert_eq!(diags.len(), 1);
    assert!(matches!(&diags[0].kind, DiagKind::NonConstVariable(n) if n == "mutable"));
    assert_eq!(diags[0].location, Location { file: 0, line: 7, column: 3 });
}
