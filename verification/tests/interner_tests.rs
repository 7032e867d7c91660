use bumpalo::Bump;
use lily::ast::colosseum::Colosseum;
use lily::ast::exprs::{
    ApplicationArgument, BinderKind, CaseArm, DoStmt, ExprKind, LilyF64, LiteralKind,
};
use lily::ast::types::{ApplicationKind, TypeKind, VariableKind};
use lily::ast::{Ann, Span};
use lily::interner::{Interned, Interner, Key, StringInterner};

#[test]
fn it_works_as_intended() {
    let arena = Bump::new();
    let mut colosseum = Colosseum::new(&arena);

    // `forall (a : Type) . a -> a`
    let k = colosseum.make_constructor(Ann::FromCompiler, "Type");
    let v = colosseum.make_variable(Ann::FromCompiler, "a");
    let f = colosseum.make_function(Ann::FromCompiler, v, v);
    let _ = colosseum.make_forall(Ann::FromCompiler, "a", Some(k), f);

    let allocated_0 = arena.allocated_bytes();

    for _ in 1..100 {
        let k = colosseum.make_constructor(Ann::FromCompiler, "Type");
        let v = colosseum.make_variable(Ann::FromCompiler, "a");
        let f = colosseum.make_function(Ann::FromCompiler, v, v);
        let _ = colosseum.make_forall(Ann::FromCompiler, "a", Some(k), f);
    }

    let allocated_1 = arena.allocated_bytes();

    assert_eq!(allocated_0, allocated_1);
}

#[test]
fn string_interning() {
    let arena = Bump::new();
    let mut interner = StringInterner::new(&arena);
    let v1 = interner.intern("hello");
    let v2 = interner.intern("hello");
    assert_eq!(v1, v2)
}

#[test]
fn expression_interning() {
    let arena = Bump::new();
    let mut colosseum = Colosseum::new(&arena);
    let v1 = colosseum.intern_string("hello");
    let v2 = colosseum.intern_string("hello");
    let k1 = colosseum.make_expr(Ann::FromCompiler, ExprKind::Variable(v1));
    let k2 = colosseum.make_expr(Ann::FromCompiler, ExprKind::Variable(v2));
    assert_eq!(v1, v2);
    assert_eq!(k1, k2);
}

#[test]
fn strings_are_stored_once_in_order() {
    let arena = Bump::new();
    let mut interner = StringInterner::new(&arena);
    let a = interner.intern("a");
    let b = interner.intern("b");
    let again = interner.intern("a");
    assert_eq!((a.index(), b.index(), again.index()), (0, 1, 0));
    assert_eq!((a.as_str(), b.as_str()), ("a", "b"));
    assert_ne!(a, b);
    assert!(a.same(&again));
    assert_eq!(interner.len(), 2);
    // The handle points into the arena, not at the argument.
    let owned = String::from("c");
    let c = interner.intern(&owned);
    drop(owned);
    assert_eq!(c.as_str(), "c");
}

#[test]
fn interning_twice_is_interning_once() {
    let arena = Bump::new();
    let mut interner: Interner<Ann> = Interner::new(&arena);
    let first = interner.intern(Ann::FromSource(Span(1, 2)));
    let bytes = arena.allocated_bytes();
    let second = interner.intern(*first.get());
    assert_eq!(first, second);
    assert_eq!(interner.len(), 1);
    assert_eq!(arena.allocated_bytes(), bytes);
    let other = interner.intern(Ann::FromCompiler);
    assert_ne!(first, other);
    assert_eq!(other.index(), 1);
    assert!(arena.allocated_bytes() >= bytes);
    assert_eq!(*other.get(), Ann::FromCompiler);
    assert_eq!(Interned::new(first.get(), 0), first);
    assert_eq!(first.clone(), first);
}

#[test]
fn keys_tell_annotations_apart() {
    assert_eq!(Ann::FromCompiler.key(), vec![0]);
    assert_eq!(Ann::FromSource(Span(3, 9)).key(), vec![1, 3, 9]);
}

#[test]
fn types_are_told_apart_by_their_parts() {
    let arena = Bump::new();
    let mut colosseum = Colosseum::new(&arena);
    let a = colosseum.make_variable(Ann::FromCompiler, "a");
    let skolem = colosseum.make_skolem(Ann::FromCompiler, "a");
    let unification = colosseum.make_unification(Ann::FromCompiler, 0);
    let constructor = colosseum.make_constructor(Ann::FromCompiler, "a");
    assert_ne!(a, skolem);
    assert_ne!(a, unification);
    assert_ne!(a, constructor);
    let typed = colosseum.make_type_application(Ann::FromCompiler, constructor, a);
    let kinded = colosseum.make_kind_application(Ann::FromCompiler, constructor, a);
    assert_ne!(typed, kinded);
    assert_eq!(typed, colosseum.make_type_application(Ann::FromCompiler, constructor, a));
    assert_eq!(
        *typed.1.get(),
        TypeKind::Application(ApplicationKind::TypeApplication, constructor, a)
    );
    let forall = colosseum.make_forall(Ann::FromCompiler, "a", None, a);
    let exists = colosseum.make_exists(Ann::FromCompiler, "a", None, a);
    let with_kind = colosseum.make_forall(Ann::FromCompiler, "a", Some(constructor), a);
    assert_ne!(forall, exists);
    assert_ne!(forall, with_kind);
    let function = colosseum.make_function(Ann::FromCompiler, a, a);
    let kinded = colosseum.make_kinded(Ann::FromCompiler, a, a);
    assert_ne!(function, kinded);
    // The annotation is part of the node.
    let from_source = colosseum.make_variable(Ann::FromSource(Span(0, 1)), "a");
    assert_ne!(a, from_source);
    assert_eq!(a.1, from_source.1);
    assert_eq!(*from_source.0.get(), Ann::FromSource(Span(0, 1)));
    assert!(matches!(*unification.1.get(), TypeKind::Variable(VariableKind::Unification(0))));
}

#[test]
fn floats_are_interned_by_their_bits() {
    let arena = Bump::new();
    let mut colosseum = Colosseum::new(&arena);
    let nan = f64::NAN.to_bits();
    let literal = |bits| ExprKind::Literal(LiteralKind::Float(LilyF64::from_bits(bits)));
    let a = colosseum.make_expr(Ann::FromCompiler, literal(nan));
    let b = colosseum.make_expr(Ann::FromCompiler, literal(nan));
    assert_eq!(a, b);
    assert_eq!(LilyF64::from_bits(nan).bits(), nan);
    let zero = colosseum.make_expr(Ann::FromCompiler, literal(0.0f64.to_bits()));
    let negative_zero = colosseum.make_expr(Ann::FromCompiler, literal((-0.0f64).to_bits()));
    assert_ne!(zero, negative_zero);
    match a.1.get() {
        ExprKind::Literal(LiteralKind::Float(number)) => assert_eq!(number.bits(), nan),
        other => panic!("{:?}", other),
    }
}

#[test]
fn expression_kinds_have_distinct_keys() {
    let arena = Bump::new();
    let mut colosseum = Colosseum::new(&arena);
    let x = colosseum.intern_string("x");
    let y = colosseum.intern_string("y");
    let vx = colosseum.make_expr(Ann::FromCompiler, ExprKind::Variable(x));
    let vy = colosseum.make_expr(Ann::FromCompiler, ExprKind::Variable(y));
    let int = colosseum.make_type(Ann::FromCompiler, TypeKind::Constructor(x));
    let null = colosseum.make_binder(Ann::FromCompiler, BinderKind::Null);
    let bound = colosseum.make_binder(Ann::FromCompiler, BinderKind::Variable(x));
    let kinds = vec![
        ExprKind::Annotation(vx, int),
        ExprKind::Application(vx, ApplicationArgument::ExprArgument(vy)),
        ExprKind::Application(vx, ApplicationArgument::TypeArgument(int)),
        ExprKind::IfThenElse(vx, vy, vx),
        ExprKind::IfThenElse(vx, vx, vy),
        ExprKind::Lambda(x, vx),
        ExprKind::LetBinding(x, None, vx),
        ExprKind::LetBinding(x, Some(int), vx),
        ExprKind::Literal(LiteralKind::Char('c')),
        ExprKind::Literal(LiteralKind::String(x)),
        ExprKind::Literal(LiteralKind::Int(-1)),
        ExprKind::Literal(LiteralKind::Int(1)),
        ExprKind::Literal(LiteralKind::Array(vec![])),
        ExprKind::Literal(LiteralKind::Array(vec![vx, vy])),
        ExprKind::Literal(LiteralKind::Array(vec![vy, vx])),
        ExprKind::Literal(LiteralKind::Object(vec![])),
        ExprKind::Literal(LiteralKind::Object(vec![(x, vx)])),
        ExprKind::Literal(LiteralKind::Object(vec![(y, vx)])),
        ExprKind::Variable(y),
        ExprKind::Case(vec![vx], vec![]),
        ExprKind::Case(vec![], vec![CaseArm { binders: vec![], condition: None, expression: vx }]),
        ExprKind::Case(
            vec![],
            vec![CaseArm { binders: vec![], condition: Some(vx), expression: vx }],
        ),
        ExprKind::Case(
            vec![],
            vec![CaseArm { binders: vec![null], condition: None, expression: vx }],
        ),
        ExprKind::Case(
            vec![],
            vec![CaseArm { binders: vec![bound], condition: None, expression: vx }],
        ),
        ExprKind::DoBlock(vec![]),
        ExprKind::DoBlock(vec![DoStmt::Discard(vx)]),
        ExprKind::DoBlock(vec![DoStmt::Bind(null, vx)]),
        ExprKind::DoBlock(vec![DoStmt::Let(x, None, vx)]),
        ExprKind::DoBlock(vec![DoStmt::Let(x, Some(int), vx)]),
        ExprKind::DoBlock(vec![DoStmt::Discard(vx), DoStmt::Discard(vy)]),
    ];
    let keys: Vec<Vec<u64>> = kinds.iter().map(|kind| kind.key()).collect();
    for (i, a) in keys.iter().enumerate() {
        for (j, b) in keys.iter().enumerate() {
            assert_eq!(i == j, a == b, "{:?} {:?}", kinds[i], kinds[j]);
        }
    }
    assert_eq!(ExprKind::Literal(LiteralKind::Int(-1)).key(), vec![5, 2, 0x7fff_ffff]);
    assert_eq!(ExprKind::Literal(LiteralKind::Int(i32::MIN)).key(), vec![5, 2, 0]);
}

#[test]
fn binders_are_interned() {
    let arena = Bump::new();
    let mut colosseum = Colosseum::new(&arena);
    let x = colosseum.intern_string("x");
    let null = colosseum.make_binder(Ann::FromCompiler, BinderKind::Null);
    let variable = colosseum.make_binder(Ann::FromCompiler, BinderKind::Variable(x));
    assert_ne!(null, variable);
    assert_eq!(null, colosseum.make_binder(Ann::FromCompiler, BinderKind::Null));
    let literal = |literal| BinderKind::Literal(literal);
    let array = colosseum.make_binder(
        Ann::FromCompiler,
        literal(LiteralKind::Array(vec![null, variable])),
    );
    let again = colosseum.make_binder(
        Ann::FromCompiler,
        literal(LiteralKind::Array(vec![null, variable])),
    );
    let other = colosseum.make_binder(
        Ann::FromCompiler,
        literal(LiteralKind::Array(vec![variable, null])),
    );
    assert_eq!(array, again);
    assert_ne!(array, other);
    let object = colosseum.make_binder(
        Ann::FromCompiler,
        literal(LiteralKind::Object(vec![(x, null)])),
    );
    assert_ne!(object, array);
    assert_eq!(BinderKind::Literal(LiteralKind::Object(vec![(x, null)])).key(), vec![1, 5, 1, 0, 0, 0]);
    assert_eq!(BinderKind::Literal(LiteralKind::Char('a')).key(), vec![1, 0, 97]);
    assert_eq!(BinderKind::Literal(LiteralKind::Int(0)).key(), vec![1, 2, 0x8000_0000]);
    assert_eq!(
        BinderKind::Literal(LiteralKind::Float(LilyF64::from_bits(7))).key(),
        vec![1, 3, 7]
    );
    assert_eq!(BinderKind::Literal(LiteralKind::String(x)).key(), vec![1, 1, 0]);
}
