use lily::ast::ty::{ApplicationVariant, Type};
use lily::ast::variables::{
    contains_text, copy_type, insert_number, insert_text, TypeVariableTraversal,
    TypeVariableVisitor,
};
use lily::ast::Ann;
use lily::tc::context::{Context, Element, VariableVariant};
use lily::tc::fresh::Fresh;
use lily::tc::state::State;
use std::rc::Rc;

type T = Type<Ann>;

fn variable(name: &str) -> Rc<T> {
    Rc::new(Type::Variable { ann: Ann::FromCompiler, name: name.into() })
}

fn skolem(name: &str) -> Rc<T> {
    Rc::new(Type::Skolem { ann: Ann::FromCompiler, name: name.into() })
}

fn unsolved(name: i32) -> Rc<T> {
    Rc::new(Type::Unsolved { ann: Ann::FromCompiler, name })
}

fn constructor(name: &str) -> Rc<T> {
    Rc::new(Type::Constructor { ann: Ann::FromCompiler, name: name.into() })
}

fn function(argument: Rc<T>, result: Rc<T>) -> Rc<T> {
    Rc::new(Type::Function { ann: Ann::FromCompiler, argument, result })
}

fn application(function: Rc<T>, argument: Rc<T>) -> Rc<T> {
    Rc::new(Type::Application {
        ann: Ann::FromCompiler,
        variant: ApplicationVariant::Type,
        function,
        argument,
    })
}

fn quantified(name: &str, kind: Option<T>, body: Rc<T>) -> Rc<T> {
    Rc::new(Type::Forall { ann: Ann::FromCompiler, name: name.into(), kind: Rc::new(kind), body })
}

#[test]
fn gathers_free_variables_each_once() {
    // forall (a : k). a -> b -> b -> ?1 -> s
    let kind = Type::Variable { ann: Ann::FromCompiler, name: "k".into() };
    let body = function(
        variable("a"),
        function(variable("b"), function(variable("b"), function(unsolved(1), skolem("s")))),
    );
    let gathered = TypeVariableVisitor::from_type(&*quantified("a", Some(kind), body));
    assert_eq!(gathered.syntactic, vec!["k", "b"]);
    assert_eq!(gathered.skolem, vec!["s"]);
    assert_eq!(gathered.unification, vec![1]);
}

#[test]
fn a_quantifier_binds_in_its_body_only() {
    // (forall a. a) a : the second `a` is free.
    let ty = application(quantified("a", None, variable("a")), variable("a"));
    assert_eq!(TypeVariableVisitor::from_type(&*ty).syntactic, vec!["a"]);
    // forall (a : a). a : the `a` of the kind is free.
    let kind = Type::Variable { ann: Ann::FromCompiler, name: "a".into() };
    let ty = quantified("a", Some(kind), variable("a"));
    assert_eq!(TypeVariableVisitor::from_type(&*ty).syntactic, vec!["a"]);
    let closed = quantified("a", None, variable("a"));
    assert!(TypeVariableVisitor::from_type(&*closed).syntactic.is_empty());
    assert!(TypeVariableVisitor::from_type(&*constructor("Int")).syntactic.is_empty());
}

#[test]
fn text_and_number_sets() {
    let mut names = vec![];
    insert_text(&mut names, "a");
    insert_text(&mut names, "b");
    insert_text(&mut names, "a");
    assert_eq!(names, vec!["a", "b"]);
    assert!(contains_text(&names, "b"));
    assert!(!contains_text(&names, "c"));
    let mut numbers = vec![];
    insert_number(&mut numbers, 3);
    insert_number(&mut numbers, 3);
    insert_number(&mut numbers, -1);
    assert_eq!(numbers, vec![3, -1]);
}

#[test]
fn substitutes_free_syntactic_variables() {
    let traversal = TypeVariableTraversal::with_syntactic(vec![
        ("a".to_string(), constructor("Int")),
        ("b".to_string(), constructor("Bool")),
        ("a".to_string(), constructor("Char")),
    ]);
    // a -> (forall a. a -> b) -> c
    let ty = function(
        variable("a"),
        function(quantified("a", None, function(variable("a"), variable("b"))), variable("c")),
    );
    let expected = function(
        constructor("Char"),
        function(quantified("a", None, function(variable("a"), constructor("Bool"))), variable("c")),
    );
    assert_eq!(traversal.on_type(ty), expected);
}

#[test]
fn substitutes_unification_variables() {
    let traversal = TypeVariableTraversal::with_unification(vec![(1, constructor("Int"))]);
    let ty = application(unsolved(1), application(unsolved(2), skolem("s")));
    let expected = application(constructor("Int"), application(unsolved(2), skolem("s")));
    assert_eq!(traversal.on_type(ty), expected);
    let kind = Type::Unsolved { ann: Ann::FromCompiler, name: 1 };
    let traversal = TypeVariableTraversal::with_unification(vec![(1, constructor("Type"))]);
    let expected_kind = Type::Constructor { ann: Ann::FromCompiler, name: "Type".into() };
    assert_eq!(
        traversal.on_type(quantified("a", Some(kind), variable("a"))),
        quantified("a", Some(expected_kind), variable("a"))
    );
    assert_eq!(copy_type(&*variable("a")), *variable("a"));
}

fn context() -> Context {
    Context::from_elements(vec![
        Element::Variable {
            name: "a".into(),
            kind: Rc::new(None),
            variant: VariableVariant::Syntactic,
        },
        Element::Variable { name: "s".into(), kind: Rc::new(None), variant: VariableVariant::Skolem },
        Element::Unsolved { name: 1, kind: Rc::new(None) },
        Element::Variable {
            name: "b".into(),
            kind: Rc::new(None),
            variant: VariableVariant::Syntactic,
        },
        Element::Solved { name: 2, kind: Rc::new(None), ty: constructor("Int") },
    ])
}

#[test]
fn well_formed_types_name_what_the_context_holds() {
    let context = context();
    assert!(context.type_is_well_formed(&*function(variable("a"), variable("b"))));
    assert!(context.type_is_well_formed(&*function(unsolved(1), unsolved(2))));
    assert!(context.type_is_well_formed(&*skolem("s")));
    assert!(context.type_is_well_formed(&*quantified("c", None, variable("c"))));
    assert!(!context.type_is_well_formed(&*variable("c")));
    assert!(!context.type_is_well_formed(&*unsolved(3)));
    // The sorts are kept apart.
    assert!(!context.type_is_well_formed(&*skolem("a")));
    assert!(!context.type_is_well_formed(&*variable("s")));
}

#[test]
fn well_formed_before_an_unsolved_variable() {
    let context = context();
    assert!(context.type_is_well_formed_before_unsolved(&*variable("a"), 1));
    assert!(!context.type_is_well_formed_before_unsolved(&*variable("b"), 1));
    assert!(!context.type_is_well_formed_before_unsolved(&*unsolved(1), 1));
    // Without the variable the whole context counts.
    assert!(context.type_is_well_formed_before_unsolved(&*variable("b"), 9));
    // A solved variable is no unsolved one.
    assert!(context.type_is_well_formed_before_unsolved(&*variable("b"), 2));
}

#[test]
fn fresh_unsolved_variables() {
    let mut state = State { context: Context::default(), fresh: Fresh::from(4) };
    let kind = Rc::new(None);
    let (name, ty, element) = state.fresh_unsolved(Ann::FromCompiler, &kind);
    assert_eq!(name, 4);
    assert_eq!(ty, unsolved(4));
    assert!(matches!(element, Element::Unsolved { name: 4, .. }));
    let (name, _, _) = state.fresh_unsolved(Ann::FromCompiler, &kind);
    assert_eq!(name, 5);
}

use lily::ast::expr::{Expr, Literal};
use lily::ast::exprs::LilyF64;

type E = Expr<Ann>;

fn term(name: &str) -> Rc<E> {
    Rc::new(Expr::Variable { ann: Ann::FromCompiler, name: name.into() })
}

fn annotated(expression: Rc<E>, ty: Rc<T>) -> Rc<E> {
    Rc::new(Expr::Annotation { ann: Ann::FromCompiler, expression, ty, checked: true })
}

fn array(expressions: Vec<Rc<E>>) -> Rc<E> {
    Rc::new(Expr::Literal { ann: Ann::FromCompiler, literal: Literal::Array(expressions) })
}

fn object(fields: Vec<(&str, Rc<E>)>) -> Rc<E> {
    Rc::new(Expr::Literal {
        ann: Ann::FromCompiler,
        literal: Literal::Object(
            fields.into_iter().map(|(name, expression)| (name.to_string(), expression)).collect(),
        ),
    })
}

#[test]
fn expr_ann_is_ignored_in_eq() {
    let x = Expr::Lambda {
        ann: 0,
        argument: "a".into(),
        expression: Rc::new(Expr::Variable { ann: 0, name: "a".into() }),
    };
    let y = Expr::Lambda {
        ann: 1,
        argument: "a".into(),
        expression: Rc::new(Expr::Variable { ann: 2, name: "a".into() }),
    };

    assert_eq!(x, y);
}

#[test]
fn expressions_that_differ_are_not_equal() {
    let literal = |literal| Expr::Literal { ann: 0, literal };
    assert_eq!(literal(Literal::Int(1)), literal(Literal::Int(1)));
    assert_ne!(literal(Literal::Int(1)), literal(Literal::Int(2)));
    assert_ne!(literal(Literal::Int(1)), literal(Literal::Character('1')));
    assert_eq!(literal(Literal::String("a".into())), literal(Literal::String("a".into())));
    let nan = LilyF64::from_bits(f64::NAN.to_bits());
    assert_eq!(literal(Literal::Float(nan)), literal(Literal::Float(nan)));
    assert_ne!(
        literal(Literal::Float(LilyF64::from_bits(0.0f64.to_bits()))),
        literal(Literal::Float(LilyF64::from_bits((-0.0f64).to_bits())))
    );
    assert_eq!(array(vec![term("a")]), array(vec![term("a")]));
    assert_ne!(array(vec![term("a")]), array(vec![term("b")]));
    assert_ne!(array(vec![term("a")]), array(vec![]));
    assert_eq!(object(vec![("x", term("a"))]), object(vec![("x", term("a"))]));
    assert_ne!(object(vec![("x", term("a"))]), object(vec![("y", term("a"))]));
    assert_ne!(*annotated(term("a"), variable("t")), *annotated(term("a"), variable("u")));
    assert_eq!(*term("a").ann(), Ann::FromCompiler);
}

#[test]
fn gathers_the_variables_of_annotations() {
    // [(a : t), { x: (b : forall u. u -> ?3) }]
    let expression = array(vec![
        annotated(term("a"), variable("t")),
        object(vec![(
            "x",
            annotated(term("b"), quantified("u", None, function(variable("u"), unsolved(3)))),
        )]),
    ]);
    let gathered = TypeVariableVisitor::from_expr(&expression);
    assert_eq!(gathered.syntactic, vec!["t"]);
    assert!(gathered.skolem.is_empty());
    assert_eq!(gathered.unification, vec![3]);
    assert!(TypeVariableVisitor::from_expr(&*term("t")).syntactic.is_empty());
}

#[test]
fn substitutes_in_the_annotations_of_an_expression() {
    let traversal =
        TypeVariableTraversal::with_syntactic(vec![("t".to_string(), constructor("Int"))]);
    let lambda = |ty: Rc<T>| {
        Rc::new(Expr::Lambda {
            ann: Ann::FromCompiler,
            argument: "t".into(),
            expression: Rc::new(Expr::Let {
                ann: Ann::FromCompiler,
                name: "x".into(),
                value: array(vec![annotated(term("t"), ty)]),
                expression: Rc::new(Expr::Application {
                    ann: Ann::FromCompiler,
                    function: term("f"),
                    argument: term("x"),
                }),
            }),
        })
    };
    assert_eq!(traversal.on_expr(lambda(variable("t"))), lambda(constructor("Int")));
}
