use lily::ast::ty::{ApplicationVariant, Type};
use lily::ast::{Ann, Span};
use lily::tc::context::{Context, Element, VariableVariant};
use lily::tc::fresh::Fresh;
use std::rc::Rc;

#[test]
fn type_ann_is_ignored_in_eq() {
    let x = Type::Forall {
        ann: 0,
        name: "a".into(),
        kind: Rc::new(Type::Constructor { ann: 0, name: "Type".into() }.into()),
        body: Rc::new(Type::Variable { ann: 0, name: "a".into() }),
    };

    let y = Type::Forall {
        ann: 1,
        name: "a".into(),
        kind: Rc::new(Type::Constructor { ann: 2, name: "Type".into() }.into()),
        body: Rc::new(Type::Variable { ann: 3, name: "a".into() }),
    };

    assert_eq!(x, y);
}

#[test]
fn types_that_differ_are_not_equal() {
    let variable = |name: &str| Type::Variable { ann: 0, name: name.into() };
    assert_ne!(variable("a"), variable("b"));
    assert_ne!(variable("a"), Type::Skolem { ann: 0, name: "a".into() });
    assert_ne!(Type::Unsolved { ann: 0, name: 1 }, Type::Unsolved { ann: 0, name: 2 });
    let application = |variant| Type::Application {
        ann: 0,
        variant,
        function: Rc::new(variable("f")),
        argument: Rc::new(variable("x")),
    };
    assert_eq!(application(ApplicationVariant::Type), application(ApplicationVariant::Type));
    assert_ne!(application(ApplicationVariant::Type), application(ApplicationVariant::Kind));
    let forall = |kind: Option<Type<i32>>| Type::Forall {
        ann: 0,
        name: "a".into(),
        kind: Rc::new(kind),
        body: Rc::new(variable("a")),
    };
    assert_ne!(forall(None), forall(Some(variable("k"))));
    assert_eq!(forall(None), forall(None));
}

#[test]
fn type_annotation_and_forall() {
    let forall = Type::Forall {
        ann: Ann::FromSource(Span(3, 9)),
        name: "a".into(),
        kind: Rc::new(None),
        body: Rc::new(Type::Variable { ann: Ann::FromCompiler, name: "a".into() }),
    };
    assert_eq!(*forall.ann(), Ann::FromSource(Span(3, 9)));
    assert!(forall.is_forall());
    let function = Type::Function {
        ann: Ann::FromCompiler,
        argument: Rc::new(Type::Constructor { ann: Ann::FromCompiler, name: "Int".into() }),
        result: Rc::new(Type::Constructor { ann: Ann::FromCompiler, name: "Int".into() }),
    };
    assert_eq!(*function.ann(), Ann::FromCompiler);
    assert!(!function.is_forall());
}

#[test]
fn fresh_names_count_up() {
    let mut fresh = Fresh::from(7);
    assert_eq!(fresh.fresh(), 7);
    assert_eq!(fresh.fresh(), 8);
    let mut fresh = Fresh::default();
    assert_eq!(fresh.fresh(), 0);
}

fn unsolved(name: i32) -> Element {
    Element::Unsolved { name, kind: Rc::new(None) }
}

fn names(context: &Context) -> Vec<String> {
    context
        .elements()
        .iter()
        .map(|element| match element {
            Element::Variable { name, variant, .. } => format!("{:?} {}", variant, name),
            Element::Unsolved { name, .. } => format!("?{}", name),
            Element::Solved { name, ty, .. } => format!("?{} = {:?}", name, ty.is_forall()),
            Element::Marker { name } => format!("|{}", name),
        })
        .collect()
}

fn sample_context() -> Context {
    Context::from_elements(vec![
        Element::Variable { name: "a".into(), kind: Rc::new(None), variant: VariableVariant::Syntactic },
        unsolved(1),
        Element::Marker { name: "m".into() },
        unsolved(2),
    ])
}

#[test]
fn context_positions() {
    let context = sample_context();
    assert_eq!(context.unsafe_unsolved_position(1).0, 1);
    assert_eq!(context.unsafe_unsolved_position(2).0, 3);
    assert!(context.unsafe_unsolved_appears_before(1, 2));
    assert!(!context.unsafe_unsolved_appears_before(2, 1));
    assert!(!context.unsafe_unsolved_appears_before(1, 1));
}

#[test]
fn context_solve_and_replace() {
    let mut context = sample_context();
    context.unsafe_solve(1, Rc::new(Type::Constructor { ann: Ann::FromCompiler, name: "Int".into() }));
    assert_eq!(names(&context), vec!["Syntactic a", "?1 = false", "|m", "?2"]);
    context.unsafe_unsolved_replace(2, vec![unsolved(3), unsolved(4)]);
    assert_eq!(names(&context), vec!["Syntactic a", "?1 = false", "|m", "?3", "?4"]);
    context.unsafe_unsolved_replace(3, vec![]);
    assert_eq!(names(&context), vec!["Syntactic a", "?1 = false", "|m", "?4"]);
    assert!(names(&Context::default()).is_empty());
}
