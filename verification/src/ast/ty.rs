//! The type of types, with the annotation of each node left open.
//!
//! Two types are equal when they are the same but for their annotations:
//! what is compared is the type with its annotations erased.

use crate::lines::same_text;
use std::rc::Rc;
use vstd::prelude::*;
use vstd::std_specs::cmp::PartialEqSpecImpl;

verus! {

/// Whether an application is to a type or to a kind.
#[derive(Clone, Copy, Debug, PartialEq, Eq, Structural)]
pub enum ApplicationVariant {
    Type,
    Kind,
}

/// The type of types.
#[derive(Debug)]
#[allow(inconsistent_fields)]
pub enum Type<Ann> {
    /// Universal quantification.
    Forall { ann: Ann, name: String, kind: Rc<Option<Type<Ann>>>, body: Rc<Type<Ann>> },
    /// Skolem type variables, which the compiler makes.
    Skolem { ann: Ann, name: String },
    /// Unification variables, which the compiler makes.
    Unsolved { ann: Ann, name: i32 },
    /// Syntactic type variables.
    Variable { ann: Ann, name: String },
    /// Type constructors.
    Constructor { ann: Ann, name: String },
    /// Type or kind application.
    Application {
        ann: Ann,
        variant: ApplicationVariant,
        function: Rc<Type<Ann>>,
        argument: Rc<Type<Ann>>,
    },
    /// Function types.
    Function { ann: Ann, argument: Rc<Type<Ann>>, result: Rc<Type<Ann>> },
}

/// A type without its annotations.
#[allow(inconsistent_fields)]
pub enum TypeTree {
    Forall { name: Seq<char>, kind: Option<Box<TypeTree>>, body: Box<TypeTree> },
    Skolem { name: Seq<char> },
    Unsolved { name: i32 },
    Variable { name: Seq<char> },
    Constructor { name: Seq<char> },
    Application { variant: ApplicationVariant, function: Box<TypeTree>, argument: Box<TypeTree> },
    Function { argument: Box<TypeTree>, result: Box<TypeTree> },
}

impl<Ann> Type<Ann> {
    /// The type without its annotations.
    pub open spec fn erase(&self) -> TypeTree
        decreases self,
    {
        match self {
            Type::Forall { ann: _, name, kind, body } => TypeTree::Forall {
                name: name@,
                kind: match **kind {
                    Some(kind) => Some(Box::new(kind.erase())),
                    None => None,
                },
                body: Box::new(body.erase()),
            },
            Type::Skolem { ann: _, name } => TypeTree::Skolem { name: name@ },
            Type::Unsolved { ann: _, name } => TypeTree::Unsolved { name: *name },
            Type::Variable { ann: _, name } => TypeTree::Variable { name: name@ },
            Type::Constructor { ann: _, name } => TypeTree::Constructor { name: name@ },
            Type::Application { ann: _, variant, function, argument } => TypeTree::Application {
                variant: *variant,
                function: Box::new(function.erase()),
                argument: Box::new(argument.erase()),
            },
            Type::Function { ann: _, argument, result } => TypeTree::Function {
                argument: Box::new(argument.erase()),
                result: Box::new(result.erase()),
            },
        }
    }

    /// The annotation of the outermost node.
    pub open spec fn spec_ann(&self) -> &Ann {
        match self {
            Type::Forall { ann, .. } => ann,
            Type::Skolem { ann, .. } => ann,
            Type::Unsolved { ann, .. } => ann,
            Type::Variable { ann, .. } => ann,
            Type::Constructor { ann, .. } => ann,
            Type::Application { ann, .. } => ann,
            Type::Function { ann, .. } => ann,
        }
    }

    /// Returns a reference to a type's annotation.
    pub fn ann(&self) -> (ann: &Ann)
        ensures
            ann == self.spec_ann(),
    {
        match self {
            Type::Forall { ann, .. } => ann,
            Type::Skolem { ann, .. } => ann,
            Type::Unsolved { ann, .. } => ann,
            Type::Variable { ann, .. } => ann,
            Type::Constructor { ann, .. } => ann,
            Type::Application { ann, .. } => ann,
            Type::Function { ann, .. } => ann,
        }
    }

    /// Returns `true` if the type is a universal quantification.
    #[must_use]
    pub fn is_forall(&self) -> (r: bool)
        ensures
            r == (self is Forall),
            r == (self.erase() is Forall),
    {
        matches!(self, Type::Forall { .. })
    }

    /// Whether two types are the same but for their annotations.
    pub fn same(&self, other: &Type<Ann>) -> (r: bool)
        ensures
            r == (self.erase() == other.erase()),
        decreases self,
    {
        match (self, other) {
            (
                Type::Forall { ann: _, name: a, kind: ak, body: ab },
                Type::Forall { ann: _, name: b, kind: bk, body: bb },
            ) => {
                let names = same_text(a.as_str(), b.as_str());
                let kinds = match (&**ak, &**bk) {
                    (Some(x), Some(y)) => x.same(y),
                    (None, None) => true,
                    _ => false,
                };
                names && kinds && ab.same(bb)
            },
            (Type::Skolem { ann: _, name: a }, Type::Skolem { ann: _, name: b }) => same_text(
                a.as_str(),
                b.as_str(),
            ),
            (Type::Unsolved { ann: _, name: a }, Type::Unsolved { ann: _, name: b }) => *a == *b,
            (Type::Variable { ann: _, name: a }, Type::Variable { ann: _, name: b }) => same_text(
                a.as_str(),
                b.as_str(),
            ),
            (
                Type::Constructor { ann: _, name: a },
                Type::Constructor { ann: _, name: b },
            ) => same_text(a.as_str(), b.as_str()),
            (
                Type::Application { ann: _, variant: av, function: af, argument: aa },
                Type::Application { ann: _, variant: bv, function: bf, argument: ba },
            ) => {
                let variants = match (av, bv) {
                    (ApplicationVariant::Type, ApplicationVariant::Type) => true,
                    (ApplicationVariant::Kind, ApplicationVariant::Kind) => true,
                    _ => false,
                };
                variants && af.same(bf) && aa.same(ba)
            },
            (
                Type::Function { ann: _, argument: aa, result: ar },
                Type::Function { ann: _, argument: ba, result: br },
            ) => aa.same(ba) && ar.same(br),
            _ => false,
        }
    }
}

impl<Ann> PartialEq for Type<Ann> {
    fn eq(&self, other: &Type<Ann>) -> (r: bool) {
        self.same(other)
    }
}

impl<Ann> PartialEqSpecImpl for Type<Ann> {
    open spec fn obeys_eq_spec() -> bool {
        true
    }

    open spec fn eq_spec(&self, other: &Type<Ann>) -> bool {
        self.erase() == other.erase()
    }
}

} // verus!
