//! The type of expressions, with the annotation of each node left open.
//!
//! As with types, two expressions are equal when they are the same but for
//! their annotations.

use crate::ast::exprs::LilyF64;
use crate::ast::ty::{Type, TypeTree};
use crate::lines::same_text;
use std::rc::Rc;
use vstd::prelude::*;
use vstd::std_specs::cmp::PartialEqSpecImpl;

verus! {

/// The type of syntactic literals. The fields of an object stand in the
/// order in which they were written.
#[derive(Debug)]
pub enum Literal<E> {
    Character(char),
    String(String),
    Int(i64),
    Float(LilyF64),
    Array(Vec<E>),
    Object(Vec<(String, E)>),
}

/// The type of expressions.
#[derive(Debug)]
#[allow(inconsistent_fields)]
pub enum Expr<Ann> {
    /// Syntactic literals.
    Literal { ann: Ann, literal: Literal<Rc<Expr<Ann>>> },
    /// Term variables.
    Variable { ann: Ann, name: String },
    /// Anonymous functions.
    Lambda { ann: Ann, argument: String, expression: Rc<Expr<Ann>> },
    /// Function application.
    Application { ann: Ann, function: Rc<Expr<Ann>>, argument: Rc<Expr<Ann>> },
    /// Annotated expressions. An annotation that is not `checked` is left
    /// alone by the type checker.
    Annotation { ann: Ann, expression: Rc<Expr<Ann>>, ty: Rc<Type<Ann>>, checked: bool },
    /// Let bindings.
    Let { ann: Ann, name: String, value: Rc<Expr<Ann>>, expression: Rc<Expr<Ann>> },
}

/// A literal without the annotations of its expressions.
pub enum LiteralTree {
    Character(char),
    String(Seq<char>),
    Int(i64),
    Float(u64),
    Array(Seq<ExprTree>),
    Object(Seq<(Seq<char>, ExprTree)>),
}

/// An expression without its annotations.
#[allow(inconsistent_fields)]
pub enum ExprTree {
    Literal { literal: LiteralTree },
    Variable { name: Seq<char> },
    Lambda { argument: Seq<char>, expression: Box<ExprTree> },
    Application { function: Box<ExprTree>, argument: Box<ExprTree> },
    Annotation { expression: Box<ExprTree>, ty: TypeTree, checked: bool },
    Let { name: Seq<char>, value: Box<ExprTree>, expression: Box<ExprTree> },
}

impl<Ann> Expr<Ann> {
    /// The expression without its annotations.
    pub open spec fn erase(&self) -> ExprTree
        decreases self,
    {
        match self {
            Expr::Literal { ann: _, literal } => ExprTree::Literal {
                literal: match literal {
                    Literal::Character(c) => LiteralTree::Character(*c),
                    Literal::String(text) => LiteralTree::String(text@),
                    Literal::Int(i) => LiteralTree::Int(*i),
                    Literal::Float(number) => LiteralTree::Float(number.0),
                    Literal::Array(expressions) => LiteralTree::Array(
                        Seq::new(
                            expressions.len() as nat,
                            |i: int|
                                if 0 <= i < expressions.len() {
                                    expressions[i].erase()
                                } else {
                                    arbitrary()
                                },
                        ),
                    ),
                    Literal::Object(fields) => LiteralTree::Object(
                        Seq::new(
                            fields.len() as nat,
                            |i: int|
                                if 0 <= i < fields.len() {
                                    (fields[i].0@, fields[i].1.erase())
                                } else {
                                    arbitrary()
                                },
                        ),
                    ),
                },
            },
            Expr::Variable { ann: _, name } => ExprTree::Variable { name: name@ },
            Expr::Lambda { ann: _, argument, expression } => ExprTree::Lambda {
                argument: argument@,
                expression: Box::new(expression.erase()),
            },
            Expr::Application { ann: _, function, argument } => ExprTree::Application {
                function: Box::new(function.erase()),
                argument: Box::new(argument.erase()),
            },
            Expr::Annotation { ann: _, expression, ty, checked } => ExprTree::Annotation {
                expression: Box::new(expression.erase()),
                ty: ty.erase(),
                checked: *checked,
            },
            Expr::Let { ann: _, name, value, expression } => ExprTree::Let {
                name: name@,
                value: Box::new(value.erase()),
                expression: Box::new(expression.erase()),
            },
        }
    }

    /// The annotation of the outermost node.
    pub open spec fn spec_ann(&self) -> &Ann {
        match self {
            Expr::Literal { ann, .. } => ann,
            Expr::Variable { ann, .. } => ann,
            Expr::Lambda { ann, .. } => ann,
            Expr::Application { ann, .. } => ann,
            Expr::Annotation { ann, .. } => ann,
            Expr::Let { ann, .. } => ann,
        }
    }

    /// Returns a reference to an expression's annotation.
    pub fn ann(&self) -> (ann: &Ann)
        ensures
            ann == self.spec_ann(),
    {
        match self {
            Expr::Literal { ann, .. } => ann,
            Expr::Variable { ann, .. } => ann,
            Expr::Lambda { ann, .. } => ann,
            Expr::Application { ann, .. } => ann,
            Expr::Annotation { ann, .. } => ann,
            Expr::Let { ann, .. } => ann,
        }
    }

    /// Whether two expressions are the same but for their annotations.
    pub fn same(&self, other: &Expr<Ann>) -> (r: bool)
        ensures
            r == (self.erase() == other.erase()),
        decreases self,
    {
        match (self, other) {
            (Expr::Literal { ann: _, literal: a }, Expr::Literal { ann: _, literal: b }) => {
                match (a, b) {
                    (Literal::Character(x), Literal::Character(y)) => *x == *y,
                    (Literal::String(x), Literal::String(y)) => same_text(x.as_str(), y.as_str()),
                    (Literal::Int(x), Literal::Int(y)) => *x == *y,
                    (Literal::Float(x), Literal::Float(y)) => x.bits() == y.bits(),
                    (Literal::Array(xs), Literal::Array(ys)) => {
                        if xs.len() != ys.len() {
                            assert(self.erase()->literal->Array_0.len() != other.erase()->literal->Array_0.len());
                            return false;
                        }
                        let mut index: usize = 0;
                        while index < xs.len()
                            invariant
                                0 <= index <= xs.len(),
                                xs.len() == ys.len(),
                                self == (Expr::Literal { ann: *self.spec_ann(), literal: *a }),
                                *a == Literal::<Rc<Expr<Ann>>>::Array(*xs),
                                other == (Expr::Literal { ann: *other.spec_ann(), literal: *b }),
                                *b == Literal::<Rc<Expr<Ann>>>::Array(*ys),
                                forall|i: int|
                                    0 <= i < index ==> (#[trigger] xs[i]).erase() == ys[i].erase(),
                            decreases xs.len() - index,
                        {
                            if !xs[index].same(&ys[index]) {
                                assert(self.erase()->literal->Array_0[index as int]
                                    != other.erase()->literal->Array_0[index as int]);
                                return false;
                            }
                            index += 1;
                        }
                        assert(self.erase()->literal->Array_0 =~= other.erase()->literal->Array_0);
                        true
                    },
                    (Literal::Object(xs), Literal::Object(ys)) => {
                        if xs.len() != ys.len() {
                            assert(self.erase()->literal->Object_0.len() != other.erase()->literal->Object_0.len());
                            return false;
                        }
                        let mut index: usize = 0;
                        while index < xs.len()
                            invariant
                                0 <= index <= xs.len(),
                                xs.len() == ys.len(),
                                self == (Expr::Literal { ann: *self.spec_ann(), literal: *a }),
                                *a == Literal::<Rc<Expr<Ann>>>::Object(*xs),
                                other == (Expr::Literal { ann: *other.spec_ann(), literal: *b }),
                                *b == Literal::<Rc<Expr<Ann>>>::Object(*ys),
                                forall|i: int|
                                    0 <= i < index ==> (#[trigger] xs[i]).0@ == ys[i].0@
                                        && xs[i].1.erase() == ys[i].1.erase(),
                            decreases xs.len() - index,
                        {
                            if !same_text(xs[index].0.as_str(), ys[index].0.as_str())
                                || !xs[index].1.same(&ys[index].1) {
                                assert(self.erase()->literal->Object_0[index as int]
                                    != other.erase()->literal->Object_0[index as int]);
                                return false;
                            }
                            index += 1;
                        }
                        assert(self.erase()->literal->Object_0 =~= other.erase()->literal->Object_0);
                        true
                    },
                    _ => false,
                }
            },
            (Expr::Variable { ann: _, name: a }, Expr::Variable { ann: _, name: b }) => same_text(
                a.as_str(),
                b.as_str(),
            ),
            (
                Expr::Lambda { ann: _, argument: a, expression: ae },
                Expr::Lambda { ann: _, argument: b, expression: be },
            ) => same_text(a.as_str(), b.as_str()) && ae.same(be),
            (
                Expr::Application { ann: _, function: af, argument: aa },
                Expr::Application { ann: _, function: bf, argument: ba },
            ) => af.same(bf) && aa.same(ba),
            (
                Expr::Annotation { ann: _, expression: ae, ty: at, checked: ac },
                Expr::Annotation { ann: _, expression: be, ty: bt, checked: bc },
            ) => ae.same(be) && at.same(bt) && *ac == *bc,
            (
                Expr::Let { ann: _, name: a, value: av, expression: ae },
                Expr::Let { ann: _, name: b, value: bv, expression: be },
            ) => same_text(a.as_str(), b.as_str()) && av.same(bv) && ae.same(be),
            _ => false,
        }
    }
}

impl<Ann> PartialEq for Expr<Ann> {
    fn eq(&self, other: &Expr<Ann>) -> (r: bool) {
        self.same(other)
    }
}

impl<Ann> PartialEqSpecImpl for Expr<Ann> {
    open spec fn obeys_eq_spec() -> bool {
        true
    }

    open spec fn eq_spec(&self, other: &Expr<Ann>) -> bool {
        self.erase() == other.erase()
    }
}

} // verus!
