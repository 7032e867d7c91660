//! Types as interned nodes: a type is a pair of handles, to its annotation
//! and to its kind.

use crate::ast::{Ann, Span};
use crate::interner::{Interned, InternedString, Key};
use vstd::prelude::*;

verus! {

/// Whether an application is to a type or to a kind.
#[derive(Debug, PartialEq, Eq, Clone, Copy, Structural)]
pub enum ApplicationKind {
    TypeApplication,
    KindApplication,
}

/// The quantifier of a type, with the name that it binds.
#[derive(Debug, PartialEq, Eq, Clone, Copy)]
pub enum QuantifierKind<'a> {
    Universal(InternedString<'a>),
    Existential(InternedString<'a>),
}

/// The sort of a type variable, with its name.
#[derive(Debug, PartialEq, Eq, Clone, Copy)]
pub enum VariableKind<'a> {
    Skolem(InternedString<'a>),
    Syntactic(InternedString<'a>),
    Unification(u32),
}

/// The kind of a type.
#[derive(Debug, PartialEq, Eq, Clone, Copy)]
pub enum TypeKind<'a> {
    Application(ApplicationKind, Type<'a>, Type<'a>),
    Constructor(InternedString<'a>),
    Function(Type<'a>, Type<'a>),
    Kinded(Type<'a>, Type<'a>),
    Quantifier(QuantifierKind<'a>, Option<Type<'a>>, Type<'a>),
    Variable(VariableKind<'a>),
}

/// A type: handles to its annotation and its kind.
#[derive(Debug, PartialEq, Eq, Clone, Copy)]
pub struct Type<'a>(pub Interned<'a, Ann>, pub Interned<'a, TypeKind<'a>>);

impl Key for Ann {
    open spec fn key_of(&self) -> Seq<u64> {
        match *self {
            Ann::FromCompiler => seq![0u64],
            Ann::FromSource(Span(begin, end)) => seq![1u64, begin as u64, end as u64],
        }
    }

    fn key(&self) -> (key: Vec<u64>) {
        let mut key = Vec::new();
        match *self {
            Ann::FromCompiler => {
                key.push(0);
            },
            Ann::FromSource(Span(begin, end)) => {
                key.push(1);
                key.push(begin as u64);
                key.push(end as u64);
            },
        }
        assert(key@ =~= self.key_of());
        key
    }
}

impl<'a> Type<'a> {
    /// The places of the two handles.
    pub open spec fn places(&self) -> Seq<u64> {
        seq![self.0.place() as u64, self.1.place() as u64]
    }

    fn push_places(&self, key: &mut Vec<u64>)
        ensures
            final(key)@ == old(key)@ + self.places(),
    {
        key.push(self.0.index() as u64);
        key.push(self.1.index() as u64);
        assert(key@ =~= old(key)@ + self.places());
    }
}

impl<'a> Key for TypeKind<'a> {
    open spec fn key_of(&self) -> Seq<u64> {
        match *self {
            TypeKind::Application(kind, function, argument) => seq![
                0u64,
                match kind {
                    ApplicationKind::TypeApplication => 0u64,
                    ApplicationKind::KindApplication => 1u64,
                },
            ] + function.places() + argument.places(),
            TypeKind::Constructor(name) => seq![1u64, name.place() as u64],
            TypeKind::Function(argument, result) => seq![2u64] + argument.places()
                + result.places(),
            TypeKind::Kinded(ty, kind) => seq![3u64] + ty.places() + kind.places(),
            TypeKind::Quantifier(quantifier, kind, ty) => seq![
                4u64,
                match quantifier {
                    QuantifierKind::Universal(_) => 0u64,
                    QuantifierKind::Existential(_) => 1u64,
                },
                match quantifier {
                    QuantifierKind::Universal(name) => name.place() as u64,
                    QuantifierKind::Existential(name) => name.place() as u64,
                },
            ] + match kind {
                Some(kind) => seq![1u64] + kind.places(),
                None => seq![0u64],
            } + ty.places(),
            TypeKind::Variable(variable) => match variable {
                VariableKind::Skolem(name) => seq![5u64, 0u64, name.place() as u64],
                VariableKind::Syntactic(name) => seq![5u64, 1u64, name.place() as u64],
                VariableKind::Unification(name) => seq![5u64, 2u64, name as u64],
            },
        }
    }

    fn key(&self) -> (key: Vec<u64>) {
        let mut key = Vec::new();
        match *self {
            TypeKind::Application(kind, function, argument) => {
                key.push(0);
                key.push(
                    match kind {
                        ApplicationKind::TypeApplication => 0,
                        ApplicationKind::KindApplication => 1,
                    },
                );
                function.push_places(&mut key);
                argument.push_places(&mut key);
            },
            TypeKind::Constructor(name) => {
                key.push(1);
                key.push(name.index() as u64);
            },
            TypeKind::Function(argument, result) => {
                key.push(2);
                argument.push_places(&mut key);
                result.push_places(&mut key);
            },
            TypeKind::Kinded(ty, kind) => {
                key.push(3);
                ty.push_places(&mut key);
                kind.push_places(&mut key);
            },
            TypeKind::Quantifier(quantifier, kind, ty) => {
                key.push(4);
                match quantifier {
                    QuantifierKind::Universal(name) => {
                        key.push(0);
                        key.push(name.index() as u64);
                    },
                    QuantifierKind::Existential(name) => {
                        key.push(1);
                        key.push(name.index() as u64);
                    },
                }
                match kind {
                    Some(kind) => {
                        key.push(1);
                        kind.push_places(&mut key);
                    },
                    None => {
                        key.push(0);
                    },
                }
                ty.push_places(&mut key);
            },
            TypeKind::Variable(variable) => {
                key.push(5);
                match variable {
                    VariableKind::Skolem(name) => {
                        key.push(0);
                        key.push(name.index() as u64);
                    },
                    VariableKind::Syntactic(name) => {
                        key.push(1);
                        key.push(name.index() as u64);
                    },
                    VariableKind::Unification(name) => {
                        key.push(2);
                        key.push(name as u64);
                    },
                }
            },
        }
        assert(key@ =~= self.key_of());
        key
    }
}

} // verus!
