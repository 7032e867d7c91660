//! Expressions and binders as interned nodes.

use crate::ast::types::Type;
use crate::ast::Ann;
use crate::interner::{Interned, InternedString, Key};
use vstd::prelude::*;

verus! {

/// A floating-point number, known by its bits. Two of them are equal when
/// their bits are: every value, not-a-number included, equals itself.
#[derive(Debug, Clone, Copy, PartialEq, Eq, Hash, Structural)]
pub struct LilyF64(pub u64);

impl LilyF64 {
    /// The number with the given bits.
    pub fn from_bits(bits: u64) -> (number: LilyF64)
        ensures
            number.0 == bits,
    {
        LilyF64(bits)
    }

    /// The bits of the number.
    pub fn bits(&self) -> (bits: u64)
        ensures
            bits == self.0,
    {
        self.0
    }
}

/// A literal; `T` is what stands within arrays and objects.
#[derive(Debug, PartialEq, Eq)]
pub enum LiteralKind<'a, T> {
    Char(char),
    String(InternedString<'a>),
    Int(i32),
    Float(LilyF64),
    Array(Vec<T>),
    Object(Vec<(InternedString<'a>, T)>),
}

/// What a function is applied to: an expression or a type.
#[derive(Debug, PartialEq, Eq)]
pub enum ApplicationArgument<'a> {
    ExprArgument(Expr<'a>),
    TypeArgument(Type<'a>),
}

/// The kind of an expression.
#[derive(Debug, PartialEq, Eq)]
pub enum ExprKind<'a> {
    Annotation(Expr<'a>, Type<'a>),
    Application(Expr<'a>, ApplicationArgument<'a>),
    IfThenElse(Expr<'a>, Expr<'a>, Expr<'a>),
    Lambda(InternedString<'a>, Expr<'a>),
    LetBinding(InternedString<'a>, Option<Type<'a>>, Expr<'a>),
    Literal(LiteralKind<'a, Expr<'a>>),
    Variable(InternedString<'a>),
    Case(Vec<Expr<'a>>, Vec<CaseArm<'a>>),
    DoBlock(Vec<DoStmt<'a>>),
}

/// An arm of a case: its binders, its guard and its result.
#[derive(Debug, PartialEq, Eq)]
pub struct CaseArm<'a> {
    pub binders: Vec<Binder<'a>>,
    pub condition: Option<Expr<'a>>,
    pub expression: Expr<'a>,
}

/// A statement of a `do` block.
#[derive(Debug, PartialEq, Eq)]
pub enum DoStmt<'a> {
    Bind(Binder<'a>, Expr<'a>),
    Discard(Expr<'a>),
    Let(InternedString<'a>, Option<Type<'a>>, Expr<'a>),
}

/// An expression: handles to its annotation and its kind.
#[derive(Debug, PartialEq, Eq, Clone, Copy)]
pub struct Expr<'a>(pub Interned<'a, Ann>, pub Interned<'a, ExprKind<'a>>);

/// The kind of a binder.
#[derive(Debug, PartialEq, Eq)]
pub enum BinderKind<'a> {
    Null,
    Literal(LiteralKind<'a, Binder<'a>>),
    Variable(InternedString<'a>),
}

/// A binder: handles to its annotation and its kind.
#[derive(Debug, PartialEq, Eq, Clone, Copy)]
pub struct Binder<'a>(pub Interned<'a, Ann>, pub Interned<'a, BinderKind<'a>>);

impl<'a> Expr<'a> {
    /// The places of the two handles.
    pub open spec fn places(&self) -> Seq<u64> {
        seq![self.0.place() as u64, self.1.place() as u64]
    }

    fn push_places(&self, key: &mut Vec<u64>)
        ensures
            final(key)@ == old(key)@ + self.places(),
    {
        key.push(self.0.index() as u64);
        key.push(self.1.index() as u64);
        assert(key@ =~= old(key)@ + self.places());
    }
}

impl<'a> Binder<'a> {
    /// The places of the two handles.
    pub open spec fn places(&self) -> Seq<u64> {
        seq![self.0.place() as u64, self.1.place() as u64]
    }

    fn push_places(&self, key: &mut Vec<u64>)
        ensures
            final(key)@ == old(key)@ + self.places(),
    {
        key.push(self.0.index() as u64);
        key.push(self.1.index() as u64);
        assert(key@ =~= old(key)@ + self.places());
    }
}

/// The places of the handles of `binders`, one pair after the other.
pub open spec fn binder_places(binders: Seq<Binder>) -> Seq<u64>
    decreases binders.len(),
{
    if binders.len() == 0 {
        seq![]
    } else {
        binder_places(binders.drop_last()) + binders.last().places()
    }
}

/// The places of the names and of the handles of `fields`.
pub open spec fn binder_field_places(fields: Seq<(InternedString, Binder)>) -> Seq<u64>
    decreases fields.len(),
{
    if fields.len() == 0 {
        seq![]
    } else {
        binder_field_places(fields.drop_last()) + seq![fields.last().0.place() as u64]
            + fields.last().1.places()
    }
}

fn push_binders(binders: &Vec<Binder>, key: &mut Vec<u64>)
    ensures
        final(key)@ == old(key)@ + binder_places(binders@),
{
    let ghost head = key@;
    let mut index: usize = 0;
    proof {
        assert(binders@.take(0) =~= Seq::<Binder>::empty());
        assert(head + binder_places(binders@.take(0)) =~= head);
    }
    while index < binders.len()
        invariant
            0 <= index <= binders.len(),
            key@ == head + binder_places(binders@.take(index as int)),
        decreases binders.len() - index,
    {
        binders[index].push_places(key);
        proof {
            assert(binders@.take(index + 1).drop_last() =~= binders@.take(index as int));
            assert(key@ =~= head + binder_places(binders@.take(index + 1)));
        }
        index += 1;
    }
    proof {
        assert(binders@.take(binders@.len() as int) =~= binders@);
    }
}

fn push_expressions(expressions: &Vec<Expr>, key: &mut Vec<u64>)
    ensures
        final(key)@ == old(key)@ + all_places(expressions@),
{
    let ghost head = key@;
    let mut index: usize = 0;
    proof {
        assert(expressions@.take(0) =~= Seq::<Expr>::empty());
        assert(head + all_places(expressions@.take(0)) =~= head);
    }
    while index < expressions.len()
        invariant
            0 <= index <= expressions.len(),
            key@ == head + all_places(expressions@.take(index as int)),
        decreases expressions.len() - index,
    {
        expressions[index].push_places(key);
        proof {
            assert(expressions@.take(index + 1).drop_last() =~= expressions@.take(index as int));
            assert(key@ =~= head + all_places(expressions@.take(index + 1)));
        }
        index += 1;
    }
    proof {
        assert(expressions@.take(expressions@.len() as int) =~= expressions@);
    }
}

/// The key of what may be missing: a mark, and the places if it is there.
pub open spec fn optional_places(places: Option<Seq<u64>>) -> Seq<u64> {
    match places {
        Some(places) => seq![1u64] + places,
        None => seq![0u64],
    }
}

/// The key of an arm: the number of its binders, their places, its guard
/// and its result.
pub open spec fn arm_key(arm: CaseArm) -> Seq<u64> {
    seq![arm.binders@.len() as u64] + binder_places(arm.binders@) + optional_places(
        match arm.condition {
            Some(condition) => Some(condition.places()),
            None => None,
        },
    ) + arm.expression.places()
}

/// The keys of `arms`, one after the other.
pub open spec fn arm_keys(arms: Seq<CaseArm>) -> Seq<u64>
    decreases arms.len(),
{
    if arms.len() == 0 {
        seq![]
    } else {
        arm_keys(arms.drop_last()) + arm_key(arms.last())
    }
}

/// The key of a statement.
pub open spec fn statement_key(statement: DoStmt) -> Seq<u64> {
    match statement {
        DoStmt::Bind(binder, expression) => seq![0u64] + binder.places() + expression.places(),
        DoStmt::Discard(expression) => seq![1u64] + expression.places(),
        DoStmt::Let(name, ty, expression) => seq![2u64, name.place() as u64] + optional_places(
            match ty {
                Some(ty) => Some(ty.places()),
                None => None,
            },
        ) + expression.places(),
    }
}

/// The keys of `statements`, one after the other.
pub open spec fn statement_keys(statements: Seq<DoStmt>) -> Seq<u64>
    decreases statements.len(),
{
    if statements.len() == 0 {
        seq![]
    } else {
        statement_keys(statements.drop_last()) + statement_key(statements.last())
    }
}

fn push_arm(arm: &CaseArm, key: &mut Vec<u64>)
    ensures
        final(key)@ == old(key)@ + arm_key(*arm),
{
    key.push(arm.binders.len() as u64);
    push_binders(&arm.binders, key);
    match &arm.condition {
        Some(condition) => {
            key.push(1);
            condition.push_places(key);
        },
        None => {
            key.push(0);
        },
    }
    arm.expression.push_places(key);
    assert(key@ =~= old(key)@ + arm_key(*arm));
}

fn push_statement(statement: &DoStmt, key: &mut Vec<u64>)
    ensures
        final(key)@ == old(key)@ + statement_key(*statement),
{
    match statement {
        DoStmt::Bind(binder, expression) => {
            key.push(0);
            binder.push_places(key);
            expression.push_places(key);
        },
        DoStmt::Discard(expression) => {
            key.push(1);
            expression.push_places(key);
        },
        DoStmt::Let(name, ty, expression) => {
            key.push(2);
            key.push(name.index() as u64);
            match ty {
                Some(ty) => {
                    key.push(1);
                    push_type_places(ty, key);
                },
                None => {
                    key.push(0);
                },
            }
            expression.push_places(key);
        },
    }
    assert(key@ =~= old(key)@ + statement_key(*statement));
}

/// The places of the handles of `expressions`, one pair after the other.
pub open spec fn all_places(expressions: Seq<Expr>) -> Seq<u64>
    decreases expressions.len(),
{
    if expressions.len() == 0 {
        seq![]
    } else {
        all_places(expressions.drop_last()) + expressions.last().places()
    }
}

/// The places of the names and of the handles of `fields`.
pub open spec fn field_places(fields: Seq<(InternedString, Expr)>) -> Seq<u64>
    decreases fields.len(),
{
    if fields.len() == 0 {
        seq![]
    } else {
        field_places(fields.drop_last()) + seq![fields.last().0.place() as u64]
            + fields.last().1.places()
    }
}

/// The key of a literal.
pub open spec fn literal_key(literal: LiteralKind<Expr>) -> Seq<u64> {
    match literal {
        LiteralKind::Char(c) => seq![0u64, c as u64],
        LiteralKind::String(text) => seq![1u64, text.place() as u64],
        LiteralKind::Int(i) => seq![2u64, (i + 0x8000_0000) as u64],
        LiteralKind::Float(number) => seq![3u64, number.0],
        LiteralKind::Array(expressions) => seq![4u64, expressions@.len() as u64] + all_places(
            expressions@,
        ),
        LiteralKind::Object(fields) => seq![5u64, fields@.len() as u64] + field_places(fields@),
    }
}

fn push_literal(literal: &LiteralKind<Expr>, key: &mut Vec<u64>)
    ensures
        final(key)@ == old(key)@ + literal_key(*literal),
{
    match literal {
        LiteralKind::Char(c) => {
            key.push(0);
            key.push(*c as u64);
        },
        LiteralKind::String(text) => {
            key.push(1);
            key.push(text.index() as u64);
        },
        LiteralKind::Int(i) => {
            key.push(2);
            key.push((*i as i64 + 0x8000_0000) as u64);
        },
        LiteralKind::Float(number) => {
            key.push(3);
            key.push(number.bits());
        },
        LiteralKind::Array(expressions) => {
            key.push(4);
            key.push(expressions.len() as u64);
            let ghost head = key@;
            let mut index: usize = 0;
            proof {
                assert(expressions@.take(0) =~= Seq::<Expr>::empty());
                assert(head + all_places(expressions@.take(0)) =~= head);
            }
            while index < expressions.len()
                invariant
                    0 <= index <= expressions.len(),
                    key@ == head + all_places(expressions@.take(index as int)),
                decreases expressions.len() - index,
            {
                expressions[index].push_places(key);
                proof {
                    assert(expressions@.take(index + 1).drop_last() =~= expressions@.take(
                        index as int,
                    ));
                    assert(key@ =~= head + all_places(expressions@.take(index + 1)));
                }
                index += 1;
            }
            proof {
                assert(expressions@.take(expressions@.len() as int) =~= expressions@);
            }
        },
        LiteralKind::Object(fields) => {
            key.push(5);
            key.push(fields.len() as u64);
            let ghost head = key@;
            let mut index: usize = 0;
            proof {
                assert(fields@.take(0) =~= Seq::<(InternedString, Expr)>::empty());
                assert(head + field_places(fields@.take(0)) =~= head);
            }
            while index < fields.len()
                invariant
                    0 <= index <= fields.len(),
                    key@ == head + field_places(fields@.take(index as int)),
                decreases fields.len() - index,
            {
                key.push(fields[index].0.index() as u64);
                fields[index].1.push_places(key);
                proof {
                    assert(fields@.take(index + 1).drop_last() =~= fields@.take(index as int));
                    assert(key@ =~= head + field_places(fields@.take(index + 1)));
                }
                index += 1;
            }
            proof {
                assert(fields@.take(fields@.len() as int) =~= fields@);
            }
        },
    }
    assert(key@ =~= old(key)@ + literal_key(*literal));
}

impl<'a> Key for ExprKind<'a> {
    open spec fn key_of(&self) -> Seq<u64> {
        match *self {
            ExprKind::Annotation(expression, ty) => seq![0u64] + expression.places() + ty.places(),
            ExprKind::Application(function, argument) => seq![1u64] + function.places()
                + match argument {
                ApplicationArgument::ExprArgument(expression) => seq![0u64] + expression.places(),
                ApplicationArgument::TypeArgument(ty) => seq![1u64] + ty.places(),
            },
            ExprKind::IfThenElse(condition, then_value, else_value) => seq![2u64]
                + condition.places() + then_value.places() + else_value.places(),
            ExprKind::Lambda(name, expression) => seq![3u64, name.place() as u64]
                + expression.places(),
            ExprKind::LetBinding(name, ty, expression) => seq![4u64, name.place() as u64]
                + match ty {
                Some(ty) => seq![1u64] + ty.places(),
                None => seq![0u64],
            } + expression.places(),
            ExprKind::Literal(literal) => seq![5u64] + literal_key(literal),
            ExprKind::Variable(name) => seq![6u64, name.place() as u64],
            ExprKind::Case(expressions, arms) => seq![
                7u64,
                expressions@.len() as u64,
                arms@.len() as u64,
            ] + all_places(expressions@) + arm_keys(arms@),
            ExprKind::DoBlock(statements) => seq![8u64, statements@.len() as u64] + statement_keys(
                statements@,
            ),
        }
    }

    fn key(&self) -> (key: Vec<u64>) {
        let mut key = Vec::new();
        match self {
            ExprKind::Annotation(expression, ty) => {
                key.push(0);
                expression.push_places(&mut key);
                push_type_places(ty, &mut key);
            },
            ExprKind::Application(function, argument) => {
                key.push(1);
                function.push_places(&mut key);
                match argument {
                    ApplicationArgument::ExprArgument(expression) => {
                        key.push(0);
                        expression.push_places(&mut key);
                    },
                    ApplicationArgument::TypeArgument(ty) => {
                        key.push(1);
                        push_type_places(ty, &mut key);
                    },
                }
            },
            ExprKind::IfThenElse(condition, then_value, else_value) => {
                key.push(2);
                condition.push_places(&mut key);
                then_value.push_places(&mut key);
                else_value.push_places(&mut key);
            },
            ExprKind::Lambda(name, expression) => {
                key.push(3);
                key.push(name.index() as u64);
                expression.push_places(&mut key);
            },
            ExprKind::LetBinding(name, ty, expression) => {
                key.push(4);
                key.push(name.index() as u64);
                match ty {
                    Some(ty) => {
                        key.push(1);
                        push_type_places(ty, &mut key);
                    },
                    None => {
                        key.push(0);
                    },
                }
                expression.push_places(&mut key);
            },
            ExprKind::Literal(literal) => {
                key.push(5);
                push_literal(literal, &mut key);
            },
            ExprKind::Variable(name) => {
                key.push(6);
                key.push(name.index() as u64);
            },
            ExprKind::Case(expressions, arms) => {
                key.push(7);
                key.push(expressions.len() as u64);
                key.push(arms.len() as u64);
                push_expressions(expressions, &mut key);
                let ghost head = key@;
                let mut index: usize = 0;
                proof {
                    assert(arms@.take(0) =~= Seq::<CaseArm>::empty());
                    assert(head + arm_keys(arms@.take(0)) =~= head);
                }
                while index < arms.len()
                    invariant
                        0 <= index <= arms.len(),
                        key@ == head + arm_keys(arms@.take(index as int)),
                    decreases arms.len() - index,
                {
                    push_arm(&arms[index], &mut key);
                    proof {
                        assert(arms@.take(index + 1).drop_last() =~= arms@.take(index as int));
                        assert(key@ =~= head + arm_keys(arms@.take(index + 1)));
                    }
                    index += 1;
                }
                proof {
                    assert(arms@.take(arms@.len() as int) =~= arms@);
                }
            },
            ExprKind::DoBlock(statements) => {
                key.push(8);
                key.push(statements.len() as u64);
                let ghost head = key@;
                let mut index: usize = 0;
                proof {
                    assert(statements@.take(0) =~= Seq::<DoStmt>::empty());
                    assert(head + statement_keys(statements@.take(0)) =~= head);
                }
                while index < statements.len()
                    invariant
                        0 <= index <= statements.len(),
                        key@ == head + statement_keys(statements@.take(index as int)),
                    decreases statements.len() - index,
                {
                    push_statement(&statements[index], &mut key);
                    proof {
                        assert(statements@.take(index + 1).drop_last() =~= statements@.take(
                            index as int,
                        ));
                        assert(key@ =~= head + statement_keys(statements@.take(index + 1)));
                    }
                    index += 1;
                }
                proof {
                    assert(statements@.take(statements@.len() as int) =~= statements@);
                }
            },
        }
        assert(key@ =~= self.key_of());
        key
    }
}

/// The key of a literal of binders.
pub open spec fn binder_literal_key(literal: LiteralKind<Binder>) -> Seq<u64> {
    match literal {
        LiteralKind::Char(c) => seq![0u64, c as u64],
        LiteralKind::String(text) => seq![1u64, text.place() as u64],
        LiteralKind::Int(i) => seq![2u64, (i + 0x8000_0000) as u64],
        LiteralKind::Float(number) => seq![3u64, number.0],
        LiteralKind::Array(binders) => seq![4u64, binders@.len() as u64] + binder_places(binders@),
        LiteralKind::Object(fields) => seq![5u64, fields@.len() as u64] + binder_field_places(
            fields@,
        ),
    }
}

impl<'a> Key for BinderKind<'a> {
    open spec fn key_of(&self) -> Seq<u64> {
        match *self {
            BinderKind::Null => seq![0u64],
            BinderKind::Literal(literal) => seq![1u64] + binder_literal_key(literal),
            BinderKind::Variable(name) => seq![2u64, name.place() as u64],
        }
    }

    fn key(&self) -> (key: Vec<u64>) {
        let mut key = Vec::new();
        match self {
            BinderKind::Null => {
                key.push(0);
            },
            BinderKind::Literal(literal) => {
                key.push(1);
                match literal {
                    LiteralKind::Char(c) => {
                        key.push(0);
                        key.push(*c as u64);
                    },
                    LiteralKind::String(text) => {
                        key.push(1);
                        key.push(text.index() as u64);
                    },
                    LiteralKind::Int(i) => {
                        key.push(2);
                        key.push((*i as i64 + 0x8000_0000) as u64);
                    },
                    LiteralKind::Float(number) => {
                        key.push(3);
                        key.push(number.bits());
                    },
                    LiteralKind::Array(binders) => {
                        key.push(4);
                        key.push(binders.len() as u64);
                        push_binders(binders, &mut key);
                    },
                    LiteralKind::Object(fields) => {
                        key.push(5);
                        key.push(fields.len() as u64);
                        let ghost head = key@;
                        let mut index: usize = 0;
                        proof {
                            assert(fields@.take(0) =~= Seq::<(InternedString, Binder)>::empty());
                            assert(head + binder_field_places(fields@.take(0)) =~= head);
                        }
                        while index < fields.len()
                            invariant
                                0 <= index <= fields.len(),
                                key@ == head + binder_field_places(fields@.take(index as int)),
                            decreases fields.len() - index,
                        {
                            key.push(fields[index].0.index() as u64);
                            fields[index].1.push_places(&mut key);
                            proof {
                                assert(fields@.take(index + 1).drop_last() =~= fields@.take(
                                    index as int,
                                ));
                                assert(key@ =~= head + binder_field_places(
                                    fields@.take(index + 1),
                                ));
                            }
                            index += 1;
                        }
                        proof {
                            assert(fields@.take(fields@.len() as int) =~= fields@);
                        }
                    },
                }
            },
            BinderKind::Variable(name) => {
                key.push(2);
                key.push(name.index() as u64);
            },
        }
        assert(key@ =~= self.key_of());
        key
    }
}

fn push_type_places(ty: &Type, key: &mut Vec<u64>)
    ensures
        final(key)@ == old(key)@ + ty.places(),
{
    key.push(ty.0.index() as u64);
    key.push(ty.1.index() as u64);
    assert(key@ =~= old(key)@ + ty.places());
}

} // verus!
