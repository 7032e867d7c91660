//! The syntax tree that the parser builds.
//!
//! Every type comes twice: as the value that the parser hands out, which
//! owns its strings and vectors, and as a tree of sequences, its view, in
//! which the grammar is stated.

use crate::token::{OperatorK, Token};
use vstd::prelude::*;

verus! {

/// To which side an operator of equal power yields.
#[derive(Debug, Clone, Copy, PartialEq, Eq, Structural, Hash)]
pub enum Associativity {
    Infixl,
    Infixr,
}

/// Whether an operator stands among values or among types.
#[derive(Debug, Clone, Copy, PartialEq, Eq, Structural, Hash)]
pub enum Domain {
    Type,
    Value,
}

/// What an `infixl` or `infixr` declaration says of its operator.
#[derive(Debug, PartialEq, Eq)]
pub struct Fixity {
    pub begin: usize,
    pub end: usize,
    pub associativity: Associativity,
    pub domain: Domain,
    pub binding_power: u8,
    pub identifier: String,
}

/// A fixity, with the text of its identifier.
pub struct FixityTree {
    pub begin: usize,
    pub end: usize,
    pub associativity: Associativity,
    pub domain: Domain,
    pub binding_power: u8,
    pub identifier: Seq<char>,
}

impl View for Fixity {
    type V = FixityTree;

    open spec fn view(&self) -> FixityTree {
        FixityTree {
            begin: self.begin,
            end: self.end,
            associativity: self.associativity,
            domain: self.domain,
            binding_power: self.binding_power,
            identifier: self.identifier@,
        }
    }
}

/// The left and right binding power of an operator of the given
/// associativity and power: `(p, p + 1)` where it associates to the left,
/// `(p + 1, p)` where it associates to the right.
pub open spec fn binding_pair(associativity: Associativity, power: u8) -> (int, int) {
    match associativity {
        Associativity::Infixl => (power as int, power + 1),
        Associativity::Infixr => (power + 1, power as int),
    }
}

impl FixityTree {
    /// The binding powers to the left and to the right.
    pub open spec fn as_pair(self) -> (u8, u8) {
        let (left, right) = binding_pair(self.associativity, self.binding_power);
        (left as u8, right as u8)
    }
}

impl Fixity {
    /// The binding powers to the left and to the right.
    pub fn as_pair(&self) -> (pair: (u8, u8))
        requires
            self.binding_power < u8::MAX,
        ensures
            (pair.0 as int, pair.1 as int) == binding_pair(self.associativity, self.binding_power),
            pair == self@.as_pair(),
    {
        match self.associativity {
            Associativity::Infixl => (self.binding_power, self.binding_power + 1),
            Associativity::Infixr => (self.binding_power + 1, self.binding_power),
        }
    }
}

/// A pattern that binds an argument: `_` or a name.
#[derive(Debug, PartialEq, Eq)]
pub struct LesserPattern {
    pub begin: usize,
    pub end: usize,
    pub kind: LesserPatternK,
}

#[derive(Debug, PartialEq, Eq)]
pub enum LesserPatternK {
    Null,
    Variable(String),
}

pub struct LesserTree {
    pub begin: usize,
    pub end: usize,
    pub kind: LesserTreeK,
}

pub enum LesserTreeK {
    Null,
    Variable(Seq<char>),
}

impl View for LesserPattern {
    type V = LesserTree;

    open spec fn view(&self) -> LesserTree {
        LesserTree {
            begin: self.begin,
            end: self.end,
            kind: match self.kind {
                LesserPatternK::Null => LesserTreeK::Null,
                LesserPatternK::Variable(name) => LesserTreeK::Variable(name@),
            },
        }
    }
}

/// A pattern of a case arm.
#[derive(Debug, PartialEq, Eq)]
pub struct GreaterPattern {
    pub begin: usize,
    pub end: usize,
    pub kind: GreaterPatternK,
}

#[derive(Debug, PartialEq, Eq)]
pub enum GreaterPatternK {
    Application(Box<GreaterPattern>, Vec<GreaterPattern>),
    BinaryOperator(Box<GreaterPattern>, String, Box<GreaterPattern>),
    Constructor(String),
    Integer(String),
    Null,
    Parenthesized(Box<GreaterPattern>),
    Variable(String),
}

pub struct GreaterTree {
    pub begin: usize,
    pub end: usize,
    pub kind: GreaterTreeK,
}

pub enum GreaterTreeK {
    Application(Box<GreaterTree>, Seq<GreaterTree>),
    BinaryOperator(Box<GreaterTree>, Seq<char>, Box<GreaterTree>),
    Constructor(Seq<char>),
    Integer(Seq<char>),
    Null,
    Parenthesized(Box<GreaterTree>),
    Variable(Seq<char>),
}

impl GreaterPattern {
    pub open spec fn tree(&self) -> GreaterTree
        decreases self,
    {
        GreaterTree {
            begin: self.begin,
            end: self.end,
            kind: match self.kind {
                GreaterPatternK::Application(function, arguments) => GreaterTreeK::Application(
                    Box::new(function.tree()),
                    Seq::new(
                        arguments.len() as nat,
                        |i: int|
                            if 0 <= i < arguments.len() {
                                arguments[i].tree()
                            } else {
                                arbitrary()
                            },
                    ),
                ),
                GreaterPatternK::BinaryOperator(left, operator, right) => {
                    GreaterTreeK::BinaryOperator(
                        Box::new(left.tree()),
                        operator@,
                        Box::new(right.tree()),
                    )
                },
                GreaterPatternK::Constructor(name) => GreaterTreeK::Constructor(name@),
                GreaterPatternK::Integer(digits) => GreaterTreeK::Integer(digits@),
                GreaterPatternK::Null => GreaterTreeK::Null,
                GreaterPatternK::Parenthesized(inner) => GreaterTreeK::Parenthesized(
                    Box::new(inner.tree()),
                ),
                GreaterPatternK::Variable(name) => GreaterTreeK::Variable(name@),
            },
        }
    }
}

impl View for GreaterPattern {
    type V = GreaterTree;

    open spec fn view(&self) -> GreaterTree {
        self.tree()
    }
}

/// A type.
#[derive(Debug, PartialEq, Eq)]
pub struct Ty {
    pub begin: usize,
    pub end: usize,
    pub kind: TyK,
}

#[derive(Debug, PartialEq, Eq)]
pub enum TyK {
    Application(Box<Ty>, Vec<Ty>),
    BinaryOperator(Box<Ty>, String, Box<Ty>),
    Constructor(String),
    Parenthesized(Box<Ty>),
    Variable(String),
}

pub struct TyTree {
    pub begin: usize,
    pub end: usize,
    pub kind: TyTreeK,
}

pub enum TyTreeK {
    Application(Box<TyTree>, Seq<TyTree>),
    BinaryOperator(Box<TyTree>, Seq<char>, Box<TyTree>),
    Constructor(Seq<char>),
    Parenthesized(Box<TyTree>),
    Variable(Seq<char>),
}

impl Ty {
    pub open spec fn tree(&self) -> TyTree
        decreases self,
    {
        TyTree {
            begin: self.begin,
            end: self.end,
            kind: match self.kind {
                TyK::Application(function, arguments) => TyTreeK::Application(
                    Box::new(function.tree()),
                    Seq::new(
                        arguments.len() as nat,
                        |i: int|
                            if 0 <= i < arguments.len() {
                                arguments[i].tree()
                            } else {
                                arbitrary()
                            },
                    ),
                ),
                TyK::BinaryOperator(left, operator, right) => TyTreeK::BinaryOperator(
                    Box::new(left.tree()),
                    operator@,
                    Box::new(right.tree()),
                ),
                TyK::Constructor(name) => TyTreeK::Constructor(name@),
                TyK::Parenthesized(inner) => TyTreeK::Parenthesized(Box::new(inner.tree())),
                TyK::Variable(name) => TyTreeK::Variable(name@),
            },
        }
    }
}

impl View for Ty {
    type V = TyTree;

    open spec fn view(&self) -> TyTree {
        self.tree()
    }
}

/// An expression.
#[derive(Debug, PartialEq, Eq)]
pub struct Expression {
    pub begin: usize,
    pub end: usize,
    pub kind: ExpressionK,
}

#[derive(Debug, PartialEq, Eq)]
pub enum ExpressionK {
    Application(Box<Expression>, Vec<Expression>),
    BinaryOperator(Box<Expression>, String, Box<Expression>),
    CaseOf(Vec<Expression>, Vec<CaseArm>),
    Constructor(String),
    DoBlock(Vec<DoStatement>),
    Float(String),
    IfThenElse(Box<Expression>, Box<Expression>, Box<Expression>),
    Integer(String),
    Lambda(Vec<LesserPattern>, Box<Expression>),
    Let(Vec<Declaration>, Box<Expression>),
    Parenthesized(Box<Expression>),
    Variable(String),
}

/// A statement of a `do` block.
#[derive(Debug, PartialEq, Eq)]
pub struct DoStatement {
    pub begin: usize,
    pub end: usize,
    pub kind: DoStatementK,
}

#[derive(Debug, PartialEq, Eq)]
pub enum DoStatementK {
    BindExpression(LesserPattern, Expression),
    DiscardExpression(Expression),
    LetStatement(Vec<Declaration>),
}

/// An arm of a `case`: its patterns, its guard and its result.
#[derive(Debug, PartialEq, Eq)]
pub struct CaseArm {
    pub patterns: Vec<GreaterPattern>,
    pub condition: Option<Expression>,
    pub expression: Expression,
}

/// A declaration.
#[derive(Debug, PartialEq, Eq)]
pub struct Declaration {
    pub begin: usize,
    pub end: usize,
    pub kind: DeclarationK,
}

#[derive(Debug, PartialEq, Eq)]
pub enum DeclarationK {
    ValueDeclaration(String, Vec<LesserPattern>, Expression),
    TypeDeclaration(String, Ty),
    /// A declaration with a block for its body, which is kept as tokens:
    /// the name, the variables of the head, the mark that opens the block,
    /// and the tokens of the block.
    BlockDeclaration(String, Vec<LesserPattern>, OperatorK, Vec<Token>),
}

pub struct ExpressionTree {
    pub begin: usize,
    pub end: usize,
    pub kind: ExpressionTreeK,
}

pub enum ExpressionTreeK {
    Application(Box<ExpressionTree>, Seq<ExpressionTree>),
    BinaryOperator(Box<ExpressionTree>, Seq<char>, Box<ExpressionTree>),
    CaseOf(Seq<ExpressionTree>, Seq<CaseArmTree>),
    Constructor(Seq<char>),
    DoBlock(Seq<DoStatementTree>),
    Float(Seq<char>),
    IfThenElse(Box<ExpressionTree>, Box<ExpressionTree>, Box<ExpressionTree>),
    Integer(Seq<char>),
    Lambda(Seq<LesserTree>, Box<ExpressionTree>),
    Let(Seq<DeclarationTree>, Box<ExpressionTree>),
    Parenthesized(Box<ExpressionTree>),
    Variable(Seq<char>),
}

pub struct DoStatementTree {
    pub begin: usize,
    pub end: usize,
    pub kind: DoStatementTreeK,
}

pub enum DoStatementTreeK {
    BindExpression(LesserTree, ExpressionTree),
    DiscardExpression(ExpressionTree),
    LetStatement(Seq<DeclarationTree>),
}

pub struct CaseArmTree {
    pub patterns: Seq<GreaterTree>,
    pub condition: Option<ExpressionTree>,
    pub expression: ExpressionTree,
}

pub struct DeclarationTree {
    pub begin: usize,
    pub end: usize,
    pub kind: DeclarationTreeK,
}

pub enum DeclarationTreeK {
    ValueDeclaration(Seq<char>, Seq<LesserTree>, ExpressionTree),
    TypeDeclaration(Seq<char>, TyTree),
    BlockDeclaration(Seq<char>, Seq<LesserTree>, OperatorK, Seq<Token>),
}

/// The views of a vector of patterns.
pub open spec fn lesser_trees(patterns: Seq<LesserPattern>) -> Seq<LesserTree> {
    patterns.map_values(|pattern: LesserPattern| pattern@)
}

/// The views of a vector of patterns.
pub open spec fn greater_trees(patterns: Seq<GreaterPattern>) -> Seq<GreaterTree> {
    patterns.map_values(|pattern: GreaterPattern| pattern@)
}

impl Expression {
    pub open spec fn tree(&self) -> ExpressionTree
        decreases self,
    {
        ExpressionTree {
            begin: self.begin,
            end: self.end,
            kind: match self.kind {
                ExpressionK::Application(function, arguments) => ExpressionTreeK::Application(
                    Box::new(function.tree()),
                    Seq::new(
                        arguments.len() as nat,
                        |i: int|
                            if 0 <= i < arguments.len() {
                                arguments[i].tree()
                            } else {
                                arbitrary()
                            },
                    ),
                ),
                ExpressionK::BinaryOperator(left, operator, right) => {
                    ExpressionTreeK::BinaryOperator(
                        Box::new(left.tree()),
                        operator@,
                        Box::new(right.tree()),
                    )
                },
                ExpressionK::CaseOf(expressions, arms) => ExpressionTreeK::CaseOf(
                    Seq::new(
                        expressions.len() as nat,
                        |i: int|
                            if 0 <= i < expressions.len() {
                                expressions[i].tree()
                            } else {
                                arbitrary()
                            },
                    ),
                    Seq::new(
                        arms.len() as nat,
                        |i: int|
                            if 0 <= i < arms.len() {
                                arms[i].tree()
                            } else {
                                arbitrary()
                            },
                    ),
                ),
                ExpressionK::Constructor(name) => ExpressionTreeK::Constructor(name@),
                ExpressionK::DoBlock(statements) => ExpressionTreeK::DoBlock(
                    Seq::new(
                        statements.len() as nat,
                        |i: int|
                            if 0 <= i < statements.len() {
                                statements[i].tree()
                            } else {
                                arbitrary()
                            },
                    ),
                ),
                ExpressionK::Float(digits) => ExpressionTreeK::Float(digits@),
                ExpressionK::IfThenElse(condition, then_value, else_value) => {
                    ExpressionTreeK::IfThenElse(
                        Box::new(condition.tree()),
                        Box::new(then_value.tree()),
                        Box::new(else_value.tree()),
                    )
                },
                ExpressionK::Integer(digits) => ExpressionTreeK::Integer(digits@),
                ExpressionK::Lambda(patterns, expression) => ExpressionTreeK::Lambda(
                    lesser_trees(patterns@),
                    Box::new(expression.tree()),
                ),
                ExpressionK::Let(declarations, expression) => ExpressionTreeK::Let(
                    Seq::new(
                        declarations.len() as nat,
                        |i: int|
                            if 0 <= i < declarations.len() {
                                declarations[i].tree()
                            } else {
                                arbitrary()
                            },
                    ),
                    Box::new(expression.tree()),
                ),
                ExpressionK::Parenthesized(inner) => ExpressionTreeK::Parenthesized(
                    Box::new(inner.tree()),
                ),
                ExpressionK::Variable(name) => ExpressionTreeK::Variable(name@),
            },
        }
    }
}

impl DoStatement {
    pub open spec fn tree(&self) -> DoStatementTree
        decreases self,
    {
        DoStatementTree {
            begin: self.begin,
            end: self.end,
            kind: match self.kind {
                DoStatementK::BindExpression(pattern, expression) => {
                    DoStatementTreeK::BindExpression(pattern@, expression.tree())
                },
                DoStatementK::DiscardExpression(expression) => DoStatementTreeK::DiscardExpression(
                    expression.tree(),
                ),
                DoStatementK::LetStatement(declarations) => DoStatementTreeK::LetStatement(
                    Seq::new(
                        declarations.len() as nat,
                        |i: int|
                            if 0 <= i < declarations.len() {
                                declarations[i].tree()
                            } else {
                                arbitrary()
                            },
                    ),
                ),
            },
        }
    }
}

impl CaseArm {
    pub open spec fn tree(&self) -> CaseArmTree
        decreases self,
    {
        CaseArmTree {
            patterns: greater_trees(self.patterns@),
            condition: match self.condition {
                Some(condition) => Some(condition.tree()),
                None => None,
            },
            expression: self.expression.tree(),
        }
    }
}

impl Declaration {
    pub open spec fn tree(&self) -> DeclarationTree
        decreases self,
    {
        DeclarationTree {
            begin: self.begin,
            end: self.end,
            kind: match self.kind {
                DeclarationK::ValueDeclaration(name, patterns, expression) => {
                    DeclarationTreeK::ValueDeclaration(
                        name@,
                        lesser_trees(patterns@),
                        expression.tree(),
                    )
                },
                DeclarationK::TypeDeclaration(name, ty) => DeclarationTreeK::TypeDeclaration(
                    name@,
                    ty@,
                ),
                DeclarationK::BlockDeclaration(name, variables, mark, body) => {
                    DeclarationTreeK::BlockDeclaration(name@, lesser_trees(variables@), mark, body@)
                },
            },
        }
    }
}

impl View for Expression {
    type V = ExpressionTree;

    open spec fn view(&self) -> ExpressionTree {
        self.tree()
    }
}

impl View for DoStatement {
    type V = DoStatementTree;

    open spec fn view(&self) -> DoStatementTree {
        self.tree()
    }
}

impl View for CaseArm {
    type V = CaseArmTree;

    open spec fn view(&self) -> CaseArmTree {
        self.tree()
    }
}

impl View for Declaration {
    type V = DeclarationTree;

    open spec fn view(&self) -> DeclarationTree {
        self.tree()
    }
}

/// The views of a vector of expressions.
pub open spec fn expression_trees(expressions: Seq<Expression>) -> Seq<ExpressionTree> {
    expressions.map_values(|expression: Expression| expression@)
}

/// The views of a vector of statements.
pub open spec fn statement_trees(statements: Seq<DoStatement>) -> Seq<DoStatementTree> {
    statements.map_values(|statement: DoStatement| statement@)
}

/// The views of a vector of case arms.
pub open spec fn arm_trees(arms: Seq<CaseArm>) -> Seq<CaseArmTree> {
    arms.map_values(|arm: CaseArm| arm@)
}

/// The views of a vector of declarations.
pub open spec fn declaration_trees(declarations: Seq<Declaration>) -> Seq<DeclarationTree> {
    declarations.map_values(|declaration: Declaration| declaration@)
}

} // verus!
