//! The grammar, as functions from a place in the token sequence to what is
//! parsed there and where the parse ends.
//!
//! Each function answers for one production. It is given the index of the
//! first token and returns either the tree and the index after its last
//! token, or the error at which the production fails. The parser computes
//! exactly these functions.

use crate::lines::slice_of;
use crate::parser::errors::{unexpected, Failure};
use crate::parser::types::{
    Associativity, CaseArmTree, DeclarationTree, DeclarationTreeK, DoStatementTree,
    DoStatementTreeK, Domain, ExpressionTree, ExpressionTreeK, FixityTree, GreaterTree,
    GreaterTreeK, LesserTree, LesserTreeK, TyTree, TyTreeK,
};
use crate::token::{DelimiterK, DigitK, IdentifierK, LayoutK, OperatorK, Token, TokenK};
use vstd::prelude::*;

verus! {

/// What a parse reads: the source, the tokens of one declaration group, and
/// the two fixity tables, where they are known.
pub struct Grammar {
    pub source: Seq<char>,
    pub tokens: Seq<Token>,
    pub values: Option<Map<Seq<char>, FixityTree>>,
    pub types: Option<Map<Seq<char>, FixityTree>>,
}

/// The outcome is the value, and the parse ends before `position`.
pub open spec fn parsed<T>(outcome: Result<(T, int), Failure>, value: T, position: int) -> bool {
    outcome == Ok::<(T, int), Failure>((value, position))
}

/// The outcome is the failure.
pub open spec fn failed<T>(outcome: Result<T, Failure>, failure: Failure) -> bool {
    outcome == Err::<T, Failure>(failure)
}

/// The outcome is the value.
pub open spec fn found<T>(outcome: Result<T, Failure>, value: T) -> bool {
    outcome == Ok::<T, Failure>(value)
}

/// The number that the decimal digits of `text` spell; a character that is
/// no digit counts as ten.
pub open spec fn decimal_value(text: Seq<char>) -> nat
    decreases text.len(),
{
    if text.len() == 0 {
        0
    } else {
        let last = text.last();
        let digit = if '0' <= last && last <= '9' {
            (last as u32 - '0' as u32) as nat
        } else {
            10nat
        };
        decimal_value(text.drop_last()) * 10 + digit
    }
}

/// The binding power that `text` spells: one of 0 to 9.
pub open spec fn power_of(text: Seq<char>) -> Option<u8> {
    if text.len() > 0 && decimal_value(text) <= 9 {
        Some(decimal_value(text) as u8)
    } else {
        None
    }
}

/// The binding powers of `operator` in `table`.
pub open spec fn fixity_in(table: Option<Map<Seq<char>, FixityTree>>, operator: Seq<char>)
    -> Result<(u8, u8), Failure> {
    match table {
        Some(entries) if entries.contains_key(operator) => Ok(entries[operator].as_pair()),
        _ => Err(Failure::UnknownBindingPower(operator)),
    }
}

/// An application of `function` to one more `argument`: the arguments of an
/// application gather in one list.
pub open spec fn apply_expression(function: ExpressionTree, argument: ExpressionTree)
    -> ExpressionTree {
    match function.kind {
        ExpressionTreeK::Application(head, arguments) => ExpressionTree {
            begin: function.begin,
            end: argument.end,
            kind: ExpressionTreeK::Application(head, arguments.push(argument)),
        },
        _ => ExpressionTree {
            begin: function.begin,
            end: argument.end,
            kind: ExpressionTreeK::Application(Box::new(function), seq![argument]),
        },
    }
}

/// An application of `function` to a block, which always stands alone.
pub open spec fn apply_block(function: ExpressionTree, argument: ExpressionTree)
    -> ExpressionTree {
    ExpressionTree {
        begin: function.begin,
        end: argument.end,
        kind: ExpressionTreeK::Application(Box::new(function), seq![argument]),
    }
}

/// The operator between its operands.
pub open spec fn binary_expression(
    left: ExpressionTree,
    operator: Seq<char>,
    right: ExpressionTree,
) -> ExpressionTree {
    ExpressionTree {
        begin: left.begin,
        end: right.end,
        kind: ExpressionTreeK::BinaryOperator(Box::new(left), operator, Box::new(right)),
    }
}

/// An application of the pattern `function` to one more `argument`.
pub open spec fn apply_pattern(function: GreaterTree, argument: GreaterTree) -> GreaterTree {
    match function.kind {
        GreaterTreeK::Application(head, arguments) => GreaterTree {
            begin: function.begin,
            end: argument.end,
            kind: GreaterTreeK::Application(head, arguments.push(argument)),
        },
        _ => GreaterTree {
            begin: function.begin,
            end: argument.end,
            kind: GreaterTreeK::Application(Box::new(function), seq![argument]),
        },
    }
}

/// The operator between its operands.
pub open spec fn binary_pattern(left: GreaterTree, operator: Seq<char>, right: GreaterTree)
    -> GreaterTree {
    GreaterTree {
        begin: left.begin,
        end: right.end,
        kind: GreaterTreeK::BinaryOperator(Box::new(left), operator, Box::new(right)),
    }
}

/// An application of the type `function` to one more `argument`. The span
/// reaches to the last argument once there are two.
pub open spec fn apply_ty(function: TyTree, argument: TyTree) -> TyTree {
    match function.kind {
        TyTreeK::Application(head, arguments) => TyTree {
            begin: function.begin,
            end: argument.end,
            kind: TyTreeK::Application(head, arguments.push(argument)),
        },
        _ => TyTree {
            begin: function.begin,
            end: function.end,
            kind: TyTreeK::Application(Box::new(function), seq![argument]),
        },
    }
}

/// The operator between its operands.
pub open spec fn binary_ty(left: TyTree, operator: Seq<char>, right: TyTree) -> TyTree {
    TyTree {
        begin: left.begin,
        end: right.end,
        kind: TyTreeK::BinaryOperator(Box::new(left), operator, Box::new(right)),
    }
}

/// Whether the kind is one of the marks `?`, `!` and `|` that open the block
/// of a declaration.
pub open spec fn is_marker(kind: TokenK) -> bool {
    kind == TokenK::Operator(OperatorK::Question) || kind == TokenK::Operator(OperatorK::Bang)
        || kind == TokenK::Operator(OperatorK::Pipe)
}

impl Grammar {
    /// The token at `i`; past the last one, the end of the input.
    pub open spec fn peek(self, i: int) -> Result<Token, Failure> {
        if 0 <= i < self.tokens.len() {
            Ok(self.tokens[i])
        } else {
            Err(Failure::UnexpectedEndOfFile)
        }
    }

    /// The token at `i`, which has to be of `kind`.
    pub open spec fn expect(self, i: int, kind: TokenK) -> Result<Token, Failure> {
        match self.peek(i) {
            Ok(token) => if token.kind == kind {
                Ok(token)
            } else {
                Err(unexpected(token.kind))
            },
            Err(failure) => Err(failure),
        }
    }

    /// The source text of `token`.
    pub open spec fn text(self, token: Token) -> Seq<char> {
        slice_of(self.source, token.begin as int, token.end as int)
    }

    /// The binding powers of `operator` among types. Where no declaration
    /// names it, `->` associates to the right with power 0.
    pub open spec fn type_fixity(self, operator: Seq<char>) -> Result<(u8, u8), Failure> {
        match fixity_in(self.types, operator) {
            Ok(pair) => Ok(pair),
            Err(failure) => if operator == "->"@ {
                Ok((1u8, 0u8))
            } else {
                Err(failure)
            },
        }
    }

    /// `(infixl | infixr) INT [type] IDENT as OPERATOR ;`
    pub open spec fn fixity(self, i: int) -> Result<((Seq<char>, FixityTree), int), Failure> {
        match self.peek(i) {
            Err(failure) => Err(failure),
            Ok(keyword) => if !keyword.is_infix_identifier() {
                Err(unexpected(keyword.kind))
            } else {
                let associativity = if keyword.kind == TokenK::Identifier(IdentifierK::Infixl) {
                    Associativity::Infixl
                } else {
                    Associativity::Infixr
                };
                match self.expect(i + 1, TokenK::Digit(DigitK::Int)) {
                    Err(failure) => Err(failure),
                    Ok(digits) => match power_of(self.text(digits)) {
                        None => Err(Failure::MalformedDigit),
                        Some(binding_power) => match self.peek(i + 2) {
                            Err(failure) => Err(failure),
                            Ok(next) => {
                                let typed = next.kind == TokenK::Identifier(IdentifierK::Type);
                                let at = if typed {
                                    i + 3
                                } else {
                                    i + 2
                                };
                                let domain = if typed {
                                    Domain::Type
                                } else {
                                    Domain::Value
                                };
                                let case = if typed {
                                    IdentifierK::Upper
                                } else {
                                    IdentifierK::Lower
                                };
                                match self.expect(at, TokenK::Identifier(case)) {
                                    Err(failure) => Err(failure),
                                    Ok(name) => match self.expect(
                                        at + 1,
                                        TokenK::Identifier(IdentifierK::As),
                                    ) {
                                        Err(failure) => Err(failure),
                                        Ok(_) => match self.peek(at + 2) {
                                            Err(failure) => Err(failure),
                                            Ok(operator) => if !(operator.kind is Operator) {
                                                Err(unexpected(operator.kind))
                                            } else {
                                                match self.expect(
                                                    at + 3,
                                                    TokenK::Layout(LayoutK::Separator),
                                                ) {
                                                    Err(failure) => Err(failure),
                                                    Ok(_) => Ok(
                                                        (
                                                            (
                                                                self.text(operator),
                                                                FixityTree {
                                                                    begin: keyword.begin,
                                                                    end: operator.end,
                                                                    associativity,
                                                                    domain,
                                                                    binding_power,
                                                                    identifier: self.text(name),
                                                                },
                                                            ),
                                                            at + 4,
                                                        ),
                                                    ),
                                                }
                                            },
                                        },
                                    },
                                }
                            },
                        },
                    },
                }
            },
        }
    }

    /// `_` or a lowercase name.
    pub open spec fn lesser_pattern(self, i: int) -> Result<(LesserTree, int), Failure> {
        match self.peek(i) {
            Err(failure) => Err(failure),
            Ok(token) => if token.kind == TokenK::Operator(OperatorK::Underscore) {
                Ok((LesserTree { begin: token.begin, end: token.end, kind: LesserTreeK::Null }, i + 1))
            } else if token.kind == TokenK::Identifier(IdentifierK::Lower) {
                Ok(
                    (
                        LesserTree {
                            begin: token.begin,
                            end: token.end,
                            kind: LesserTreeK::Variable(self.text(token)),
                        },
                        i + 1,
                    ),
                )
            } else {
                Err(unexpected(token.kind))
            },
        }
    }

    /// Lesser patterns up to the token of kind `stop`, after those in
    /// `patterns`.
    pub open spec fn lesser_patterns(self, i: int, stop: TokenK, patterns: Seq<LesserTree>)
        -> Result<(Seq<LesserTree>, int), Failure>
        decreases self.tokens.len() - i,
    {
        match self.peek(i) {
            Err(failure) => Err(failure),
            Ok(token) => if token.kind == stop {
                Ok((patterns, i))
            } else {
                match self.lesser_pattern(i) {
                    Err(failure) => Err(failure),
                    Ok((pattern, _)) => self.lesser_patterns(i + 1, stop, patterns.push(pattern)),
                }
            },
        }
    }

    /// A number, a name, a constructor, `_`, or a pattern in parentheses.
    pub open spec fn greater_pattern_atom(self, i: int) -> Result<(GreaterTree, int), Failure>
        decreases self.tokens.len() - i, 0nat,
    {
        match self.peek(i) {
            Err(failure) => Err(failure),
            Ok(token) => {
                let leaf = |kind: GreaterTreeK|
                    Ok::<(GreaterTree, int), Failure>(
                        (GreaterTree { begin: token.begin, end: token.end, kind }, i + 1),
                    );
                match token.kind {
                    TokenK::Digit(DigitK::Int) => leaf(GreaterTreeK::Integer(self.text(token))),
                    TokenK::Identifier(IdentifierK::Lower) => leaf(
                        GreaterTreeK::Variable(self.text(token)),
                    ),
                    TokenK::Identifier(IdentifierK::Upper) => leaf(
                        GreaterTreeK::Constructor(self.text(token)),
                    ),
                    TokenK::Operator(OperatorK::Underscore) => leaf(GreaterTreeK::Null),
                    TokenK::OpenDelimiter(DelimiterK::Round) => match self.greater_pattern_core(
                        i + 1,
                        0,
                    ) {
                        Err(failure) => Err(failure),
                        Ok((inner, j)) => match self.expect(
                            j,
                            TokenK::CloseDelimiter(DelimiterK::Round),
                        ) {
                            Err(failure) => Err(failure),
                            Ok(close) => Ok(
                                (
                                    GreaterTree {
                                        begin: token.begin,
                                        end: close.end,
                                        kind: GreaterTreeK::Parenthesized(Box::new(inner)),
                                    },
                                    j + 1,
                                ),
                            ),
                        },
                    },
                    kind => Err(unexpected(kind)),
                }
            },
        }
    }

    /// A pattern whose operators bind with at least `minimum_power`.
    pub open spec fn greater_pattern_core(self, i: int, minimum_power: u8) -> Result<
        (GreaterTree, int),
        Failure,
    >
        decreases self.tokens.len() - i, 2nat,
    {
        match self.greater_pattern_atom(i) {
            Err(failure) => Err(failure),
            Ok((atom, j)) => if i < j <= self.tokens.len() {
                self.greater_pattern_loop(atom, j, minimum_power)
            } else {
                Err(Failure::UnexpectedEndOfFile)
            },
        }
    }

    /// The pattern that `accumulator` grows into from the token `i` on:
    /// by arguments, and by operators that bind with at least
    /// `minimum_power`, up to a boundary or a weaker operator.
    pub open spec fn greater_pattern_loop(
        self,
        accumulator: GreaterTree,
        i: int,
        minimum_power: u8,
    ) -> Result<(GreaterTree, int), Failure>
        decreases self.tokens.len() - i, 1nat,
    {
        match self.peek(i) {
            Err(failure) => Err(failure),
            Ok(token) => if token.is_greater_pattern_boundary() {
                Ok((accumulator, i))
            } else if token.kind == TokenK::Operator(OperatorK::Source) {
                match fixity_in(self.values, self.text(token)) {
                    Err(failure) => Err(failure),
                    Ok((left_power, right_power)) => if left_power < minimum_power {
                        Ok((accumulator, i))
                    } else {
                        match self.greater_pattern_core(i + 1, right_power) {
                            Err(failure) => Err(failure),
                            Ok((argument, j)) => if i < j <= self.tokens.len() {
                                self.greater_pattern_loop(
                                    binary_pattern(accumulator, self.text(token), argument),
                                    j,
                                    minimum_power,
                                )
                            } else {
                                Err(Failure::UnexpectedEndOfFile)
                            },
                        }
                    },
                }
            } else {
                match self.greater_pattern_atom(i) {
                    Err(failure) => Err(failure),
                    Ok((argument, j)) => if i < j <= self.tokens.len() {
                        self.greater_pattern_loop(
                            apply_pattern(accumulator, argument),
                            j,
                            minimum_power,
                        )
                    } else {
                        Err(Failure::UnexpectedEndOfFile)
                    },
                }
            },
        }
    }

    /// The patterns of a case arm, up to its `if` or `->`; commas between
    /// them are passed over.
    pub open spec fn greater_patterns(self, i: int, patterns: Seq<GreaterTree>) -> Result<
        (Seq<GreaterTree>, int),
        Failure,
    >
        decreases self.tokens.len() - i,
    {
        match self.peek(i) {
            Err(failure) => Err(failure),
            Ok(token) => if token.kind == TokenK::Operator(OperatorK::Comma) {
                self.greater_patterns(i + 1, patterns)
            } else if token.kind == TokenK::Identifier(IdentifierK::If) || token.kind
                == TokenK::Operator(OperatorK::ArrowRight) {
                Ok((patterns, i))
            } else {
                match self.greater_pattern_core(i, 0) {
                    Err(failure) => Err(failure),
                    Ok((pattern, j)) => if i < j <= self.tokens.len() {
                        self.greater_patterns(j, patterns.push(pattern))
                    } else {
                        Err(Failure::UnexpectedEndOfFile)
                    },
                }
            },
        }
    }

    /// A constructor, a variable, or a type in parentheses.
    pub open spec fn ty_atom(self, i: int) -> Result<(TyTree, int), Failure>
        decreases self.tokens.len() - i, 0nat,
    {
        match self.peek(i) {
            Err(failure) => Err(failure),
            Ok(token) => match token.kind {
                TokenK::Identifier(IdentifierK::Upper) => Ok(
                    (
                        TyTree {
                            begin: token.begin,
                            end: token.end,
                            kind: TyTreeK::Constructor(self.text(token)),
                        },
                        i + 1,
                    ),
                ),
                TokenK::Identifier(IdentifierK::Lower) => Ok(
                    (
                        TyTree {
                            begin: token.begin,
                            end: token.end,
                            kind: TyTreeK::Variable(self.text(token)),
                        },
                        i + 1,
                    ),
                ),
                TokenK::OpenDelimiter(DelimiterK::Round) => match self.ty_core(i + 1, 0) {
                    Err(failure) => Err(failure),
                    Ok((inner, j)) => match self.expect(
                        j,
                        TokenK::CloseDelimiter(DelimiterK::Round),
                    ) {
                        Err(failure) => Err(failure),
                        Ok(close) => Ok(
                            (
                                TyTree {
                                    begin: token.begin,
                                    end: close.end,
                                    kind: TyTreeK::Parenthesized(Box::new(inner)),
                                },
                                j + 1,
                            ),
                        ),
                    },
                },
                kind => Err(unexpected(kind)),
            },
        }
    }

    /// A type whose operators bind with at least `minimum_power`.
    pub open spec fn ty_core(self, i: int, minimum_power: u8) -> Result<(TyTree, int), Failure>
        decreases self.tokens.len() - i, 2nat,
    {
        match self.ty_atom(i) {
            Err(failure) => Err(failure),
            Ok((atom, j)) => if i < j <= self.tokens.len() {
                self.ty_loop(atom, j, minimum_power)
            } else {
                Err(Failure::UnexpectedEndOfFile)
            },
        }
    }

    /// The type that `accumulator` grows into from the token `i` on. Both
    /// `->` and the operators of the source are infix.
    pub open spec fn ty_loop(self, accumulator: TyTree, i: int, minimum_power: u8) -> Result<
        (TyTree, int),
        Failure,
    >
        decreases self.tokens.len() - i, 1nat,
    {
        match self.peek(i) {
            Err(failure) => Err(failure),
            Ok(token) => if token.is_ty_boundary() {
                Ok((accumulator, i))
            } else if token.kind == TokenK::Operator(OperatorK::ArrowRight) || token.kind
                == TokenK::Operator(OperatorK::Source) {
                match self.type_fixity(self.text(token)) {
                    Err(failure) => Err(failure),
                    Ok((left_power, right_power)) => if left_power < minimum_power {
                        Ok((accumulator, i))
                    } else {
                        match self.ty_core(i + 1, right_power) {
                            Err(failure) => Err(failure),
                            Ok((argument, j)) => if i < j <= self.tokens.len() {
                                self.ty_loop(
                                    binary_ty(accumulator, self.text(token), argument),
                                    j,
                                    minimum_power,
                                )
                            } else {
                                Err(Failure::UnexpectedEndOfFile)
                            },
                        }
                    },
                }
            } else {
                match self.ty_atom(i) {
                    Err(failure) => Err(failure),
                    Ok((argument, j)) => if i < j <= self.tokens.len() {
                        self.ty_loop(apply_ty(accumulator, argument), j, minimum_power)
                    } else {
                        Err(Failure::UnexpectedEndOfFile)
                    },
                }
            },
        }
    }

    /// A type.
    pub open spec fn ty(self, i: int) -> Result<(TyTree, int), Failure> {
        self.ty_core(i, 0)
    }

    /// A number, a name, a constructor, or an expression in parentheses.
    pub open spec fn expression_atom(self, i: int) -> Result<(ExpressionTree, int), Failure>
        decreases self.tokens.len() - i, 0nat,
    {
        match self.peek(i) {
            Err(failure) => Err(failure),
            Ok(token) => {
                let leaf = |kind: ExpressionTreeK|
                    Ok::<(ExpressionTree, int), Failure>(
                        (ExpressionTree { begin: token.begin, end: token.end, kind }, i + 1),
                    );
                match token.kind {
                    TokenK::Digit(DigitK::Int) => leaf(ExpressionTreeK::Integer(self.text(token))),
                    TokenK::Digit(DigitK::Float) => leaf(ExpressionTreeK::Float(self.text(token))),
                    TokenK::Identifier(IdentifierK::Lower) => leaf(
                        ExpressionTreeK::Variable(self.text(token)),
                    ),
                    TokenK::Identifier(IdentifierK::Upper) => leaf(
                        ExpressionTreeK::Constructor(self.text(token)),
                    ),
                    TokenK::OpenDelimiter(DelimiterK::Round) => match self.expression_core(i + 1, 0) {
                        Err(failure) => Err(failure),
                        Ok((inner, j)) => match self.expect(
                            j,
                            TokenK::CloseDelimiter(DelimiterK::Round),
                        ) {
                            Err(failure) => Err(failure),
                            Ok(close) => Ok(
                                (
                                    ExpressionTree {
                                        begin: token.begin,
                                        end: close.end,
                                        kind: ExpressionTreeK::Parenthesized(Box::new(inner)),
                                    },
                                    j + 1,
                                ),
                            ),
                        },
                    },
                    kind => Err(unexpected(kind)),
                }
            },
        }
    }

    /// `if e then e else e`
    pub open spec fn expression_if(self, i: int) -> Result<(ExpressionTree, int), Failure>
        decreases self.tokens.len() - i, 1nat,
    {
        match self.expect(i, TokenK::Identifier(IdentifierK::If)) {
            Err(failure) => Err(failure),
            Ok(keyword) => match self.expression_core(i + 1, 0) {
                Err(failure) => Err(failure),
                Ok((condition, j)) => match self.expect(j, TokenK::Identifier(IdentifierK::Then)) {
                    Err(failure) => Err(failure),
                    Ok(_) => if !(i < j) {
                        Err(Failure::UnexpectedEndOfFile)
                    } else {
                        match self.expression_core(j + 1, 0) {
                            Err(failure) => Err(failure),
                            Ok((then_value, k)) => match self.expect(
                                k,
                                TokenK::Identifier(IdentifierK::Else),
                            ) {
                                Err(failure) => Err(failure),
                                Ok(_) => if !(j < k) {
                                    Err(Failure::UnexpectedEndOfFile)
                                } else {
                                    match self.expression_core(k + 1, 0) {
                                        Err(failure) => Err(failure),
                                        Ok((else_value, l)) => Ok(
                                            (
                                                ExpressionTree {
                                                    begin: keyword.begin,
                                                    end: else_value.end,
                                                    kind: ExpressionTreeK::IfThenElse(
                                                        Box::new(condition),
                                                        Box::new(then_value),
                                                        Box::new(else_value),
                                                    ),
                                                },
                                                l,
                                            ),
                                        ),
                                    }
                                },
                            },
                        }
                    },
                },
            },
        }
    }

    /// `do { statement; ... }`, or `do` alone before a separator.
    pub open spec fn expression_do(self, i: int) -> Result<(ExpressionTree, int), Failure>
        decreases self.tokens.len() - i, 1nat,
    {
        match self.expect(i, TokenK::Identifier(IdentifierK::Do)) {
            Err(failure) => Err(failure),
            Ok(keyword) => match self.peek(i + 1) {
                Err(failure) => Err(failure),
                Ok(next) => if next.kind == TokenK::Layout(LayoutK::Separator) {
                    Ok(
                        (
                            ExpressionTree {
                                begin: keyword.begin,
                                end: keyword.end,
                                kind: ExpressionTreeK::DoBlock(seq![]),
                            },
                            i + 1,
                        ),
                    )
                } else if next.kind != TokenK::Layout(LayoutK::Begin) {
                    Err(unexpected(next.kind))
                } else {
                    match self.do_statements(i + 2, seq![]) {
                        Err(failure) => Err(failure),
                        Ok((statements, j)) => if statements.len() == 0 {
                            Err(Failure::InternalError("Cannot determine last do statement"@))
                        } else {
                            match self.expect(j, TokenK::Layout(LayoutK::End)) {
                                Err(failure) => Err(failure),
                                Ok(_) => Ok(
                                    (
                                        ExpressionTree {
                                            begin: keyword.begin,
                                            end: statements.last().end,
                                            kind: ExpressionTreeK::DoBlock(statements),
                                        },
                                        j + 1,
                                    ),
                                ),
                            }
                        },
                    }
                },
            },
        }
    }

    /// The statements of a `do` block up to its end, after those in
    /// `statements`.
    pub open spec fn do_statements(self, i: int, statements: Seq<DoStatementTree>) -> Result<
        (Seq<DoStatementTree>, int),
        Failure,
    >
        decreases self.tokens.len() - i, 7nat,
    {
        match self.peek(i) {
            Err(failure) => Err(failure),
            Ok(token) => if token.kind == TokenK::Layout(LayoutK::End) {
                Ok((statements, i))
            } else {
                match self.do_statement(i) {
                    Err(failure) => Err(failure),
                    Ok((statement, j)) => if i < j <= self.tokens.len() {
                        self.do_statements(j, statements.push(statement))
                    } else {
                        Err(Failure::UnexpectedEndOfFile)
                    },
                }
            },
        }
    }

    /// One statement of a `do` block: a `let` with its declarations, an
    /// expression whose value is dropped, or, where that fails, a bind.
    pub open spec fn do_statement(self, i: int) -> Result<(DoStatementTree, int), Failure>
        decreases self.tokens.len() - i, 6nat,
    {
        match self.peek(i) {
            Err(failure) => Err(failure),
            Ok(token) => if token.kind == TokenK::Identifier(IdentifierK::Let) {
                match self.expect(i + 1, TokenK::Layout(LayoutK::Begin)) {
                    Err(failure) => Err(failure),
                    Ok(_) => match self.declaration_let_block(i + 2) {
                        Err(failure) => Err(failure),
                        Ok((declarations, j)) => if declarations.len() == 0 {
                            Err(Failure::InternalError("Cannot determine last declaration"@))
                        } else {
                            match self.expect(j, TokenK::Layout(LayoutK::End)) {
                                Err(failure) => Err(failure),
                                Ok(_) => match self.expect(
                                    j + 1,
                                    TokenK::Layout(LayoutK::Separator),
                                ) {
                                    Err(failure) => Err(failure),
                                    Ok(_) => Ok(
                                        (
                                            DoStatementTree {
                                                begin: token.begin,
                                                end: declarations.last().end,
                                                kind: DoStatementTreeK::LetStatement(declarations),
                                            },
                                            j + 2,
                                        ),
                                    ),
                                },
                            }
                        },
                    },
                }
            } else {
                match self.do_statement_discard(i) {
                    Ok(discard) => Ok(discard),
                    Err(_) => match self.do_statement_bind(i) {
                        Ok(bind) => Ok(bind),
                        Err(_) => Err(unexpected(token.kind)),
                    },
                }
            },
        }
    }

    /// `pattern <- e ;`
    pub open spec fn do_statement_bind(self, i: int) -> Result<(DoStatementTree, int), Failure>
        decreases self.tokens.len() - i, 5nat,
    {
        match self.lesser_pattern(i) {
            Err(failure) => Err(failure),
            Ok((pattern, _)) => match self.expect(i + 1, TokenK::Operator(OperatorK::ArrowLeft)) {
                Err(failure) => Err(failure),
                Ok(_) => match self.expression_core(i + 2, 0) {
                    Err(failure) => Err(failure),
                    Ok((expression, j)) => match self.expect(j, TokenK::Layout(LayoutK::Separator)) {
                        Err(failure) => Err(failure),
                        Ok(_) => Ok(
                            (
                                DoStatementTree {
                                    begin: pattern.begin,
                                    end: expression.end,
                                    kind: DoStatementTreeK::BindExpression(pattern, expression),
                                },
                                j + 1,
                            ),
                        ),
                    },
                },
            },
        }
    }

    /// `e ;`
    pub open spec fn do_statement_discard(self, i: int) -> Result<(DoStatementTree, int), Failure>
        decreases self.tokens.len() - i, 5nat,
    {
        match self.expression_core(i, 0) {
            Err(failure) => Err(failure),
            Ok((expression, j)) => match self.expect(j, TokenK::Layout(LayoutK::Separator)) {
                Err(failure) => Err(failure),
                Ok(_) => Ok(
                    (
                        DoStatementTree {
                            begin: expression.begin,
                            end: expression.end,
                            kind: DoStatementTreeK::DiscardExpression(expression),
                        },
                        j + 1,
                    ),
                ),
            },
        }
    }

    /// `case e, ... of { arm; ... }`
    pub open spec fn expression_case(self, i: int) -> Result<(ExpressionTree, int), Failure>
        decreases self.tokens.len() - i, 1nat,
    {
        match self.expect(i, TokenK::Identifier(IdentifierK::Case)) {
            Err(failure) => Err(failure),
            Ok(keyword) => match self.case_expressions(i + 1) {
                Err(failure) => Err(failure),
                Ok((expressions, j)) => match self.expect(j, TokenK::Layout(LayoutK::Begin)) {
                    Err(failure) => Err(failure),
                    Ok(_) => if !(i < j) {
                        Err(Failure::UnexpectedEndOfFile)
                    } else {
                        match self.case_arms(j + 1) {
                            Err(failure) => Err(failure),
                            Ok((arms, k)) => match self.expect(k, TokenK::Layout(LayoutK::End)) {
                                Err(failure) => Err(failure),
                                Ok(_) => if arms.len() == 0 {
                                    Err(Failure::InternalError("Cannot determine last match arm"@))
                                } else {
                                    Ok(
                                        (
                                            ExpressionTree {
                                                begin: keyword.begin,
                                                end: arms.last().expression.end,
                                                kind: ExpressionTreeK::CaseOf(expressions, arms),
                                            },
                                            k + 1,
                                        ),
                                    )
                                },
                            },
                        }
                    },
                },
            },
        }
    }

    /// The expressions between `case` and `of`, and past the `of`.
    pub open spec fn case_expressions(self, i: int) -> Result<(Seq<ExpressionTree>, int), Failure>
        decreases self.tokens.len() - i, 6nat,
    {
        match self.expression_core(i, 0) {
            Err(failure) => Err(failure),
            Ok((first, j)) => if i < j <= self.tokens.len() {
                self.case_expressions_rest(j, seq![first])
            } else {
                Err(Failure::UnexpectedEndOfFile)
            },
        }
    }

    /// The expressions up to `of` after those in `expressions`; commas
    /// between them are passed over.
    pub open spec fn case_expressions_rest(self, i: int, expressions: Seq<ExpressionTree>)
        -> Result<(Seq<ExpressionTree>, int), Failure>
        decreases self.tokens.len() - i, 5nat,
    {
        match self.peek(i) {
            Err(failure) => Err(failure),
            Ok(token) => if token.kind == TokenK::Operator(OperatorK::Comma) {
                self.case_expressions_rest(i + 1, expressions)
            } else if token.kind == TokenK::Identifier(IdentifierK::Of) {
                Ok((expressions, i + 1))
            } else {
                match self.expression_core(i, 0) {
                    Err(failure) => Err(failure),
                    Ok((expression, j)) => if i < j <= self.tokens.len() {
                        self.case_expressions_rest(j, expressions.push(expression))
                    } else {
                        Err(Failure::UnexpectedEndOfFile)
                    },
                }
            },
        }
    }

    /// `pattern, ... [if e] -> e ;`
    pub open spec fn case_arm(self, i: int) -> Result<(CaseArmTree, int), Failure>
        decreases self.tokens.len() - i, 5nat,
    {
        match self.greater_patterns(i, seq![]) {
            Err(failure) => Err(failure),
            Ok((patterns, j)) => match self.peek(j) {
                Err(failure) => Err(failure),
                Ok(token) => if !(i <= j) {
                    Err(Failure::UnexpectedEndOfFile)
                } else {
                    let guard: Result<(Option<ExpressionTree>, int), Failure> = if token.kind
                        == TokenK::Identifier(IdentifierK::If) {
                        match self.expression_core(j + 1, 0) {
                            Err(failure) => Err(failure),
                            Ok((condition, k)) => Ok((Some(condition), k)),
                        }
                    } else {
                        Ok((None, j))
                    };
                    match guard {
                        Err(failure) => Err(failure),
                        Ok((condition, k)) => match self.expect(
                            k,
                            TokenK::Operator(OperatorK::ArrowRight),
                        ) {
                            Err(failure) => Err(failure),
                            Ok(_) => if !(j <= k) {
                                Err(Failure::UnexpectedEndOfFile)
                            } else {
                                match self.expression_core(k + 1, 0) {
                                    Err(failure) => Err(failure),
                                    Ok((expression, l)) => match self.expect(
                                        l,
                                        TokenK::Layout(LayoutK::Separator),
                                    ) {
                                        Err(failure) => Err(failure),
                                        Ok(_) => Ok(
                                            (CaseArmTree { patterns, condition, expression }, l + 1),
                                        ),
                                    },
                                }
                            },
                        },
                    }
                },
            },
        }
    }

    /// The arms of a `case`, at least one, up to the end of its block.
    pub open spec fn case_arms(self, i: int) -> Result<(Seq<CaseArmTree>, int), Failure>
        decreases self.tokens.len() - i, 7nat,
    {
        match self.case_arm(i) {
            Err(failure) => Err(failure),
            Ok((first, j)) => if i < j <= self.tokens.len() {
                self.case_arms_rest(j, seq![first])
            } else {
                Err(Failure::UnexpectedEndOfFile)
            },
        }
    }

    /// The arms up to the end of the block, after those in `arms`.
    pub open spec fn case_arms_rest(self, i: int, arms: Seq<CaseArmTree>) -> Result<
        (Seq<CaseArmTree>, int),
        Failure,
    >
        decreases self.tokens.len() - i, 6nat,
    {
        match self.peek(i) {
            Err(failure) => Err(failure),
            Ok(token) => if token.kind == TokenK::Layout(LayoutK::End) {
                Ok((arms, i))
            } else {
                match self.case_arm(i) {
                    Err(failure) => Err(failure),
                    Ok((arm, j)) => if i < j <= self.tokens.len() {
                        self.case_arms_rest(j, arms.push(arm))
                    } else {
                        Err(Failure::UnexpectedEndOfFile)
                    },
                }
            },
        }
    }

    /// `let { declaration; ... } in e`
    pub open spec fn expression_let(self, i: int) -> Result<(ExpressionTree, int), Failure>
        decreases self.tokens.len() - i, 1nat,
    {
        match self.expect(i, TokenK::Identifier(IdentifierK::Let)) {
            Err(failure) => Err(failure),
            Ok(keyword) => match self.expect(i + 1, TokenK::Layout(LayoutK::Begin)) {
                Err(failure) => Err(failure),
                Ok(_) => match self.declaration_let_block(i + 2) {
                    Err(failure) => Err(failure),
                    Ok((declarations, j)) => if declarations.len() == 0 {
                        Err(Failure::InternalError("Cannot determine last declaration"@))
                    } else {
                        match self.expect(j, TokenK::Layout(LayoutK::End)) {
                            Err(failure) => Err(failure),
                            Ok(_) => match self.expect(j + 1, TokenK::Identifier(IdentifierK::In)) {
                                Err(failure) => Err(failure),
                                Ok(_) => if !(i < j) {
                                    Err(Failure::UnexpectedEndOfFile)
                                } else {
                                    match self.expression_core(j + 2, 0) {
                                        Err(failure) => Err(failure),
                                        Ok((expression, k)) => Ok(
                                            (
                                                ExpressionTree {
                                                    begin: keyword.begin,
                                                    end: declarations.last().end,
                                                    kind: ExpressionTreeK::Let(
                                                        declarations,
                                                        Box::new(expression),
                                                    ),
                                                },
                                                k,
                                            ),
                                        ),
                                    }
                                },
                            },
                        }
                    },
                },
            },
        }
    }

    /// `\ pattern ... -> e`, with one pattern at least.
    pub open spec fn expression_lambda(self, i: int) -> Result<(ExpressionTree, int), Failure>
        decreases self.tokens.len() - i, 1nat,
    {
        match self.expect(i, TokenK::Operator(OperatorK::Backslash)) {
            Err(failure) => Err(failure),
            Ok(backslash) => match self.lesser_patterns(
                i + 1,
                TokenK::Operator(OperatorK::ArrowRight),
                seq![],
            ) {
                Err(failure) => Err(failure),
                Ok((patterns, j)) => if patterns.len() == 0 {
                    Err(unexpected(TokenK::Operator(OperatorK::ArrowRight)))
                } else if !(i < j < self.tokens.len()) {
                    Err(Failure::UnexpectedEndOfFile)
                } else {
                    match self.expression_core(j + 1, 0) {
                        Err(failure) => Err(failure),
                        Ok((expression, k)) => Ok(
                            (
                                ExpressionTree {
                                    begin: backslash.begin,
                                    end: expression.end,
                                    kind: ExpressionTreeK::Lambda(patterns, Box::new(expression)),
                                },
                                k,
                            ),
                        ),
                    }
                },
            },
        }
    }

    /// The block expression that the keyword at `i` opens.
    pub open spec fn expression_block(self, i: int, kind: TokenK) -> Result<
        (ExpressionTree, int),
        Failure,
    >
        decreases self.tokens.len() - i, 2nat,
    {
        if kind == TokenK::Identifier(IdentifierK::If) {
            self.expression_if(i)
        } else if kind == TokenK::Identifier(IdentifierK::Do) {
            self.expression_do(i)
        } else if kind == TokenK::Identifier(IdentifierK::Case) {
            self.expression_case(i)
        } else {
            self.expression_let(i)
        }
    }

    /// An expression whose operators bind with at least `minimum_power`: a
    /// block expression, a lambda, or an atom with what follows it.
    pub open spec fn expression_core(self, i: int, minimum_power: u8) -> Result<
        (ExpressionTree, int),
        Failure,
    >
        decreases self.tokens.len() - i, 4nat,
    {
        match self.peek(i) {
            Err(failure) => Err(failure),
            Ok(token) => if token.is_block_argument() {
                self.expression_block(i, token.kind)
            } else if token.kind == TokenK::Operator(OperatorK::Backslash) {
                self.expression_lambda(i)
            } else {
                match self.expression_atom(i) {
                    Err(failure) => Err(failure),
                    Ok((atom, j)) => if i < j <= self.tokens.len() {
                        self.expression_loop(atom, j, minimum_power)
                    } else {
                        Err(Failure::UnexpectedEndOfFile)
                    },
                }
            },
        }
    }

    /// The expression that `accumulator` grows into from the token `i` on:
    /// by block arguments, by operators that bind with at least
    /// `minimum_power`, and by arguments, up to a boundary or a weaker
    /// operator.
    pub open spec fn expression_loop(
        self,
        accumulator: ExpressionTree,
        i: int,
        minimum_power: u8,
    ) -> Result<(ExpressionTree, int), Failure>
        decreases self.tokens.len() - i, 3nat,
    {
        match self.peek(i) {
            Err(failure) => Err(failure),
            Ok(token) => if token.is_expression_boundary() {
                Ok((accumulator, i))
            } else if token.is_block_argument() {
                match self.expression_block(i, token.kind) {
                    Err(failure) => Err(failure),
                    Ok((argument, j)) => if i < j <= self.tokens.len() {
                        self.expression_loop(apply_block(accumulator, argument), j, minimum_power)
                    } else {
                        Err(Failure::UnexpectedEndOfFile)
                    },
                }
            } else if token.kind == TokenK::Operator(OperatorK::Source) {
                match fixity_in(self.values, self.text(token)) {
                    Err(failure) => Err(failure),
                    Ok((left_power, right_power)) => if left_power < minimum_power {
                        Ok((accumulator, i))
                    } else {
                        match self.expression_core(i + 1, right_power) {
                            Err(failure) => Err(failure),
                            Ok((argument, j)) => if i < j <= self.tokens.len() {
                                self.expression_loop(
                                    binary_expression(accumulator, self.text(token), argument),
                                    j,
                                    minimum_power,
                                )
                            } else {
                                Err(Failure::UnexpectedEndOfFile)
                            },
                        }
                    },
                }
            } else {
                match self.expression_atom(i) {
                    Err(failure) => Err(failure),
                    Ok((argument, j)) => if i < j <= self.tokens.len() {
                        self.expression_loop(
                            apply_expression(accumulator, argument),
                            j,
                            minimum_power,
                        )
                    } else {
                        Err(Failure::UnexpectedEndOfFile)
                    },
                }
            },
        }
    }

    /// An expression.
    pub open spec fn expression(self, i: int) -> Result<(ExpressionTree, int), Failure> {
        self.expression_core(i, 0)
    }

    /// `name pattern ... = e ;`
    pub open spec fn declaration_value(self, i: int) -> Result<(DeclarationTree, int), Failure>
        decreases self.tokens.len() - i, 5nat,
    {
        match self.peek(i) {
            Err(failure) => Err(failure),
            Ok(name) => match self.lesser_patterns(
                i + 1,
                TokenK::Operator(OperatorK::Equal),
                seq![],
            ) {
                Err(failure) => Err(failure),
                Ok((patterns, j)) => if !(i < j < self.tokens.len()) {
                    Err(Failure::UnexpectedEndOfFile)
                } else {
                    match self.expression_core(j + 1, 0) {
                        Err(failure) => Err(failure),
                        Ok((expression, k)) => match self.expect(
                            k,
                            TokenK::Layout(LayoutK::Separator),
                        ) {
                            Err(failure) => Err(failure),
                            Ok(_) => Ok(
                                (
                                    DeclarationTree {
                                        begin: name.begin,
                                        end: expression.end,
                                        kind: DeclarationTreeK::ValueDeclaration(
                                            self.text(name),
                                            patterns,
                                            expression,
                                        ),
                                    },
                                    k + 1,
                                ),
                            ),
                        },
                    }
                },
            },
        }
    }

    /// `name : type ;`
    pub open spec fn type_signature(self, i: int) -> Result<(DeclarationTree, int), Failure> {
        match self.peek(i) {
            Err(failure) => Err(failure),
            Ok(name) => match self.expect(i + 1, TokenK::Operator(OperatorK::Colon)) {
                Err(failure) => Err(failure),
                Ok(_) => match self.ty(i + 2) {
                    Err(failure) => Err(failure),
                    Ok((ty, j)) => match self.expect(j, TokenK::Layout(LayoutK::Separator)) {
                        Err(failure) => Err(failure),
                        Ok(_) => Ok(
                            (
                                DeclarationTree {
                                    begin: name.begin,
                                    end: ty.end,
                                    kind: DeclarationTreeK::TypeDeclaration(self.text(name), ty),
                                },
                                j + 1,
                            ),
                        ),
                    },
                },
            },
        }
    }

    /// Whether the token after `i` is a colon.
    pub open spec fn colon_follows(self, i: int) -> bool {
        self.peek(i + 1) matches Ok(next) && next.kind == TokenK::Operator(OperatorK::Colon)
    }

    /// A declaration of a `let` block: of a lowercase name, its type or its
    /// value.
    pub open spec fn declaration_let(self, i: int) -> Result<(DeclarationTree, int), Failure>
        decreases self.tokens.len() - i, 6nat,
    {
        match self.peek(i) {
            Err(failure) => Err(failure),
            Ok(token) => if token.kind != TokenK::Identifier(IdentifierK::Lower) {
                Err(unexpected(token.kind))
            } else if self.colon_follows(i) {
                self.type_signature(i)
            } else {
                self.declaration_value(i)
            },
        }
    }

    /// The declarations of a `let` block, at least one, up to its end.
    pub open spec fn declaration_let_block(self, i: int) -> Result<
        (Seq<DeclarationTree>, int),
        Failure,
    >
        decreases self.tokens.len() - i, 8nat,
    {
        match self.declaration_let(i) {
            Err(failure) => Err(failure),
            Ok((first, j)) => if i < j <= self.tokens.len() {
                self.declaration_let_rest(j, seq![first])
            } else {
                Err(Failure::UnexpectedEndOfFile)
            },
        }
    }

    /// The declarations up to the end of the block, after those in
    /// `declarations`.
    pub open spec fn declaration_let_rest(self, i: int, declarations: Seq<DeclarationTree>)
        -> Result<(Seq<DeclarationTree>, int), Failure>
        decreases self.tokens.len() - i, 7nat,
    {
        match self.peek(i) {
            Err(failure) => Err(failure),
            Ok(token) => if token.kind == TokenK::Layout(LayoutK::End) {
                Ok((declarations, i))
            } else {
                match self.declaration_let(i) {
                    Err(failure) => Err(failure),
                    Ok((declaration, j)) => if i < j <= self.tokens.len() {
                        self.declaration_let_rest(j, declarations.push(declaration))
                    } else {
                        Err(Failure::UnexpectedEndOfFile)
                    },
                }
            },
        }
    }

    /// The lowercase names from `i` on, after those in `variables`.
    pub open spec fn variables(self, i: int, variables: Seq<LesserTree>) -> Result<
        (Seq<LesserTree>, int),
        Failure,
    >
        decreases self.tokens.len() - i,
    {
        match self.peek(i) {
            Err(failure) => Err(failure),
            Ok(token) => if token.kind == TokenK::Identifier(IdentifierK::Lower) {
                self.variables(
                    i + 1,
                    variables.push(
                        LesserTree {
                            begin: token.begin,
                            end: token.end,
                            kind: LesserTreeK::Variable(self.text(token)),
                        },
                    ),
                )
            } else {
                Ok((variables, i))
            },
        }
    }

    /// The index of the `End` that closes a block of which `open` levels
    /// are open at `i`.
    pub open spec fn block_end(self, i: int, open: nat) -> Option<int>
        decreases self.tokens.len() - i,
    {
        if i < 0 || i >= self.tokens.len() {
            None
        } else if self.tokens[i].kind == TokenK::Layout(LayoutK::Begin) {
            self.block_end(i + 1, open + 1)
        } else if self.tokens[i].kind == TokenK::Layout(LayoutK::End) {
            if open <= 1 {
                Some(i)
            } else {
                self.block_end(i + 1, (open - 1) as nat)
            }
        } else {
            self.block_end(i + 1, open)
        }
    }

    /// `Name variable ... (? | ! | |) { tokens } ;` where the block may be
    /// missing. The tokens of the block are kept as they are.
    pub open spec fn declaration_block(self, i: int) -> Result<(DeclarationTree, int), Failure> {
        match self.peek(i) {
            Err(failure) => Err(failure),
            Ok(name) => match self.variables(i + 1, seq![]) {
                Err(failure) => Err(failure),
                Ok((variables, j)) => match self.peek(j) {
                    Err(failure) => Err(failure),
                    Ok(mark) => if !is_marker(mark.kind) {
                        Err(unexpected(mark.kind))
                    } else {
                        match self.peek(j + 1) {
                            Err(failure) => Err(failure),
                            Ok(next) => if next.kind == TokenK::Layout(LayoutK::Separator) {
                                Ok(
                                    (
                                        DeclarationTree {
                                            begin: name.begin,
                                            end: mark.end,
                                            kind: DeclarationTreeK::BlockDeclaration(
                                                self.text(name),
                                                variables,
                                                mark.kind->Operator_0,
                                                seq![],
                                            ),
                                        },
                                        j + 2,
                                    ),
                                )
                            } else if next.kind != TokenK::Layout(LayoutK::Begin) {
                                Err(unexpected(next.kind))
                            } else {
                                match self.block_end(j + 2, 1) {
                                    None => Err(Failure::UnexpectedEndOfFile),
                                    Some(end) => match self.expect(
                                        end + 1,
                                        TokenK::Layout(LayoutK::Separator),
                                    ) {
                                        Err(failure) => Err(failure),
                                        Ok(_) => Ok(
                                            (
                                                DeclarationTree {
                                                    begin: name.begin,
                                                    end: self.tokens[end].end,
                                                    kind: DeclarationTreeK::BlockDeclaration(
                                                        self.text(name),
                                                        variables,
                                                        mark.kind->Operator_0,
                                                        self.tokens.subrange(j + 2, end),
                                                    ),
                                                },
                                                end + 2,
                                            ),
                                        ),
                                    },
                                }
                            },
                        }
                    },
                },
            },
        }
    }

    /// A declaration at the top level. A lowercase name declares its type
    /// or its value; a constructor declares its type or opens a block.
    pub open spec fn declaration(self, i: int) -> Result<(DeclarationTree, int), Failure> {
        match self.peek(i) {
            Err(failure) => Err(failure),
            Ok(token) => if token.kind == TokenK::Identifier(IdentifierK::Lower) {
                if self.colon_follows(i) {
                    self.type_signature(i)
                } else {
                    self.declaration_value(i)
                }
            } else if token.kind == TokenK::Identifier(IdentifierK::Upper) {
                if self.colon_follows(i) {
                    self.type_signature(i)
                } else {
                    self.declaration_block(i)
                }
            } else {
                Err(unexpected(token.kind))
            },
        }
    }
}

} // verus!
