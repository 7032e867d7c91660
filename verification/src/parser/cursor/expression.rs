//! Expressions.

use crate::parser::cursor::Cursor;
use crate::parser::errors::ParseError;
use crate::parser::grammar::{apply_block, apply_expression, failed, parsed};
use crate::parser::types::{
    arm_trees, declaration_trees, expression_trees, statement_trees, CaseArm, Declaration,
    DoStatement, DoStatementK, DoStatementTree, DoStatementTreeK, Expression, ExpressionK,
    ExpressionTree, ExpressionTreeK,
};
use crate::token::{DelimiterK, DigitK, IdentifierK, LayoutK, OperatorK, TokenK};
use vstd::prelude::*;

verus! {

/// The expression `function` applied to one more `argument`.
pub fn apply(function: Expression, argument: Expression) -> (applied: Expression)
    ensures
        applied@ == apply_expression(function@, argument@),
{
    let Expression { begin, end, kind } = function;
    let argument_end = argument.end;
    match kind {
        ExpressionK::Application(head, mut arguments) => {
            arguments.push(argument);
            let applied = Expression {
                begin,
                end: argument_end,
                kind: ExpressionK::Application(head, arguments),
            };
            proof {
                assert(applied@.kind->Application_1 =~= function@.kind->Application_1.push(
                    argument@,
                ));
            }
            applied
        },
        other => {
            let mut arguments = Vec::new();
            arguments.push(argument);
            let applied = Expression {
                begin,
                end: argument_end,
                kind: ExpressionK::Application(
                    Box::new(Expression { begin, end, kind: other }),
                    arguments,
                ),
            };
            proof {
                assert(applied@.kind->Application_1 =~= seq![argument@]);
            }
            applied
        },
    }
}

/// The expression `function` applied to a block.
pub fn apply_to_block(function: Expression, argument: Expression) -> (applied: Expression)
    ensures
        applied@ == apply_block(function@, argument@),
{
    let begin = function.begin;
    let end = argument.end;
    let mut arguments = Vec::new();
    arguments.push(argument);
    let applied = Expression {
        begin,
        end,
        kind: ExpressionK::Application(Box::new(function), arguments),
    };
    proof {
        assert(applied@.kind->Application_1 =~= seq![argument@]);
    }
    applied
}

/// A `do` block of `statements`.
pub fn do_block(begin: usize, end: usize, statements: Vec<DoStatement>) -> (block: Expression)
    ensures
        block@ == (ExpressionTree {
            begin,
            end,
            kind: ExpressionTreeK::DoBlock(statement_trees(statements@)),
        }),
{
    let block = Expression { begin, end, kind: ExpressionK::DoBlock(statements) };
    proof {
        assert(block@.kind->DoBlock_0 =~= statement_trees(statements@));
    }
    block
}

/// A `case` of `expressions` with its `arms`.
pub fn case_of(begin: usize, end: usize, expressions: Vec<Expression>, arms: Vec<CaseArm>) -> (case:
    Expression)
    ensures
        case@ == (ExpressionTree {
            begin,
            end,
            kind: ExpressionTreeK::CaseOf(expression_trees(expressions@), arm_trees(arms@)),
        }),
{
    let case = Expression { begin, end, kind: ExpressionK::CaseOf(expressions, arms) };
    proof {
        assert(case@.kind->CaseOf_0 =~= expression_trees(expressions@));
        assert(case@.kind->CaseOf_1 =~= arm_trees(arms@));
    }
    case
}

/// A `let` of `declarations` around `expression`.
pub fn let_in(begin: usize, end: usize, declarations: Vec<Declaration>, expression: Expression)
    -> (block: Expression)
    ensures
        block@ == (ExpressionTree {
            begin,
            end,
            kind: ExpressionTreeK::Let(declaration_trees(declarations@), Box::new(expression@)),
        }),
{
    let block = Expression {
        begin,
        end,
        kind: ExpressionK::Let(declarations, Box::new(expression)),
    };
    proof {
        assert(block@.kind->Let_0 =~= declaration_trees(declarations@));
    }
    block
}

/// A `let` statement of `declarations`.
pub fn let_statement(begin: usize, end: usize, declarations: Vec<Declaration>) -> (statement:
    DoStatement)
    ensures
        statement@ == (DoStatementTree {
            begin,
            end,
            kind: DoStatementTreeK::LetStatement(declaration_trees(declarations@)),
        }),
{
    let statement = DoStatement { begin, end, kind: DoStatementK::LetStatement(declarations) };
    proof {
        assert(statement@.kind->LetStatement_0 =~= declaration_trees(declarations@));
    }
    statement
}

impl<'a> Cursor<'a> {
    pub(crate) fn expression_atom(&mut self) -> (result: Result<Expression, ParseError>)
        requires
            old(self).wf(),
        ensures
            final(self).wf(),
            final(self).grammar() == old(self).grammar(),
            match result {
                Ok(expression) => parsed(
                    old(self).grammar().expression_atom(old(self).position()),
                    expression@,
                    final(self).position(),
                ) && old(self).position() < final(self).position(),
                Err(error) => failed(
                    old(self).grammar().expression_atom(old(self).position()),
                    error@,
                ),
            },
        decreases old(self).remaining(), 0nat,
    {
        let token = self.take()?;
        let (begin, end) = (token.begin, token.end);
        match token.kind {
            TokenK::Digit(DigitK::Int) => Ok(
                Expression { begin, end, kind: ExpressionK::Integer(self.text(token)) },
            ),
            TokenK::Digit(DigitK::Float) => Ok(
                Expression { begin, end, kind: ExpressionK::Float(self.text(token)) },
            ),
            TokenK::Identifier(IdentifierK::Lower) => Ok(
                Expression { begin, end, kind: ExpressionK::Variable(self.text(token)) },
            ),
            TokenK::Identifier(IdentifierK::Upper) => Ok(
                Expression { begin, end, kind: ExpressionK::Constructor(self.text(token)) },
            ),
            TokenK::OpenDelimiter(DelimiterK::Round) => {
                let expression = self.expression_core(0)?;
                let close = self.expect(TokenK::CloseDelimiter(DelimiterK::Round))?;
                Ok(
                    Expression {
                        begin,
                        end: close.end,
                        kind: ExpressionK::Parenthesized(Box::new(expression)),
                    },
                )
            },
            kind => Err(ParseError::unexpected_token(kind)),
        }
    }

    pub(crate) fn expression_if(&mut self) -> (result: Result<Expression, ParseError>)
        requires
            old(self).wf(),
        ensures
            final(self).wf(),
            final(self).grammar() == old(self).grammar(),
            match result {
                Ok(expression) => parsed(
                    old(self).grammar().expression_if(old(self).position()),
                    expression@,
                    final(self).position(),
                ) && old(self).position() < final(self).position(),
                Err(error) => failed(
                    old(self).grammar().expression_if(old(self).position()),
                    error@,
                ),
            },
        decreases old(self).remaining(), 1nat,
    {
        let keyword = self.expect(TokenK::Identifier(IdentifierK::If))?;
        let condition = self.expression_core(0)?;
        let _ = self.expect(TokenK::Identifier(IdentifierK::Then))?;
        let then_value = self.expression_core(0)?;
        let _ = self.expect(TokenK::Identifier(IdentifierK::Else))?;
        let else_value = self.expression_core(0)?;
        Ok(
            Expression {
                begin: keyword.begin,
                end: else_value.end,
                kind: ExpressionK::IfThenElse(
                    Box::new(condition),
                    Box::new(then_value),
                    Box::new(else_value),
                ),
            },
        )
    }

    pub(crate) fn expression_do(&mut self) -> (result: Result<Expression, ParseError>)
        requires
            old(self).wf(),
        ensures
            final(self).wf(),
            final(self).grammar() == old(self).grammar(),
            match result {
                Ok(expression) => parsed(
                    old(self).grammar().expression_do(old(self).position()),
                    expression@,
                    final(self).position(),
                ) && old(self).position() < final(self).position(),
                Err(error) => failed(
                    old(self).grammar().expression_do(old(self).position()),
                    error@,
                ),
            },
        decreases old(self).remaining(), 1nat,
    {
        let keyword = self.expect(TokenK::Identifier(IdentifierK::Do))?;
        let next = self.peek()?;
        if let TokenK::Layout(LayoutK::Separator) = next.kind {
            let block = do_block(keyword.begin, keyword.end, Vec::new());
            proof {
                assert(statement_trees(Seq::<DoStatement>::empty()) =~= seq![]);
            }
            return Ok(block);
        }
        let _ = self.expect(TokenK::Layout(LayoutK::Begin))?;
        let statements = self.expression_do_statements()?;
        if statements.len() == 0 {
            return Err(
                ParseError::InternalError("Cannot determine last do statement".to_owned()),
            );
        }
        let do_end = statements[statements.len() - 1].end;
        let _ = self.expect(TokenK::Layout(LayoutK::End))?;
        Ok(do_block(keyword.begin, do_end, statements))
    }

    pub(crate) fn expression_do_statements(&mut self) -> (result: Result<
        Vec<DoStatement>,
        ParseError,
    >)
        requires
            old(self).wf(),
        ensures
            final(self).wf(),
            final(self).grammar() == old(self).grammar(),
            match result {
                Ok(statements) => parsed(
                    old(self).grammar().do_statements(old(self).position(), seq![]),
                    statement_trees(statements@),
                    final(self).position(),
                ) && old(self).position() <= final(self).position(),
                Err(error) => failed(
                    old(self).grammar().do_statements(old(self).position(), seq![]),
                    error@,
                ),
            },
        decreases old(self).remaining(), 7nat,
    {
        let mut statements: Vec<DoStatement> = Vec::new();
        proof {
            assert(statement_trees(statements@) =~= seq![]);
        }
        loop
            invariant
                self.wf(),
                self.grammar() == old(self).grammar(),
                old(self).position() <= self.position(),
                old(self).grammar().do_statements(old(self).position(), seq![])
                    == self.grammar().do_statements(self.position(), statement_trees(statements@)),
            decreases self.remaining(),
        {
            let token = self.peek()?;
            if let TokenK::Layout(LayoutK::End) = token.kind {
                return Ok(statements);
            }
            let ghost before = statement_trees(statements@);
            let statement = self.expression_do_statement()?;
            proof {
                self.lemma_position();
            }
            statements.push(statement);
            proof {
                assert(statement_trees(statements@) =~= before.push(statement@));
            }
        }
    }

    pub(crate) fn expression_do_statement(&mut self) -> (result: Result<DoStatement, ParseError>)
        requires
            old(self).wf(),
        ensures
            final(self).wf(),
            final(self).grammar() == old(self).grammar(),
            match result {
                Ok(statement) => parsed(
                    old(self).grammar().do_statement(old(self).position()),
                    statement@,
                    final(self).position(),
                ) && old(self).position() < final(self).position(),
                Err(error) => failed(
                    old(self).grammar().do_statement(old(self).position()),
                    error@,
                ),
            },
        decreases old(self).remaining(), 6nat,
    {
        let token = self.peek()?;
        if let TokenK::Identifier(IdentifierK::Let) = token.kind {
            let _ = self.take()?;
            let _ = self.expect(TokenK::Layout(LayoutK::Begin))?;
            let declarations = self.declaration_let_block()?;
            if declarations.len() == 0 {
                return Err(
                    ParseError::InternalError("Cannot determine last declaration".to_owned()),
                );
            }
            let let_end = declarations[declarations.len() - 1].end;
            let _ = self.expect(TokenK::Layout(LayoutK::End))?;
            let _ = self.expect(TokenK::Layout(LayoutK::Separator))?;
            return Ok(let_statement(token.begin, let_end, declarations));
        }
        let mark = self.mark();
        proof {
            self.lemma_position();
        }
        match self.expression_do_statement_discard() {
            Ok(statement) => {
                return Ok(statement);
            },
            Err(_) => {
                self.reset(mark);
            },
        }
        match self.expression_do_statement_bind() {
            Ok(statement) => {
                return Ok(statement);
            },
            Err(_) => {
                self.reset(mark);
            },
        }
        Err(ParseError::unexpected_token(token.kind))
    }

    pub(crate) fn expression_do_statement_bind(&mut self) -> (result: Result<
        DoStatement,
        ParseError,
    >)
        requires
            old(self).wf(),
        ensures
            final(self).wf(),
            final(self).grammar() == old(self).grammar(),
            match result {
                Ok(statement) => parsed(
                    old(self).grammar().do_statement_bind(old(self).position()),
                    statement@,
                    final(self).position(),
                ) && old(self).position() < final(self).position(),
                Err(error) => failed(
                    old(self).grammar().do_statement_bind(old(self).position()),
                    error@,
                ),
            },
        decreases old(self).remaining(), 5nat,
    {
        let lesser_pattern = self.lesser_pattern()?;
        let _ = self.expect(TokenK::Operator(OperatorK::ArrowLeft))?;
        let expression = self.expression_core(0)?;
        let _ = self.expect(TokenK::Layout(LayoutK::Separator))?;
        Ok(
            DoStatement {
                begin: lesser_pattern.begin,
                end: expression.end,
                kind: DoStatementK::BindExpression(lesser_pattern, expression),
            },
        )
    }

    pub(crate) fn expression_do_statement_discard(&mut self) -> (result: Result<
        DoStatement,
        ParseError,
    >)
        requires
            old(self).wf(),
        ensures
            final(self).wf(),
            final(self).grammar() == old(self).grammar(),
            match result {
                Ok(statement) => parsed(
                    old(self).grammar().do_statement_discard(old(self).position()),
                    statement@,
                    final(self).position(),
                ) && old(self).position() < final(self).position(),
                Err(error) => failed(
                    old(self).grammar().do_statement_discard(old(self).position()),
                    error@,
                ),
            },
        decreases old(self).remaining(), 5nat,
    {
        let expression = self.expression_core(0)?;
        let _ = self.expect(TokenK::Layout(LayoutK::Separator))?;
        Ok(
            DoStatement {
                begin: expression.begin,
                end: expression.end,
                kind: DoStatementK::DiscardExpression(expression),
            },
        )
    }

    pub(crate) fn expression_case(&mut self) -> (result: Result<Expression, ParseError>)
        requires
            old(self).wf(),
        ensures
            final(self).wf(),
            final(self).grammar() == old(self).grammar(),
            match result {
                Ok(expression) => parsed(
                    old(self).grammar().expression_case(old(self).position()),
                    expression@,
                    final(self).position(),
                ) && old(self).position() < final(self).position(),
                Err(error) => failed(
                    old(self).grammar().expression_case(old(self).position()),
                    error@,
                ),
            },
        decreases old(self).remaining(), 1nat,
    {
        let keyword = self.expect(TokenK::Identifier(IdentifierK::Case))?;
        let expressions = self.expression_case_expressions()?;
        let _ = self.expect(TokenK::Layout(LayoutK::Begin))?;
        let arms = self.expression_case_arms()?;
        let _ = self.expect(TokenK::Layout(LayoutK::End))?;
        if arms.len() == 0 {
            return Err(ParseError::InternalError("Cannot determine last match arm".to_owned()));
        }
        let case_end = arms[arms.len() - 1].expression.end;
        Ok(case_of(keyword.begin, case_end, expressions, arms))
    }

    pub(crate) fn expression_case_expressions(&mut self) -> (result: Result<
        Vec<Expression>,
        ParseError,
    >)
        requires
            old(self).wf(),
        ensures
            final(self).wf(),
            final(self).grammar() == old(self).grammar(),
            match result {
                Ok(expressions) => parsed(
                    old(self).grammar().case_expressions(old(self).position()),
                    expression_trees(expressions@),
                    final(self).position(),
                ) && old(self).position() < final(self).position(),
                Err(error) => failed(
                    old(self).grammar().case_expressions(old(self).position()),
                    error@,
                ),
            },
        decreases old(self).remaining(), 6nat,
    {
        let first = self.expression_core(0)?;
        proof {
            self.lemma_position();
        }
        let mut expressions: Vec<Expression> = Vec::new();
        expressions.push(first);
        proof {
            assert(expression_trees(expressions@) =~= seq![first@]);
        }
        loop
            invariant
                self.wf(),
                self.grammar() == old(self).grammar(),
                old(self).position() < self.position(),
                old(self).grammar().case_expressions(old(self).position())
                    == self.grammar().case_expressions_rest(
                    self.position(),
                    expression_trees(expressions@),
                ),
            decreases self.remaining(),
        {
            let token = self.peek()?;
            if let TokenK::Operator(OperatorK::Comma) = token.kind {
                let _ = self.take()?;
                continue ;
            }
            if let TokenK::Identifier(IdentifierK::Of) = token.kind {
                let _ = self.take()?;
                return Ok(expressions);
            }
            let ghost before = expression_trees(expressions@);
            let expression = self.expression_core(0)?;
            proof {
                self.lemma_position();
            }
            expressions.push(expression);
            proof {
                assert(expression_trees(expressions@) =~= before.push(expression@));
            }
        }
    }

    pub(crate) fn expression_case_arm(&mut self) -> (result: Result<CaseArm, ParseError>)
        requires
            old(self).wf(),
        ensures
            final(self).wf(),
            final(self).grammar() == old(self).grammar(),
            match result {
                Ok(arm) => parsed(
                    old(self).grammar().case_arm(old(self).position()),
                    arm@,
                    final(self).position(),
                ) && old(self).position() < final(self).position(),
                Err(error) => failed(old(self).grammar().case_arm(old(self).position()), error@),
            },
        decreases old(self).remaining(), 5nat,
    {
        let patterns = self.greater_patterns()?;
        let token = self.peek()?;
        let condition = if let TokenK::Identifier(IdentifierK::If) = token.kind {
            let _ = self.take()?;
            Some(self.expression_core(0)?)
        } else {
            None
        };
        let _ = self.expect(TokenK::Operator(OperatorK::ArrowRight))?;
        let expression = self.expression_core(0)?;
        let _ = self.expect(TokenK::Layout(LayoutK::Separator))?;
        Ok(CaseArm { patterns, condition, expression })
    }

    pub(crate) fn expression_case_arms(&mut self) -> (result: Result<Vec<CaseArm>, ParseError>)
        requires
            old(self).wf(),
        ensures
            final(self).wf(),
            final(self).grammar() == old(self).grammar(),
            match result {
                Ok(arms) => parsed(
                    old(self).grammar().case_arms(old(self).position()),
                    arm_trees(arms@),
                    final(self).position(),
                ) && old(self).position() < final(self).position(),
                Err(error) => failed(old(self).grammar().case_arms(old(self).position()), error@),
            },
        decreases old(self).remaining(), 7nat,
    {
        let first = self.expression_case_arm()?;
        proof {
            self.lemma_position();
        }
        let mut arms: Vec<CaseArm> = Vec::new();
        arms.push(first);
        proof {
            assert(arm_trees(arms@) =~= seq![first@]);
        }
        loop
            invariant
                self.wf(),
                self.grammar() == old(self).grammar(),
                old(self).position() < self.position(),
                old(self).grammar().case_arms(old(self).position())
                    == self.grammar().case_arms_rest(self.position(), arm_trees(arms@)),
            decreases self.remaining(),
        {
            let token = self.peek()?;
            if let TokenK::Layout(LayoutK::End) = token.kind {
                return Ok(arms);
            }
            let ghost before = arm_trees(arms@);
            let arm = self.expression_case_arm()?;
            proof {
                self.lemma_position();
            }
            arms.push(arm);
            proof {
                assert(arm_trees(arms@) =~= before.push(arm@));
            }
        }
    }

    pub(crate) fn expression_let(&mut self) -> (result: Result<Expression, ParseError>)
        requires
            old(self).wf(),
        ensures
            final(self).wf(),
            final(self).grammar() == old(self).grammar(),
            match result {
                Ok(expression) => parsed(
                    old(self).grammar().expression_let(old(self).position()),
                    expression@,
                    final(self).position(),
                ) && old(self).position() < final(self).position(),
                Err(error) => failed(
                    old(self).grammar().expression_let(old(self).position()),
                    error@,
                ),
            },
        decreases old(self).remaining(), 1nat,
    {
        let keyword = self.expect(TokenK::Identifier(IdentifierK::Let))?;
        let _ = self.expect(TokenK::Layout(LayoutK::Begin))?;
        let declarations = self.declaration_let_block()?;
        if declarations.len() == 0 {
            return Err(ParseError::InternalError("Cannot determine last declaration".to_owned()));
        }
        let let_end = declarations[declarations.len() - 1].end;
        let _ = self.expect(TokenK::Layout(LayoutK::End))?;
        let _ = self.expect(TokenK::Identifier(IdentifierK::In))?;
        let expression = self.expression_core(0)?;
        Ok(let_in(keyword.begin, let_end, declarations, expression))
    }

    pub(crate) fn expression_lambda(&mut self) -> (result: Result<Expression, ParseError>)
        requires
            old(self).wf(),
        ensures
            final(self).wf(),
            final(self).grammar() == old(self).grammar(),
            match result {
                Ok(expression) => parsed(
                    old(self).grammar().expression_lambda(old(self).position()),
                    expression@,
                    final(self).position(),
                ) && old(self).position() < final(self).position(),
                Err(error) => failed(
                    old(self).grammar().expression_lambda(old(self).position()),
                    error@,
                ),
            },
        decreases old(self).remaining(), 1nat,
    {
        let backslash = self.expect(TokenK::Operator(OperatorK::Backslash))?;
        let patterns = self.lesser_patterns_until(TokenK::Operator(OperatorK::ArrowRight))?;
        if patterns.len() == 0 {
            return Err(ParseError::unexpected_token(TokenK::Operator(OperatorK::ArrowRight)));
        }
        let _ = self.take()?;
        proof {
            self.lemma_position();
        }
        let expression = self.expression_core(0)?;
        Ok(
            Expression {
                begin: backslash.begin,
                end: expression.end,
                kind: ExpressionK::Lambda(patterns, Box::new(expression)),
            },
        )
    }

    pub(crate) fn expression_block(&mut self, kind: TokenK) -> (result: Result<
        Expression,
        ParseError,
    >)
        requires
            old(self).wf(),
        ensures
            final(self).wf(),
            final(self).grammar() == old(self).grammar(),
            match result {
                Ok(expression) => parsed(
                    old(self).grammar().expression_block(old(self).position(), kind),
                    expression@,
                    final(self).position(),
                ) && old(self).position() < final(self).position(),
                Err(error) => failed(
                    old(self).grammar().expression_block(old(self).position(), kind),
                    error@,
                ),
            },
        decreases old(self).remaining(), 2nat,
    {
        match kind {
            TokenK::Identifier(IdentifierK::If) => self.expression_if(),
            TokenK::Identifier(IdentifierK::Do) => self.expression_do(),
            TokenK::Identifier(IdentifierK::Case) => self.expression_case(),
            _ => self.expression_let(),
        }
    }

    pub(crate) fn expression_core(&mut self, minimum_power: u8) -> (result: Result<
        Expression,
        ParseError,
    >)
        requires
            old(self).wf(),
        ensures
            final(self).wf(),
            final(self).grammar() == old(self).grammar(),
            match result {
                Ok(expression) => parsed(
                    old(self).grammar().expression_core(old(self).position(), minimum_power),
                    expression@,
                    final(self).position(),
                ) && old(self).position() < final(self).position(),
                Err(error) => failed(
                    old(self).grammar().expression_core(old(self).position(), minimum_power),
                    error@,
                ),
            },
        decreases old(self).remaining(), 4nat,
    {
        let first = self.peek()?;
        if first.is_block_argument() {
            return self.expression_block(first.kind);
        }
        if let TokenK::Operator(OperatorK::Backslash) = first.kind {
            return self.expression_lambda();
        }
        let mut accumulator = self.expression_atom()?;
        proof {
            self.lemma_position();
        }
        loop
            invariant_except_break
                old(self).grammar().expression_core(old(self).position(), minimum_power)
                    == self.grammar().expression_loop(
                    accumulator@,
                    self.position(),
                    minimum_power,
                ),
            invariant
                self.wf(),
                self.grammar() == old(self).grammar(),
                old(self).position() < self.position(),
            ensures
                parsed(
                    old(self).grammar().expression_core(old(self).position(), minimum_power),
                    accumulator@,
                    self.position(),
                ),
            decreases self.remaining(),
        {
            let token = self.peek()?;
            if token.is_expression_boundary() {
                break ;
            }
            if token.is_block_argument() {
                let argument = self.expression_block(token.kind)?;
                proof {
                    self.lemma_position();
                }
                accumulator = apply_to_block(accumulator, argument);
                continue ;
            }
            if let TokenK::Operator(OperatorK::Source) = token.kind {
                let operator = self.text(token);
                let (left_power, right_power) = self.get_fixity(&operator)?;
                if left_power < minimum_power {
                    break ;
                }
                let _ = self.take()?;
                let argument = self.expression_core(right_power)?;
                proof {
                    self.lemma_position();
                }
                accumulator = Expression {
                    begin: accumulator.begin,
                    end: argument.end,
                    kind: ExpressionK::BinaryOperator(
                        Box::new(accumulator),
                        operator,
                        Box::new(argument),
                    ),
                };
                continue ;
            }
            let argument = self.expression_atom()?;
            proof {
                self.lemma_position();
            }
            accumulator = apply(accumulator, argument);
        }
        Ok(accumulator)
    }

    /// Parses an expression.
    pub fn expression(&mut self) -> (result: Result<Expression, ParseError>)
        requires
            old(self).wf(),
        ensures
            final(self).wf(),
            final(self).grammar() == old(self).grammar(),
            match result {
                Ok(expression) => parsed(
                    old(self).grammar().expression(old(self).position()),
                    expression@,
                    final(self).position(),
                ) && old(self).position() < final(self).position(),
                Err(error) => failed(old(self).grammar().expression(old(self).position()), error@),
            },
    {
        self.expression_core(0)
    }
}

} // verus!
