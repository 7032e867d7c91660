//! Patterns: the lesser ones that bind arguments, and the greater ones of
//! case arms.

use crate::parser::cursor::Cursor;
use crate::parser::errors::ParseError;
use crate::parser::grammar::{apply_pattern, binary_pattern, failed, parsed};
use crate::parser::types::{
    greater_trees, lesser_trees, GreaterPattern, GreaterPatternK, LesserPattern, LesserPatternK,
};
use crate::token::{DelimiterK, DigitK, IdentifierK, OperatorK, TokenK};
use vstd::prelude::*;

verus! {

/// The pattern `function` applied to one more `argument`.
pub fn apply(function: GreaterPattern, argument: GreaterPattern) -> (applied: GreaterPattern)
    ensures
        applied@ == apply_pattern(function@, argument@),
{
    let GreaterPattern { begin, end, kind } = function;
    let argument_end = argument.end;
    match kind {
        GreaterPatternK::Application(head, mut arguments) => {
            let ghost before = arguments@;
            arguments.push(argument);
            let applied = GreaterPattern {
                begin,
                end: argument_end,
                kind: GreaterPatternK::Application(head, arguments),
            };
            proof {
                assert(applied@.kind->Application_1 =~= function@.kind->Application_1.push(
                    argument@,
                ));
            }
            applied
        },
        other => {
            let mut arguments = Vec::new();
            arguments.push(argument);
            let applied = GreaterPattern {
                begin,
                end: argument_end,
                kind: GreaterPatternK::Application(
                    Box::new(GreaterPattern { begin, end, kind: other }),
                    arguments,
                ),
            };
            proof {
                assert(applied@.kind->Application_1 =~= seq![argument@]);
            }
            applied
        },
    }
}

impl<'a> Cursor<'a> {
    /// Parses `_` or a lowercase name.
    pub fn lesser_pattern(&mut self) -> (result: Result<LesserPattern, ParseError>)
        requires
            old(self).wf(),
        ensures
            final(self).wf(),
            final(self).grammar() == old(self).grammar(),
            match result {
                Ok(pattern) => parsed(
                    old(self).grammar().lesser_pattern(old(self).position()),
                    pattern@,
                    final(self).position(),
                ) && final(self).position() == old(self).position() + 1,
                Err(error) => failed(
                    old(self).grammar().lesser_pattern(old(self).position()),
                    error@,
                ) && final(self).position() == old(self).position(),
            },
    {
        let token = self.peek()?;
        match token.kind {
            TokenK::Operator(OperatorK::Underscore) => {
                let _ = self.take()?;
                Ok(LesserPattern { begin: token.begin, end: token.end, kind: LesserPatternK::Null })
            },
            TokenK::Identifier(IdentifierK::Lower) => {
                let _ = self.take()?;
                Ok(
                    LesserPattern {
                        begin: token.begin,
                        end: token.end,
                        kind: LesserPatternK::Variable(self.text(token)),
                    },
                )
            },
            kind => Err(ParseError::unexpected_token(kind)),
        }
    }

    /// Parses lesser patterns up to a token of kind `stop`, which stays.
    pub fn lesser_patterns_until(&mut self, stop: TokenK) -> (result: Result<
        Vec<LesserPattern>,
        ParseError,
    >)
        requires
            old(self).wf(),
        ensures
            final(self).wf(),
            final(self).grammar() == old(self).grammar(),
            match result {
                Ok(patterns) => parsed(
                    old(self).grammar().lesser_patterns(old(self).position(), stop, seq![]),
                    lesser_trees(patterns@),
                    final(self).position(),
                ) && old(self).position() <= final(self).position(),
                Err(error) => failed(
                    old(self).grammar().lesser_patterns(old(self).position(), stop, seq![]),
                    error@,
                ),
            },
    {
        let mut lesser_patterns: Vec<LesserPattern> = Vec::new();
        proof {
            assert(lesser_trees(lesser_patterns@) =~= seq![]);
        }
        loop
            invariant
                self.wf(),
                self.grammar() == old(self).grammar(),
                old(self).position() <= self.position(),
                old(self).grammar().lesser_patterns(old(self).position(), stop, seq![])
                    == self.grammar().lesser_patterns(
                    self.position(),
                    stop,
                    lesser_trees(lesser_patterns@),
                ),
            decreases self.remaining(),
        {
            let token = self.peek()?;
            if token.kind == stop {
                return Ok(lesser_patterns);
            }
            let ghost before = lesser_trees(lesser_patterns@);
            let lesser_pattern = self.lesser_pattern()?;
            lesser_patterns.push(lesser_pattern);
            proof {
                assert(lesser_trees(lesser_patterns@) =~= before.push(lesser_pattern@));
            }
        }
    }

    /// Parses the lesser patterns before `=`.
    pub fn lesser_patterns(&mut self) -> (result: Result<Vec<LesserPattern>, ParseError>)
        requires
            old(self).wf(),
        ensures
            final(self).wf(),
            final(self).grammar() == old(self).grammar(),
            match result {
                Ok(patterns) => parsed(
                    old(self).grammar().lesser_patterns(
                        old(self).position(),
                        TokenK::Operator(OperatorK::Equal),
                        seq![],
                    ),
                    lesser_trees(patterns@),
                    final(self).position(),
                ) && old(self).position() <= final(self).position(),
                Err(error) => failed(
                    old(self).grammar().lesser_patterns(
                        old(self).position(),
                        TokenK::Operator(OperatorK::Equal),
                        seq![],
                    ),
                    error@,
                ),
            },
    {
        self.lesser_patterns_until(TokenK::Operator(OperatorK::Equal))
    }

    fn greater_pattern_atom(&mut self) -> (result: Result<GreaterPattern, ParseError>)
        requires
            old(self).wf(),
        ensures
            final(self).wf(),
            final(self).grammar() == old(self).grammar(),
            match result {
                Ok(pattern) => parsed(
                    old(self).grammar().greater_pattern_atom(old(self).position()),
                    pattern@,
                    final(self).position(),
                ) && old(self).position() < final(self).position(),
                Err(error) => failed(
                    old(self).grammar().greater_pattern_atom(old(self).position()),
                    error@,
                ),
            },
        decreases old(self).remaining(), 0nat,
    {
        let token = self.take()?;
        let (begin, end) = (token.begin, token.end);
        match token.kind {
            TokenK::Digit(DigitK::Int) => Ok(
                GreaterPattern { begin, end, kind: GreaterPatternK::Integer(self.text(token)) },
            ),
            TokenK::Identifier(IdentifierK::Lower) => Ok(
                GreaterPattern { begin, end, kind: GreaterPatternK::Variable(self.text(token)) },
            ),
            TokenK::Identifier(IdentifierK::Upper) => Ok(
                GreaterPattern { begin, end, kind: GreaterPatternK::Constructor(self.text(token)) },
            ),
            TokenK::Operator(OperatorK::Underscore) => Ok(
                GreaterPattern { begin, end, kind: GreaterPatternK::Null },
            ),
            TokenK::OpenDelimiter(DelimiterK::Round) => {
                let greater_pattern = self.greater_pattern_core(0)?;
                let close = self.expect(TokenK::CloseDelimiter(DelimiterK::Round))?;
                Ok(
                    GreaterPattern {
                        begin,
                        end: close.end,
                        kind: GreaterPatternK::Parenthesized(Box::new(greater_pattern)),
                    },
                )
            },
            kind => Err(ParseError::unexpected_token(kind)),
        }
    }

    fn greater_pattern_core(&mut self, minimum_power: u8) -> (result: Result<
        GreaterPattern,
        ParseError,
    >)
        requires
            old(self).wf(),
        ensures
            final(self).wf(),
            final(self).grammar() == old(self).grammar(),
            match result {
                Ok(pattern) => parsed(
                    old(self).grammar().greater_pattern_core(old(self).position(), minimum_power),
                    pattern@,
                    final(self).position(),
                ) && old(self).position() < final(self).position(),
                Err(error) => failed(
                    old(self).grammar().greater_pattern_core(old(self).position(), minimum_power),
                    error@,
                ),
            },
        decreases old(self).remaining(), 2nat,
    {
        let mut accumulator = self.greater_pattern_atom()?;
        proof {
            self.lemma_position();
        }
        loop
            invariant_except_break
                old(self).grammar().greater_pattern_core(old(self).position(), minimum_power)
                    == self.grammar().greater_pattern_loop(
                    accumulator@,
                    self.position(),
                    minimum_power,
                ),
            invariant
                self.wf(),
                self.grammar() == old(self).grammar(),
                old(self).position() < self.position(),
            ensures
                parsed(
                    old(self).grammar().greater_pattern_core(old(self).position(), minimum_power),
                    accumulator@,
                    self.position(),
                ),
            decreases self.remaining(),
        {
            let token = self.peek()?;
            if token.is_greater_pattern_boundary() {
                break ;
            }
            if let TokenK::Operator(OperatorK::Source) = token.kind {
                let operator = self.text(token);
                let (left_power, right_power) = self.get_fixity(&operator)?;
                if left_power < minimum_power {
                    break ;
                }
                let _ = self.take()?;
                let argument = self.greater_pattern_core(right_power)?;
                proof {
                    self.lemma_position();
                }
                accumulator = GreaterPattern {
                    begin: accumulator.begin,
                    end: argument.end,
                    kind: GreaterPatternK::BinaryOperator(
                        Box::new(accumulator),
                        operator,
                        Box::new(argument),
                    ),
                };
                continue ;
            }
            let argument = self.greater_pattern_atom()?;
            proof {
                self.lemma_position();
            }
            accumulator = apply(accumulator, argument);
        }
        Ok(accumulator)
    }

    /// Parses the patterns of a case arm, up to its `if` or `->`.
    pub fn greater_patterns(&mut self) -> (result: Result<Vec<GreaterPattern>, ParseError>)
        requires
            old(self).wf(),
        ensures
            final(self).wf(),
            final(self).grammar() == old(self).grammar(),
            match result {
                Ok(patterns) => parsed(
                    old(self).grammar().greater_patterns(old(self).position(), seq![]),
                    greater_trees(patterns@),
                    final(self).position(),
                ) && old(self).position() <= final(self).position(),
                Err(error) => failed(
                    old(self).grammar().greater_patterns(old(self).position(), seq![]),
                    error@,
                ),
            },
    {
        let mut greater_patterns: Vec<GreaterPattern> = Vec::new();
        proof {
            assert(greater_trees(greater_patterns@) =~= seq![]);
        }
        loop
            invariant
                self.wf(),
                self.grammar() == old(self).grammar(),
                old(self).position() <= self.position(),
                old(self).grammar().greater_patterns(old(self).position(), seq![])
                    == self.grammar().greater_patterns(
                    self.position(),
                    greater_trees(greater_patterns@),
                ),
            decreases self.remaining(),
        {
            let token = self.peek()?;
            if let TokenK::Operator(OperatorK::Comma) = token.kind {
                let _ = self.take()?;
                continue ;
            }
            if let TokenK::Identifier(IdentifierK::If) | TokenK::Operator(OperatorK::ArrowRight) =
                token.kind {
                return Ok(greater_patterns);
            }
            let ghost before = greater_trees(greater_patterns@);
            let greater_pattern = self.greater_pattern_core(0)?;
            proof {
                self.lemma_position();
            }
            greater_patterns.push(greater_pattern);
            proof {
                assert(greater_trees(greater_patterns@) =~= before.push(greater_pattern@));
            }
        }
    }
}

} // verus!
