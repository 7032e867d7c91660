//! Types.

use crate::parser::cursor::Cursor;
use crate::parser::errors::ParseError;
use crate::parser::grammar::{apply_ty, failed, parsed};
use crate::parser::types::{Ty, TyK};
use crate::token::{DelimiterK, IdentifierK, OperatorK, TokenK};
use vstd::prelude::*;

verus! {

/// The type `function` applied to one more `argument`.
pub fn apply(function: Ty, argument: Ty) -> (applied: Ty)
    ensures
        applied@ == apply_ty(function@, argument@),
{
    let Ty { begin, end, kind } = function;
    let argument_end = argument.end;
    match kind {
        TyK::Application(head, mut arguments) => {
            arguments.push(argument);
            let applied = Ty { begin, end: argument_end, kind: TyK::Application(head, arguments) };
            proof {
                assert(applied@.kind->Application_1 =~= function@.kind->Application_1.push(
                    argument@,
                ));
            }
            applied
        },
        other => {
            let mut arguments = Vec::new();
            arguments.push(argument);
            let applied = Ty {
                begin,
                end,
                kind: TyK::Application(Box::new(Ty { begin, end, kind: other }), arguments),
            };
            proof {
                assert(applied@.kind->Application_1 =~= seq![argument@]);
            }
            applied
        },
    }
}

impl<'a> Cursor<'a> {
    fn ty_atom(&mut self) -> (result: Result<Ty, ParseError>)
        requires
            old(self).wf(),
        ensures
            final(self).wf(),
            final(self).grammar() == old(self).grammar(),
            match result {
                Ok(ty) => parsed(
                    old(self).grammar().ty_atom(old(self).position()),
                    ty@,
                    final(self).position(),
                ) && old(self).position() < final(self).position(),
                Err(error) => failed(old(self).grammar().ty_atom(old(self).position()), error@),
            },
        decreases old(self).remaining(), 0nat,
    {
        let token = self.take()?;
        let (begin, end) = (token.begin, token.end);
        match token.kind {
            TokenK::Identifier(IdentifierK::Upper) => Ok(
                Ty { begin, end, kind: TyK::Constructor(self.text(token)) },
            ),
            TokenK::Identifier(IdentifierK::Lower) => Ok(
                Ty { begin, end, kind: TyK::Variable(self.text(token)) },
            ),
            TokenK::OpenDelimiter(DelimiterK::Round) => {
                let ty = self.ty_core(0)?;
                let close = self.expect(TokenK::CloseDelimiter(DelimiterK::Round))?;
                Ok(Ty { begin, end: close.end, kind: TyK::Parenthesized(Box::new(ty)) })
            },
            kind => Err(ParseError::unexpected_token(kind)),
        }
    }

    fn ty_core(&mut self, minimum_power: u8) -> (result: Result<Ty, ParseError>)
        requires
            old(self).wf(),
        ensures
            final(self).wf(),
            final(self).grammar() == old(self).grammar(),
            match result {
                Ok(ty) => parsed(
                    old(self).grammar().ty_core(old(self).position(), minimum_power),
                    ty@,
                    final(self).position(),
                ) && old(self).position() < final(self).position(),
                Err(error) => failed(
                    old(self).grammar().ty_core(old(self).position(), minimum_power),
                    error@,
                ),
            },
        decreases old(self).remaining(), 2nat,
    {
        let mut accumulator = self.ty_atom()?;
        proof {
            self.lemma_position();
        }
        loop
            invariant_except_break
                old(self).grammar().ty_core(old(self).position(), minimum_power)
                    == self.grammar().ty_loop(accumulator@, self.position(), minimum_power),
            invariant
                self.wf(),
                self.grammar() == old(self).grammar(),
                old(self).position() < self.position(),
            ensures
                parsed(
                    old(self).grammar().ty_core(old(self).position(), minimum_power),
                    accumulator@,
                    self.position(),
                ),
            decreases self.remaining(),
        {
            let token = self.peek()?;
            if token.is_ty_boundary() {
                break ;
            }
            if let TokenK::Operator(OperatorK::ArrowRight | OperatorK::Source) = token.kind {
                let operator = self.text(token);
                let (left_power, right_power) = self.get_type_fixity(&operator)?;
                if left_power < minimum_power {
                    break ;
                }
                let _ = self.take()?;
                let argument = self.ty_core(right_power)?;
                proof {
                    self.lemma_position();
                }
                accumulator = Ty {
                    begin: accumulator.begin,
                    end: argument.end,
                    kind: TyK::BinaryOperator(Box::new(accumulator), operator, Box::new(argument)),
                };
                continue ;
            }
            let argument = self.ty_atom()?;
            proof {
                self.lemma_position();
            }
            accumulator = apply(accumulator, argument);
        }
        Ok(accumulator)
    }

    /// Parses a type.
    pub fn ty(&mut self) -> (result: Result<Ty, ParseError>)
        requires
            old(self).wf(),
        ensures
            final(self).wf(),
            final(self).grammar() == old(self).grammar(),
            match result {
                Ok(ty) => parsed(
                    old(self).grammar().ty(old(self).position()),
                    ty@,
                    final(self).position(),
                ) && old(self).position() < final(self).position(),
                Err(error) => failed(old(self).grammar().ty(old(self).position()), error@),
            },
    {
        self.ty_core(0)
    }
}

} // verus!
