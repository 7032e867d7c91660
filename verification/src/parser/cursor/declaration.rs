//! Declarations.

use crate::parser::cursor::Cursor;
use crate::parser::errors::ParseError;
use crate::parser::grammar::{failed, is_marker, parsed};
use crate::parser::types::{
    declaration_trees, lesser_trees, Declaration, DeclarationK, LesserPattern, LesserPatternK,
};
use crate::token::{IdentifierK, LayoutK, OperatorK, Token, TokenK};
use vstd::prelude::*;
use vstd::slice::slice_subrange;

verus! {

impl<'a> Cursor<'a> {
    pub(crate) fn declaration_value(&mut self) -> (result: Result<Declaration, ParseError>)
        requires
            old(self).wf(),
        ensures
            final(self).wf(),
            final(self).grammar() == old(self).grammar(),
            match result {
                Ok(declaration) => parsed(
                    old(self).grammar().declaration_value(old(self).position()),
                    declaration@,
                    final(self).position(),
                ) && old(self).position() < final(self).position(),
                Err(error) => failed(
                    old(self).grammar().declaration_value(old(self).position()),
                    error@,
                ),
            },
        decreases old(self).remaining(), 5nat,
    {
        let name = self.take()?;
        let identifier = self.text(name);
        let lesser_patterns = self.lesser_patterns()?;
        let _ = self.take()?;
        proof {
            self.lemma_position();
        }
        let expression = self.expression_core(0)?;
        let _ = self.expect(TokenK::Layout(LayoutK::Separator))?;
        Ok(
            Declaration {
                begin: name.begin,
                end: expression.end,
                kind: DeclarationK::ValueDeclaration(identifier, lesser_patterns, expression),
            },
        )
    }

    /// Parses the type signature of a name.
    pub fn type_signature(&mut self) -> (result: Result<Declaration, ParseError>)
        requires
            old(self).wf(),
        ensures
            final(self).wf(),
            final(self).grammar() == old(self).grammar(),
            match result {
                Ok(declaration) => parsed(
                    old(self).grammar().type_signature(old(self).position()),
                    declaration@,
                    final(self).position(),
                ) && old(self).position() < final(self).position(),
                Err(error) => failed(
                    old(self).grammar().type_signature(old(self).position()),
                    error@,
                ),
            },
    {
        let name = self.take()?;
        let identifier = self.text(name);
        let _ = self.expect(TokenK::Operator(OperatorK::Colon))?;
        let ty = self.ty()?;
        let _ = self.expect(TokenK::Layout(LayoutK::Separator))?;
        Ok(
            Declaration {
                begin: name.begin,
                end: ty.end,
                kind: DeclarationK::TypeDeclaration(identifier, ty),
            },
        )
    }

    fn colon_follows(&self) -> (r: bool)
        requires
            self.wf(),
        ensures
            r == self.grammar().colon_follows(self.position()),
    {
        if self.index < self.tokens.len() && self.index + 1 < self.tokens.len() {
            matches!(self.tokens[self.index + 1].kind, TokenK::Operator(OperatorK::Colon))
        } else {
            false
        }
    }

    /// Parses a declaration of a `let` block.
    pub fn declaration_let(&mut self) -> (result: Result<Declaration, ParseError>)
        requires
            old(self).wf(),
        ensures
            final(self).wf(),
            final(self).grammar() == old(self).grammar(),
            match result {
                Ok(declaration) => parsed(
                    old(self).grammar().declaration_let(old(self).position()),
                    declaration@,
                    final(self).position(),
                ) && old(self).position() < final(self).position(),
                Err(error) => failed(
                    old(self).grammar().declaration_let(old(self).position()),
                    error@,
                ),
            },
        decreases old(self).remaining(), 6nat,
    {
        let token = self.peek()?;
        if let TokenK::Identifier(IdentifierK::Lower) = token.kind {
            if self.colon_follows() {
                return self.type_signature();
            }
            return self.declaration_value();
        }
        Err(ParseError::unexpected_token(token.kind))
    }

    /// Parses the declarations of a `let` block, up to its end.
    pub fn declaration_let_block(&mut self) -> (result: Result<Vec<Declaration>, ParseError>)
        requires
            old(self).wf(),
        ensures
            final(self).wf(),
            final(self).grammar() == old(self).grammar(),
            match result {
                Ok(declarations) => parsed(
                    old(self).grammar().declaration_let_block(old(self).position()),
                    declaration_trees(declarations@),
                    final(self).position(),
                ) && old(self).position() < final(self).position(),
                Err(error) => failed(
                    old(self).grammar().declaration_let_block(old(self).position()),
                    error@,
                ),
            },
        decreases old(self).remaining(), 8nat,
    {
        let first = self.declaration_let()?;
        proof {
            self.lemma_position();
        }
        let mut declarations: Vec<Declaration> = Vec::new();
        declarations.push(first);
        proof {
            assert(declaration_trees(declarations@) =~= seq![first@]);
        }
        loop
            invariant
                self.wf(),
                self.grammar() == old(self).grammar(),
                old(self).position() < self.position(),
                old(self).grammar().declaration_let_block(old(self).position())
                    == self.grammar().declaration_let_rest(
                    self.position(),
                    declaration_trees(declarations@),
                ),
            decreases self.remaining(),
        {
            let token = self.peek()?;
            if let TokenK::Layout(LayoutK::End) = token.kind {
                return Ok(declarations);
            }
            let ghost before = declaration_trees(declarations@);
            let declaration = self.declaration_let()?;
            proof {
                self.lemma_position();
            }
            declarations.push(declaration);
            proof {
                assert(declaration_trees(declarations@) =~= before.push(declaration@));
            }
        }
    }

    /// Parses the lowercase names of a head.
    fn variables(&mut self) -> (result: Result<Vec<LesserPattern>, ParseError>)
        requires
            old(self).wf(),
        ensures
            final(self).wf(),
            final(self).grammar() == old(self).grammar(),
            match result {
                Ok(variables) => parsed(
                    old(self).grammar().variables(old(self).position(), seq![]),
                    lesser_trees(variables@),
                    final(self).position(),
                ) && old(self).position() <= final(self).position(),
                Err(error) => failed(
                    old(self).grammar().variables(old(self).position(), seq![]),
                    error@,
                ),
            },
    {
        let mut variables: Vec<LesserPattern> = Vec::new();
        proof {
            assert(lesser_trees(variables@) =~= seq![]);
        }
        loop
            invariant
                self.wf(),
                self.grammar() == old(self).grammar(),
                old(self).position() <= self.position(),
                old(self).grammar().variables(old(self).position(), seq![])
                    == self.grammar().variables(self.position(), lesser_trees(variables@)),
            decreases self.remaining(),
        {
            let token = self.peek()?;
            if let TokenK::Identifier(IdentifierK::Lower) = token.kind {
                let _ = self.take()?;
                let ghost before = lesser_trees(variables@);
                let variable = LesserPattern {
                    begin: token.begin,
                    end: token.end,
                    kind: LesserPatternK::Variable(self.text(token)),
                };
                variables.push(variable);
                proof {
                    assert(lesser_trees(variables@) =~= before.push(variable@));
                }
            } else {
                return Ok(variables);
            }
        }
    }

    /// Finds the `End` that closes the block which is open at the cursor.
    fn block_end(&self) -> (end: Option<usize>)
        requires
            self.wf(),
            self.position() >= 1,
        ensures
            match end {
                Some(index) => self.grammar().block_end(self.position(), 1) == Some(index as int)
                    && self.position() <= index < self.grammar().tokens.len(),
                None => self.grammar().block_end(self.position(), 1).is_none(),
            },
    {
        let mut index = self.index;
        let mut open: usize = 1;
        while index < self.tokens.len()
            invariant
                self.wf(),
                1 <= self.index <= index <= self.tokens.len(),
                1 <= open <= 1 + index - self.index,
                self.grammar().block_end(self.position(), 1) == self.grammar().block_end(
                    index as int,
                    open as nat,
                ),
            decreases self.tokens.len() - index,
        {
            match self.tokens[index].kind {
                TokenK::Layout(LayoutK::Begin) => {
                    open += 1;
                },
                TokenK::Layout(LayoutK::End) => {
                    if open == 1 {
                        return Some(index);
                    }
                    open -= 1;
                },
                _ => {},
            }
            index += 1;
        }
        None
    }

    /// Parses a declaration whose body is a block, and keeps the tokens of
    /// the block.
    pub fn declaration_block(&mut self) -> (result: Result<Declaration, ParseError>)
        requires
            old(self).wf(),
        ensures
            final(self).wf(),
            final(self).grammar() == old(self).grammar(),
            match result {
                Ok(declaration) => parsed(
                    old(self).grammar().declaration_block(old(self).position()),
                    declaration@,
                    final(self).position(),
                ) && old(self).position() < final(self).position(),
                Err(error) => failed(
                    old(self).grammar().declaration_block(old(self).position()),
                    error@,
                ),
            },
    {
        let name = self.take()?;
        let identifier = self.text(name);
        let variables = self.variables()?;
        let mark = self.take()?;
        let operator = match mark.kind {
            TokenK::Operator(operator) => operator,
            kind => {
                return Err(ParseError::unexpected_token(kind));
            },
        };
        if !matches!(operator, OperatorK::Question | OperatorK::Bang | OperatorK::Pipe) {
            return Err(ParseError::unexpected_token(mark.kind));
        }
        let next = self.take()?;
        match next.kind {
            TokenK::Layout(LayoutK::Separator) => {
                return Ok(
                    Declaration {
                        begin: name.begin,
                        end: mark.end,
                        kind: DeclarationK::BlockDeclaration(
                            identifier,
                            variables,
                            operator,
                            Vec::new(),
                        ),
                    },
                );
            },
            TokenK::Layout(LayoutK::Begin) => {},
            kind => {
                return Err(ParseError::unexpected_token(kind));
            },
        }
        let end = match self.block_end() {
            Some(end) => end,
            None => {
                return Err(ParseError::UnexpectedEndOfFile);
            },
        };
        let body = copy_tokens(self.tokens, self.index, end);
        let end_token = self.tokens[end];
        self.index = end + 1;
        let _ = self.expect(TokenK::Layout(LayoutK::Separator))?;
        Ok(
            Declaration {
                begin: name.begin,
                end: end_token.end,
                kind: DeclarationK::BlockDeclaration(identifier, variables, operator, body),
            },
        )
    }

    /// Parses a declaration of the top level.
    pub fn declaration(&mut self) -> (result: Result<Declaration, ParseError>)
        requires
            old(self).wf(),
        ensures
            final(self).wf(),
            final(self).grammar() == old(self).grammar(),
            match result {
                Ok(declaration) => parsed(
                    old(self).grammar().declaration(old(self).position()),
                    declaration@,
                    final(self).position(),
                ) && old(self).position() < final(self).position(),
                Err(error) => failed(
                    old(self).grammar().declaration(old(self).position()),
                    error@,
                ),
            },
    {
        let token = self.peek()?;
        match token.kind {
            TokenK::Identifier(IdentifierK::Lower) => {
                if self.colon_follows() {
                    self.type_signature()
                } else {
                    self.declaration_value()
                }
            },
            TokenK::Identifier(IdentifierK::Upper) => {
                if self.colon_follows() {
                    self.type_signature()
                } else {
                    self.declaration_block()
                }
            },
            kind => Err(ParseError::unexpected_token(kind)),
        }
    }
}

/// The tokens from `from` up to `to`, copied.
pub fn copy_tokens(tokens: &[Token], from: usize, to: usize) -> (copy: Vec<Token>)
    requires
        from <= to <= tokens@.len(),
    ensures
        copy@ == tokens@.subrange(from as int, to as int),
{
    let mut copy: Vec<Token> = Vec::new();
    let mut index = from;
    while index < to
        invariant
            from <= index <= to <= tokens@.len(),
            copy@ == tokens@.subrange(from as int, index as int),
        decreases to - index,
    {
        copy.push(tokens[index]);
        proof {
            assert(copy@ =~= tokens@.subrange(from as int, index + 1));
        }
        index += 1;
    }
    copy
}

} // verus!
