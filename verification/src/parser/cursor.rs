//! The parser's cursor over the tokens of one declaration group.

mod declaration;
mod expression;
mod fixity;
mod patterns;
mod ty;

use crate::lines::{same_text, Lines};
use crate::parser::errors::ParseError;
use crate::parser::fixity::FixityMap;
use crate::parser::grammar::{failed, fixity_in, found, Grammar};
use crate::parser::types::FixityTree;
use crate::token::{Token, TokenK};
use vstd::prelude::*;

verus! {

/// A place in the tokens of one declaration group, with the source they
/// were read from and the fixity tables that are known.
pub struct Cursor<'a> {
    source: &'a Lines,
    tokens: &'a [Token],
    index: usize,
    value_fixities: Option<&'a FixityMap>,
    type_fixities: Option<&'a FixityMap>,
}

/// The entries of a table that may be missing.
pub open spec fn entries_of(table: Option<&FixityMap>) -> Option<Map<Seq<char>, FixityTree>> {
    match table {
        Some(map) => Some(map@),
        None => None,
    }
}

/// Whether a table that may be missing is well formed.
pub open spec fn table_wf(table: Option<&FixityMap>) -> bool {
    match table {
        Some(map) => map.wf(),
        None => true,
    }
}

impl<'a> Cursor<'a> {
    /// What the cursor reads.
    pub closed spec fn grammar(&self) -> Grammar {
        Grammar {
            source: self.source@,
            tokens: self.tokens@,
            values: entries_of(self.value_fixities),
            types: entries_of(self.type_fixities),
        }
    }

    /// The index of the next token.
    pub closed spec fn position(&self) -> int {
        self.index as int
    }

    /// The number of tokens that are left.
    pub open spec fn remaining(&self) -> int {
        self.grammar().tokens.len() - self.position()
    }

    /// What holds of every cursor: it stands within its tokens, over a source
    /// and tables that are well formed.
    pub closed spec fn wf(&self) -> bool {
        &&& self.source.wf()
        &&& self.index <= self.tokens@.len()
        &&& table_wf(self.value_fixities)
        &&& table_wf(self.type_fixities)
    }

    /// The cursor stands within its tokens.
    pub proof fn lemma_position(&self)
        requires
            self.wf(),
        ensures
            0 <= self.position() <= self.grammar().tokens.len(),
    {
    }

    /// A cursor at the first of `tokens`.
    pub fn new(
        source: &'a Lines,
        tokens: &'a [Token],
        value_fixities: Option<&'a FixityMap>,
        type_fixities: Option<&'a FixityMap>,
    ) -> (cursor: Cursor<'a>)
        requires
            source.wf(),
            table_wf(value_fixities),
            table_wf(type_fixities),
        ensures
            cursor.wf(),
            cursor.position() == 0,
            cursor.grammar() == (Grammar {
                source: source@,
                tokens: tokens@,
                values: entries_of(value_fixities),
                types: entries_of(type_fixities),
            }),
    {
        Cursor { source, tokens, index: 0, value_fixities, type_fixities }
    }

    /// Whether every token has been taken.
    pub fn is_eof(&self) -> (r: bool)
        requires
            self.wf(),
        ensures
            r == (self.remaining() == 0),
    {
        self.index == self.tokens.len()
    }

    /// The next token, which stays.
    pub fn peek(&self) -> (result: Result<Token, ParseError>)
        requires
            self.wf(),
        ensures
            match result {
                Ok(token) => found(self.grammar().peek(self.position()), token),
                Err(error) => failed(self.grammar().peek(self.position()), error@),
            },
    {
        if self.index < self.tokens.len() {
            Ok(self.tokens[self.index])
        } else {
            Err(ParseError::UnexpectedEndOfFile)
        }
    }

    /// The next token, which is passed.
    pub fn take(&mut self) -> (result: Result<Token, ParseError>)
        requires
            old(self).wf(),
        ensures
            final(self).wf(),
            final(self).grammar() == old(self).grammar(),
            match result {
                Ok(token) => found(old(self).grammar().peek(old(self).position()), token)
                    && final(self).position() == old(self).position() + 1,
                Err(error) => failed(old(self).grammar().peek(old(self).position()), error@)
                    && final(self).position() == old(self).position(),
            },
    {
        if self.index < self.tokens.len() {
            let token = self.tokens[self.index];
            self.index += 1;
            Ok(token)
        } else {
            Err(ParseError::UnexpectedEndOfFile)
        }
    }

    /// The next token, which is passed if it is of `kind`.
    pub fn expect(&mut self, kind: TokenK) -> (result: Result<Token, ParseError>)
        requires
            old(self).wf(),
        ensures
            final(self).wf(),
            final(self).grammar() == old(self).grammar(),
            match result {
                Ok(token) => found(old(self).grammar().expect(old(self).position(), kind), token)
                    && final(self).position() == old(self).position() + 1,
                Err(error) => failed(
                    old(self).grammar().expect(old(self).position(), kind),
                    error@,
                ),
            },
    {
        let token = self.take()?;
        if token.kind == kind {
            Ok(token)
        } else {
            Err(ParseError::unexpected_token(token.kind))
        }
    }

    /// The place of the cursor, to come back to.
    pub fn mark(&self) -> (mark: usize)
        requires
            self.wf(),
        ensures
            mark == self.position(),
    {
        self.index
    }

    /// Goes back to a place where the cursor has been.
    pub fn reset(&mut self, mark: usize)
        requires
            old(self).wf(),
            mark <= old(self).grammar().tokens.len(),
        ensures
            final(self).wf(),
            final(self).grammar() == old(self).grammar(),
            final(self).position() == mark,
    {
        self.index = mark;
    }

    /// The source text of `token`.
    pub fn text(&self, token: Token) -> (text: String)
        requires
            self.wf(),
        ensures
            text@ == self.grammar().text(token),
    {
        self.source.slice(token.begin, token.end)
    }

    /// The binding powers of `operator` among values.
    pub fn get_fixity(&self, operator: &String) -> (result: Result<(u8, u8), ParseError>)
        requires
            self.wf(),
        ensures
            match result {
                Ok(pair) => found(fixity_in(self.grammar().values, operator@), pair),
                Err(error) => failed(fixity_in(self.grammar().values, operator@), error@),
            },
    {
        lookup(self.value_fixities, operator)
    }

    /// The binding powers of `operator` among types.
    pub fn get_type_fixity(&self, operator: &String) -> (result: Result<(u8, u8), ParseError>)
        requires
            self.wf(),
        ensures
            match result {
                Ok(pair) => found(self.grammar().type_fixity(operator@), pair),
                Err(error) => failed(self.grammar().type_fixity(operator@), error@),
            },
    {
        match lookup(self.type_fixities, operator) {
            Ok(pair) => Ok(pair),
            Err(error) => {
                if same_text(operator.as_str(), "->") {
                    Ok((1, 0))
                } else {
                    Err(error)
                }
            },
        }
    }
}

/// The binding powers of `operator` in a table that may be missing.
pub fn lookup(table: Option<&FixityMap>, operator: &String) -> (result: Result<
    (u8, u8),
    ParseError,
>)
    requires
        table_wf(table),
    ensures
        match result {
            Ok(pair) => found(fixity_in(entries_of(table), operator@), pair),
            Err(error) => failed(fixity_in(entries_of(table), operator@), error@),
        },
{
    match table {
        Some(map) => match map.get(operator.as_str()) {
            Some(fixity) => Ok(fixity.as_pair()),
            None => Err(ParseError::UnknownBindingPower(operator.clone())),
        },
        None => Err(ParseError::UnknownBindingPower(operator.clone())),
    }
}

} // verus!
