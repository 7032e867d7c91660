//! Tokens and source positions.

use vstd::prelude::*;

verus! {

/// The two forms of comment.
#[derive(Debug, Clone, Copy, PartialEq, Eq, Hash, Structural)]
pub enum CommentK {
    Block,
    Line,
}

/// The keywords, and the two cases of a name.
#[derive(Debug, Clone, Copy, PartialEq, Eq, Hash, Structural)]
pub enum IdentifierK {
    Ado,
    As,
    Case,
    Do,
    Else,
    If,
    In,
    Infixl,
    Infixr,
    Let,
    Lower,
    Of,
    Then,
    Type,
    Upper,
}

/// The three forms of bracket.
#[derive(Debug, Clone, Copy, PartialEq, Eq, Hash, Structural)]
pub enum DelimiterK {
    Round,
    Square,
    Brace,
}

/// The operators that are built in; `Source` is one that the source
/// defines.
#[derive(Debug, Clone, Copy, PartialEq, Eq, Hash, Structural)]
pub enum OperatorK {
    ArrowLeft,
    ArrowRight,
    Backslash,
    Bang,
    Colon,
    Comma,
    Equal,
    GreaterThan,
    LessThan,
    Period,
    Pipe,
    Question,
    Source,
    Underscore,
}

/// The two forms of number.
#[derive(Debug, Clone, Copy, PartialEq, Eq, Hash, Structural)]
pub enum DigitK {
    Float,
    Int,
}

/// What the lexer cannot make a token of, and the end of the input.
#[derive(Debug, Clone, Copy, PartialEq, Eq, Hash, Structural)]
pub enum UnknownK {
    UnfinishedComment,
    UnfinishedFloat,
    UnknownToken,
    EndOfFile,
}

/// The tokens that the layout engine adds.
#[derive(Debug, Clone, Copy, PartialEq, Eq, Hash, Structural)]
pub enum LayoutK {
    Begin,
    End,
    Separator,
}

/// The kind of a token.
#[derive(Debug, Clone, Copy, PartialEq, Eq, Hash, Structural)]
pub enum TokenK {
    CloseDelimiter(DelimiterK),
    Digit(DigitK),
    Identifier(IdentifierK),
    Layout(LayoutK),
    OpenDelimiter(DelimiterK),
    Operator(OperatorK),
    Unknown(UnknownK),
}

/// A token: the span of the whitespace and comments that lead up to it, the
/// span of its own text, its kind and the layout depth it sits at. All
/// offsets count bytes of the source.
#[derive(Debug, Clone, Copy, PartialEq, Eq, Hash, Structural)]
pub struct Token {
    pub comment_begin: usize,
    pub comment_end: usize,
    pub begin: usize,
    pub end: usize,
    pub kind: TokenK,
    pub depth: usize,
}

/// A one-based line and column in the source text.
#[derive(Debug, Clone, Copy, PartialEq, Eq, Structural)]
pub struct Position {
    pub line: usize,
    pub column: usize,
}

impl Token {
    /// Whether the token is the end of the input.
    pub open spec fn spec_is_eof(&self) -> bool {
        self.kind == TokenK::Unknown(UnknownK::EndOfFile)
    }

    /// Whether the token is a separator of depth zero, which ends a
    /// declaration group.
    pub open spec fn spec_is_separator_zero(&self) -> bool {
        self.depth == 0 && self.kind == TokenK::Layout(LayoutK::Separator)
    }

    /// Whether the token is `infixl` or `infixr`.
    pub open spec fn spec_is_infix_identifier(&self) -> bool {
        self.kind == TokenK::Identifier(IdentifierK::Infixl) || self.kind == TokenK::Identifier(
            IdentifierK::Infixr,
        )
    }

    /// Whether the token is `if`, `then`, `else`, a separator or a closing
    /// parenthesis.
    pub open spec fn spec_is_expression_end(&self) -> bool {
        ||| self.kind == TokenK::Identifier(IdentifierK::If)
        ||| self.kind == TokenK::Identifier(IdentifierK::Then)
        ||| self.kind == TokenK::Identifier(IdentifierK::Else)
        ||| self.kind == TokenK::Layout(LayoutK::Separator)
        ||| self.kind == TokenK::CloseDelimiter(DelimiterK::Round)
    }

    /// Where an expression stops: a separator, a closing parenthesis, a comma,
    /// `->`, or one of the keywords `then`, `else`, `of`, `in`.
    pub open spec fn spec_is_expression_boundary(&self) -> bool {
        ||| self.kind == TokenK::Layout(LayoutK::Separator)
        ||| self.kind == TokenK::CloseDelimiter(DelimiterK::Round)
        ||| self.kind == TokenK::Identifier(IdentifierK::Then)
        ||| self.kind == TokenK::Identifier(IdentifierK::Else)
        ||| self.kind == TokenK::Identifier(IdentifierK::Of)
        ||| self.kind == TokenK::Identifier(IdentifierK::In)
        ||| self.kind == TokenK::Operator(OperatorK::Comma)
        ||| self.kind == TokenK::Operator(OperatorK::ArrowRight)
    }

    /// The keywords that open a block which may stand as an argument.
    pub open spec fn spec_is_block_argument(&self) -> bool {
        ||| self.kind == TokenK::Identifier(IdentifierK::If)
        ||| self.kind == TokenK::Identifier(IdentifierK::Do)
        ||| self.kind == TokenK::Identifier(IdentifierK::Case)
        ||| self.kind == TokenK::Identifier(IdentifierK::Let)
    }

    /// Where a pattern of a case arm stops.
    pub open spec fn spec_is_greater_pattern_boundary(&self) -> bool {
        ||| self.kind == TokenK::Identifier(IdentifierK::If)
        ||| self.kind == TokenK::Operator(OperatorK::Comma)
        ||| self.kind == TokenK::Operator(OperatorK::ArrowRight)
        ||| self.kind == TokenK::CloseDelimiter(DelimiterK::Round)
    }

    /// Where a type stops.
    pub open spec fn spec_is_ty_boundary(&self) -> bool {
        ||| self.kind == TokenK::Layout(LayoutK::Separator)
        ||| self.kind == TokenK::CloseDelimiter(DelimiterK::Round)
    }

    /// The token at another depth.
    pub open spec fn spec_with_depth(self, depth: usize) -> Token {
        Token { depth, ..self }
    }

    /// A zero-width layout token at `offset`.
    pub open spec fn spec_layout(kind: LayoutK, offset: usize, depth: usize) -> Token {
        Token {
            comment_begin: offset,
            comment_end: offset,
            begin: offset,
            end: offset,
            kind: TokenK::Layout(kind),
            depth,
        }
    }

    /// Whether the token is the end of the input.
    #[verifier::when_used_as_spec(spec_is_eof)]
    pub fn is_eof(&self) -> (r: bool)
        ensures
            r == self.spec_is_eof(),
    {
        matches!(self.kind, TokenK::Unknown(UnknownK::EndOfFile))
    }

    /// Whether the token is a separator of depth zero.
    #[verifier::when_used_as_spec(spec_is_separator_zero)]
    pub fn is_separator_zero(&self) -> (r: bool)
        ensures
            r == self.spec_is_separator_zero(),
    {
        self.depth == 0 && matches!(self.kind, TokenK::Layout(LayoutK::Separator))
    }

    /// Whether the token is `infixl` or `infixr`.
    #[verifier::when_used_as_spec(spec_is_infix_identifier)]
    pub fn is_infix_identifier(&self) -> (r: bool)
        ensures
            r == self.spec_is_infix_identifier(),
    {
        matches!(self.kind, TokenK::Identifier(IdentifierK::Infixl | IdentifierK::Infixr))
    }

    /// Whether the token is `if`, `then`, `else`, a separator or a closing
    /// parenthesis.
    #[verifier::when_used_as_spec(spec_is_expression_end)]
    pub fn is_expression_end(&self) -> (r: bool)
        ensures
            r == self.spec_is_expression_end(),
    {
        matches!(
            self.kind,
            TokenK::Identifier(IdentifierK::If | IdentifierK::Then | IdentifierK::Else)
                | TokenK::Layout(LayoutK::Separator)
                | TokenK::CloseDelimiter(DelimiterK::Round)
        )
    }

    /// Whether an expression stops at the token.
    #[verifier::when_used_as_spec(spec_is_expression_boundary)]
    pub fn is_expression_boundary(&self) -> (r: bool)
        ensures
            r == self.spec_is_expression_boundary(),
    {
        matches!(
            self.kind,
            TokenK::Layout(LayoutK::Separator)
                | TokenK::CloseDelimiter(DelimiterK::Round)
                | TokenK::Identifier(
                    IdentifierK::Then | IdentifierK::Else | IdentifierK::Of | IdentifierK::In
                )
                | TokenK::Operator(OperatorK::Comma | OperatorK::ArrowRight)
        )
    }

    /// Whether the token opens a block that may stand as an argument.
    #[verifier::when_used_as_spec(spec_is_block_argument)]
    pub fn is_block_argument(&self) -> (r: bool)
        ensures
            r == self.spec_is_block_argument(),
    {
        matches!(
            self.kind,
            TokenK::Identifier(
                IdentifierK::If | IdentifierK::Do | IdentifierK::Case | IdentifierK::Let
            )
        )
    }

    /// Whether a pattern of a case arm stops at the token.
    #[verifier::when_used_as_spec(spec_is_greater_pattern_boundary)]
    pub fn is_greater_pattern_boundary(&self) -> (r: bool)
        ensures
            r == self.spec_is_greater_pattern_boundary(),
    {
        matches!(
            self.kind,
            TokenK::Identifier(IdentifierK::If)
                | TokenK::Operator(OperatorK::Comma | OperatorK::ArrowRight)
                | TokenK::CloseDelimiter(DelimiterK::Round)
        )
    }

    /// Whether a type stops at the token.
    #[verifier::when_used_as_spec(spec_is_ty_boundary)]
    pub fn is_ty_boundary(&self) -> (r: bool)
        ensures
            r == self.spec_is_ty_boundary(),
    {
        matches!(
            self.kind,
            TokenK::Layout(LayoutK::Separator) | TokenK::CloseDelimiter(DelimiterK::Round)
        )
    }

    /// The token at another depth.
    #[verifier::when_used_as_spec(spec_with_depth)]
    pub fn with_depth(self, depth: usize) -> (r: Token)
        ensures
            r == self.spec_with_depth(depth),
    {
        Token {
            comment_begin: self.comment_begin,
            comment_end: self.comment_end,
            begin: self.begin,
            end: self.end,
            kind: self.kind,
            depth,
        }
    }

    /// A layout token of no width at `offset`.
    #[verifier::when_used_as_spec(spec_layout)]
    pub fn layout(kind: LayoutK, offset: usize, depth: usize) -> (r: Token)
        ensures
            r == Token::spec_layout(kind, offset, depth),
    {
        Token {
            comment_begin: offset,
            comment_end: offset,
            begin: offset,
            end: offset,
            kind: TokenK::Layout(kind),
            depth,
        }
    }
}

} // verus!
