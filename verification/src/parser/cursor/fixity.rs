//! Fixity declarations.

use crate::parser::cursor::Cursor;
use crate::parser::errors::ParseError;
use crate::parser::grammar::{decimal_value, failed, parsed, power_of};
use crate::parser::types::{Associativity, Domain, Fixity};
use crate::token::{DigitK, IdentifierK, LayoutK, TokenK};
use vstd::prelude::*;

verus! {

/// Once the digits read so far spell ten or more, so does the whole text.
proof fn lemma_decimal_value_grows(text: Seq<char>, k: int)
    requires
        0 <= k <= text.len(),
        decimal_value(text.take(k)) >= 10,
    ensures
        decimal_value(text) >= 10,
    decreases text.len() - k,
{
    if k < text.len() {
        assert(text.take(k + 1).drop_last() =~= text.take(k));
        lemma_decimal_value_grows(text, k + 1);
    } else {
        assert(text.take(k) =~= text);
    }
}

/// The binding power that `text` spells, if it is one of 0 to 9.
pub fn power(text: &str) -> (power: Option<u8>)
    ensures
        power == power_of(text@),
{
    let n = text.unicode_len();
    if n == 0 {
        return None;
    }
    let mut value: u8 = 0;
    let mut k: usize = 0;
    proof {
        assert(text@.take(0) =~= Seq::<char>::empty());
    }
    while k < n
        invariant
            n == text@.len(),
            0 <= k <= n,
            value <= 9,
            value == decimal_value(text@.take(k as int)),
        decreases n - k,
    {
        let c = text.get_char(k);
        proof {
            assert(text@.take(k + 1).drop_last() =~= text@.take(k as int));
            assert(text@.take(k + 1).last() == c);
        }
        if value > 0 || !('0' <= c && c <= '9') {
            proof {
                lemma_decimal_value_grows(text@, k + 1);
            }
            return None;
        }
        value = (c as u32 - '0' as u32) as u8;
        k += 1;
    }
    proof {
        assert(text@.take(n as int) =~= text@);
    }
    Some(value)
}

impl<'a> Cursor<'a> {
    /// Parses a fixity declaration: the operator and its fixity.
    pub fn fixity(&mut self) -> (result: Result<(String, Fixity), ParseError>)
        requires
            old(self).wf(),
        ensures
            final(self).wf(),
            final(self).grammar() == old(self).grammar(),
            match result {
                Ok((operator, fixity)) => parsed(
                    old(self).grammar().fixity(old(self).position()),
                    (operator@, fixity@),
                    final(self).position(),
                ) && fixity.binding_power <= 9 && old(self).position() + 6
                    <= final(self).position(),
                Err(error) => failed(old(self).grammar().fixity(old(self).position()), error@),
            },
    {
        let keyword = self.take()?;
        let associativity = match keyword.kind {
            TokenK::Identifier(IdentifierK::Infixl) => Associativity::Infixl,
            TokenK::Identifier(IdentifierK::Infixr) => Associativity::Infixr,
            kind => {
                return Err(ParseError::unexpected_token(kind));
            },
        };
        let digits = self.expect(TokenK::Digit(DigitK::Int))?;
        let digits_text = self.text(digits);
        let binding_power = match power(digits_text.as_str()) {
            Some(binding_power) => binding_power,
            None => {
                return Err(ParseError::MalformedDigit);
            },
        };
        let next = self.peek()?;
        let (domain, name) = if let TokenK::Identifier(IdentifierK::Type) = next.kind {
            let _ = self.take()?;
            (Domain::Type, self.expect(TokenK::Identifier(IdentifierK::Upper))?)
        } else {
            (Domain::Value, self.expect(TokenK::Identifier(IdentifierK::Lower))?)
        };
        let identifier = self.text(name);
        let _ = self.expect(TokenK::Identifier(IdentifierK::As))?;
        let operator = self.take()?;
        match operator.kind {
            TokenK::Operator(_) => {},
            kind => {
                return Err(ParseError::unexpected_token(kind));
            },
        }
        let symbol = self.text(operator);
        let _ = self.expect(TokenK::Layout(LayoutK::Separator))?;
        Ok(
            (
                symbol,
                Fixity {
                    begin: keyword.begin,
                    end: operator.end,
                    associativity,
                    domain,
                    binding_power,
                    identifier,
                },
            ),
        )
    }
}

} // verus!
