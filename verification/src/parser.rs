//! The parser: from layout-annotated tokens to the syntax tree.

pub mod cursor;
pub mod errors;
pub mod fixity;
pub mod grammar;
pub mod group;
pub mod types;

use crate::lexer::{lex, lex_of};
use crate::lines::{byte_len, Lines};
use crate::parser::cursor::Cursor;
use crate::parser::errors::{unexpected, Failure, ParseError};
use crate::parser::fixity::FixityMap;
use crate::parser::grammar::Grammar;
use crate::parser::group::{partition, partition_of, slices_view};
use crate::parser::types::{
    declaration_trees, Declaration, DeclarationTree, Domain, FixityTree,
};
use crate::token::Token;
use vstd::prelude::*;

verus! {

/// What a source declares: its declarations in order, and the fixities of
/// its operators among values and among types.
#[derive(Debug)]
pub struct Module {
    pub declarations: Vec<Declaration>,
    pub value_fixities: FixityMap,
    pub type_fixities: FixityMap,
}

/// A declaration group that did not parse: the bytes it spans and why.
#[derive(Debug, PartialEq, Eq)]
pub struct Diagnostic {
    pub begin: usize,
    pub end: usize,
    pub error: ParseError,
}

/// A diagnostic, with the text of its strings.
pub struct DiagnosticTree {
    pub begin: usize,
    pub end: usize,
    pub failure: Failure,
}

impl View for Diagnostic {
    type V = DiagnosticTree;

    open spec fn view(&self) -> DiagnosticTree {
        DiagnosticTree { begin: self.begin, end: self.end, failure: self.error@ }
    }
}

/// The views of a vector of diagnostics.
pub open spec fn diagnostic_trees(diagnostics: Seq<Diagnostic>) -> Seq<DiagnosticTree> {
    diagnostics.map_values(|diagnostic: Diagnostic| diagnostic@)
}

/// What parsing a source comes to: the module and the diagnostics.
pub struct Outline {
    pub declarations: Seq<DeclarationTree>,
    pub values: Map<Seq<char>, FixityTree>,
    pub types: Map<Seq<char>, FixityTree>,
    pub diagnostics: Seq<DiagnosticTree>,
}

/// The bytes that a group spans.
pub open spec fn group_span(group: Seq<Token>) -> (usize, usize) {
    if group.len() > 0 {
        (group[0].begin, group.last().end)
    } else {
        (0, 0)
    }
}

/// The outcome of a parse that has to use up the whole group: a token that
/// is left over is unexpected.
pub open spec fn whole<T>(grammar: Grammar, outcome: Result<(T, int), Failure>) -> Result<
    T,
    Failure,
> {
    match outcome {
        Err(failure) => Err(failure),
        Ok((value, end)) => match grammar.peek(end) {
            Ok(token) => Err(unexpected(token.kind)),
            Err(_) => Ok(value),
        },
    }
}

impl Outline {
    /// Before the first group: nothing declared, nothing reported.
    pub open spec fn empty() -> Outline {
        Outline { declarations: seq![], values: Map::empty(), types: Map::empty(), diagnostics: seq![] }
    }

    /// The outline with one more diagnostic, for `group`.
    pub open spec fn report(self, group: Seq<Token>, failure: Failure) -> Outline {
        Outline {
            diagnostics: self.diagnostics.push(
                DiagnosticTree { begin: group_span(group).0, end: group_span(group).1, failure },
            ),
            ..self
        }
    }

    /// The outline after a fixity group. The fixity goes into the table of
    /// its domain. An operator that the table already holds is reported, at
    /// its token, and the later fixity stays.
    pub open spec fn fixity_step(self, source: Seq<char>, group: Seq<Token>) -> Outline {
        let grammar = Grammar { source, tokens: group, values: None, types: None };
        match whole(grammar, grammar.fixity(0)) {
            Err(failure) => self.report(group, failure),
            Ok((operator, fixity)) => {
                let table = if fixity.domain == Domain::Type {
                    self.types
                } else {
                    self.values
                };
                let reported = if table.contains_key(operator) && group.len() >= 2 {
                    self.report(group, unexpected(group[group.len() - 2].kind))
                } else {
                    self
                };
                if fixity.domain == Domain::Type {
                    Outline { types: reported.types.insert(operator, fixity), ..reported }
                } else {
                    Outline { values: reported.values.insert(operator, fixity), ..reported }
                }
            },
        }
    }

    /// The outline after the fixity groups from the `k`-th group on.
    pub open spec fn fixity_pass(self, source: Seq<char>, groups: Seq<Seq<Token>>, k: int)
        -> Outline
        decreases groups.len() - k,
    {
        if k < 0 || k >= groups.len() {
            self
        } else if groups[k].len() > 0 && groups[k][0].is_infix_identifier() {
            self.fixity_step(source, groups[k]).fixity_pass(source, groups, k + 1)
        } else {
            self.fixity_pass(source, groups, k + 1)
        }
    }

    /// The outline after a group that holds a declaration, which is parsed
    /// with the tables as they are.
    pub open spec fn declaration_step(self, source: Seq<char>, group: Seq<Token>) -> Outline {
        let grammar = Grammar {
            source,
            tokens: group,
            values: Some(self.values),
            types: Some(self.types),
        };
        match whole(grammar, grammar.declaration(0)) {
            Err(failure) => self.report(group, failure),
            Ok(declaration) => Outline {
                declarations: self.declarations.push(declaration),
                ..self
            },
        }
    }

    /// The outline after the other groups from the `k`-th group on.
    pub open spec fn declaration_pass(self, source: Seq<char>, groups: Seq<Seq<Token>>, k: int)
        -> Outline
        decreases groups.len() - k,
    {
        if k < 0 || k >= groups.len() {
            self
        } else if groups[k].len() > 0 && groups[k][0].is_infix_identifier() {
            self.declaration_pass(source, groups, k + 1)
        } else {
            self.declaration_step(source, groups[k]).declaration_pass(source, groups, k + 1)
        }
    }
}

/// What parsing `source` comes to. The source is lexed and split into
/// declaration groups. A first pass reads the fixity declarations into the
/// two tables; a second pass parses every other group with those tables. A
/// group that fails is reported and does not stop the others.
pub open spec fn module_of(source: Seq<char>) -> Outline {
    let groups = partition_of(lex_of(source));
    Outline::empty().fixity_pass(source, groups, 0).declaration_pass(source, groups, 0)
}

impl Module {
    /// The module and the diagnostics that came with it, as one value.
    pub open spec fn with(&self, diagnostics: Seq<Diagnostic>) -> Outline {
        Outline {
            declarations: declaration_trees(self.declarations@),
            values: self.value_fixities@,
            types: self.type_fixities@,
            diagnostics: diagnostic_trees(diagnostics),
        }
    }
}

fn report(diagnostics: &mut Vec<Diagnostic>, group: &[Token], error: ParseError)
    ensures
        diagnostic_trees(final(diagnostics)@) == diagnostic_trees(old(diagnostics)@).push(
            DiagnosticTree {
                begin: group_span(group@).0,
                end: group_span(group@).1,
                failure: error@,
            },
        ),
{
    let ghost before = diagnostic_trees(diagnostics@);
    let (begin, end) = if group.len() > 0 {
        (group[0].begin, group[group.len() - 1].end)
    } else {
        (0, 0)
    };
    let diagnostic = Diagnostic { begin, end, error };
    diagnostics.push(diagnostic);
    proof {
        assert(diagnostic_trees(diagnostics@) =~= before.push(diagnostic@));
    }
}

/// Parses `source` as far as it goes: the module of the declarations that
/// parse, and a diagnostic for every group that does not.
pub fn parse_module(source: &str) -> (parsed: (Module, Vec<Diagnostic>))
    requires
        byte_len(source@) < usize::MAX,
    ensures
        parsed.0.with(parsed.1@) == module_of(source@),
        parsed.0.value_fixities.wf(),
        parsed.0.type_fixities.wf(),
{
    let tokens = lex(source);
    let lines = Lines::new(source);
    let groups = partition(tokens.as_slice());
    let ghost text = source@;
    let ghost parts = slices_view(groups@);
    let mut value_fixities = FixityMap::new();
    let mut type_fixities = FixityMap::new();
    let mut diagnostics: Vec<Diagnostic> = Vec::new();
    let mut declarations: Vec<Declaration> = Vec::new();
    proof {
        assert(diagnostic_trees(diagnostics@) =~= seq![]);
        assert(declaration_trees(declarations@) =~= seq![]);
    }
    let mut k: usize = 0;
    while k < groups.len()
        invariant
            lines.wf(),
            lines@ == text,
            parts == slices_view(groups@),
            parts == partition_of(lex_of(text)),
            0 <= k <= groups.len(),
            value_fixities.wf(),
            type_fixities.wf(),
            declarations@.len() == 0,
            Outline::empty().fixity_pass(text, parts, 0) == (Outline {
                declarations: seq![],
                values: value_fixities@,
                types: type_fixities@,
                diagnostics: diagnostic_trees(diagnostics@),
            }).fixity_pass(text, parts, k as int),
        decreases groups.len() - k,
    {
        let group = groups[k];
        assert(parts[k as int] == group@);
        if group.len() > 0 && group[0].is_infix_identifier() {
            let mut cursor = Cursor::new(&lines, group, None, None);
            match cursor.fixity() {
                Err(error) => {
                    report(&mut diagnostics, group, error);
                },
                Ok((operator, fixity)) => {
                    match cursor.peek() {
                        Ok(token) => {
                            report(
                                &mut diagnostics,
                                group,
                                ParseError::unexpected_token(token.kind),
                            );
                        },
                        Err(_) => {
                            proof {
                                cursor.lemma_position();
                            }
                            let table = match fixity.domain {
                                Domain::Type => &type_fixities,
                                Domain::Value => &value_fixities,
                            };
                            if table.get(operator.as_str()).is_some() {
                                report(
                                    &mut diagnostics,
                                    group,
                                    ParseError::unexpected_token(group[group.len() - 2].kind),
                                );
                            }
                            match fixity.domain {
                                Domain::Type => {
                                    let _ = type_fixities.insert(operator, fixity);
                                },
                                Domain::Value => {
                                    let _ = value_fixities.insert(operator, fixity);
                                },
                            }
                        },
                    }
                },
            }
        }
        k += 1;
    }
    let mut k: usize = 0;
    while k < groups.len()
        invariant
            lines.wf(),
            lines@ == text,
            parts == slices_view(groups@),
            parts == partition_of(lex_of(text)),
            0 <= k <= groups.len(),
            value_fixities.wf(),
            type_fixities.wf(),
            module_of(text) == (Outline {
                declarations: declaration_trees(declarations@),
                values: value_fixities@,
                types: type_fixities@,
                diagnostics: diagnostic_trees(diagnostics@),
            }).declaration_pass(text, parts, k as int),
        decreases groups.len() - k,
    {
        let group = groups[k];
        assert(parts[k as int] == group@);
        if !(group.len() > 0 && group[0].is_infix_identifier()) {
            let mut cursor = Cursor::new(&lines, group, Some(&value_fixities), Some(&type_fixities));
            match cursor.declaration() {
                Err(error) => {
                    proof {
                        cursor.lemma_position();
                    }
                    report(&mut diagnostics, group, error);
                },
                Ok(declaration) => {
                    match cursor.peek() {
                        Ok(token) => {
                            report(
                                &mut diagnostics,
                                group,
                                ParseError::unexpected_token(token.kind),
                            );
                        },
                        Err(_) => {
                            let ghost before = declaration_trees(declarations@);
                            declarations.push(declaration);
                            proof {
                                assert(declaration_trees(declarations@) =~= before.push(
                                    declaration@,
                                ));
                            }
                        },
                    }
                },
            }
        }
        k += 1;
    }
    (Module { declarations, value_fixities, type_fixities }, diagnostics)
}

/// Parses `source` into a module. Where a declaration group does not parse,
/// the diagnostics of all such groups are returned in its place.
pub fn parse_top_level(source: &str) -> (result: Result<Module, Vec<Diagnostic>>)
    requires
        byte_len(source@) < usize::MAX,
    ensures
        match result {
            Ok(module) => module.with(seq![]) == module_of(source@),
            Err(diagnostics) => diagnostics@.len() > 0 && diagnostic_trees(diagnostics@)
                == module_of(source@).diagnostics,
        },
{
    let (module, diagnostics) = parse_module(source);
    if diagnostics.len() == 0 {
        proof {
            assert(diagnostic_trees(diagnostics@) =~= seq![]);
            assert(diagnostic_trees(Seq::<Diagnostic>::empty()) =~= seq![]);
        }
        Ok(module)
    } else {
        Err(diagnostics)
    }
}

} // verus!
