use lily::lexer::lex;
use lily::lines::Lines;
use lily::parser::cursor::Cursor;
use lily::parser::errors::ParseError;
use lily::parser::fixity::FixityMap;
use lily::parser::types::{
    Associativity, CaseArm, Declaration, DeclarationK, DoStatement, DoStatementK, Domain,
    Expression, ExpressionK, Fixity, GreaterPattern, GreaterPatternK, LesserPattern,
    LesserPatternK, Ty, TyK,
};
use lily::parser::{parse_module, parse_top_level, Diagnostic, Module};
use lily::token::{IdentifierK, LayoutK, OperatorK, Token, TokenK, UnknownK};

fn join(parts: Vec<String>, separator: &str) -> String {
    parts.join(separator)
}

fn show_lesser(pattern: &LesserPattern) -> String {
    match &pattern.kind {
        LesserPatternK::Null => "_".to_string(),
        LesserPatternK::Variable(name) => name.clone(),
    }
}

fn show_greater(pattern: &GreaterPattern) -> String {
    match &pattern.kind {
        GreaterPatternK::Application(function, arguments) => {
            let mut parts = vec![show_greater(function)];
            parts.extend(arguments.iter().map(show_greater));
            format!("@({})", join(parts, " "))
        }
        GreaterPatternK::BinaryOperator(left, operator, right) => {
            format!("({} {} {})", show_greater(left), operator, show_greater(right))
        }
        GreaterPatternK::Constructor(name) => name.clone(),
        GreaterPatternK::Integer(digits) => digits.clone(),
        GreaterPatternK::Null => "_".to_string(),
        GreaterPatternK::Parenthesized(inner) => format!("[{}]", show_greater(inner)),
        GreaterPatternK::Variable(name) => name.clone(),
    }
}

fn show_ty(ty: &Ty) -> String {
    match &ty.kind {
        TyK::Application(function, arguments) => {
            let mut parts = vec![show_ty(function)];
            parts.extend(arguments.iter().map(show_ty));
            format!("@({})", join(parts, " "))
        }
        TyK::BinaryOperator(left, operator, right) => {
            format!("({} {} {})", show_ty(left), operator, show_ty(right))
        }
        TyK::Constructor(name) => name.clone(),
        TyK::Parenthesized(inner) => format!("[{}]", show_ty(inner)),
        TyK::Variable(name) => name.clone(),
    }
}

fn show_statement(statement: &DoStatement) -> String {
    match &statement.kind {
        DoStatementK::BindExpression(pattern, expression) => {
            format!("{} <- {}", show_lesser(pattern), show(expression))
        }
        DoStatementK::DiscardExpression(expression) => show(expression),
        DoStatementK::LetStatement(declarations) => {
            format!("let{{{}}}", join(declarations.iter().map(show_declaration).collect(), "; "))
        }
    }
}

fn show_arm(arm: &CaseArm) -> String {
    let patterns = join(arm.patterns.iter().map(show_greater).collect(), ", ");
    match &arm.condition {
        Some(condition) => format!("{} | {} -> {}", patterns, show(condition), show(&arm.expression)),
        None => format!("{} -> {}", patterns, show(&arm.expression)),
    }
}

fn show(expression: &Expression) -> String {
    match &expression.kind {
        ExpressionK::Application(function, arguments) => {
            let mut parts = vec![show(function)];
            parts.extend(arguments.iter().map(show));
            format!("@({})", join(parts, " "))
        }
        ExpressionK::BinaryOperator(left, operator, right) => {
            format!("({} {} {})", show(left), operator, show(right))
        }
        ExpressionK::CaseOf(expressions, arms) => format!(
            "case({}){{{}}}",
            join(expressions.iter().map(show).collect(), ", "),
            join(arms.iter().map(show_arm).collect(), "; ")
        ),
        ExpressionK::Constructor(name) => name.clone(),
        ExpressionK::DoBlock(statements) => {
            format!("do{{{}}}", join(statements.iter().map(show_statement).collect(), "; "))
        }
        ExpressionK::Float(digits) => digits.clone(),
        ExpressionK::IfThenElse(condition, then_value, else_value) => {
            format!("(if {} {} {})", show(condition), show(then_value), show(else_value))
        }
        ExpressionK::Integer(digits) => digits.clone(),
        ExpressionK::Lambda(patterns, expression) => format!(
            "\\{} -> {}",
            join(patterns.iter().map(show_lesser).collect(), " "),
            show(expression)
        ),
        ExpressionK::Let(declarations, expression) => format!(
            "let{{{}}} in {}",
            join(declarations.iter().map(show_declaration).collect(), "; "),
            show(expression)
        ),
        ExpressionK::Parenthesized(inner) => format!("[{}]", show(inner)),
        ExpressionK::Variable(name) => name.clone(),
    }
}

fn show_declaration(declaration: &Declaration) -> String {
    match &declaration.kind {
        DeclarationK::ValueDeclaration(name, patterns, expression) => {
            let mut parts = vec![name.clone()];
            parts.extend(patterns.iter().map(show_lesser));
            format!("{} = {}", join(parts, " "), show(expression))
        }
        DeclarationK::TypeDeclaration(name, ty) => format!("{} : {}", name, show_ty(ty)),
        DeclarationK::BlockDeclaration(name, variables, mark, body) => {
            let mut parts = vec![name.clone()];
            parts.extend(variables.iter().map(show_lesser));
            format!("{} {:?} <{} tokens>", join(parts, " "), mark, body.len())
        }
    }
}

fn show_module(module: &Module) -> Vec<String> {
    module.declarations.iter().map(show_declaration).collect()
}

fn declarations_of(source: &str) -> Vec<String> {
    match parse_top_level(source) {
        Ok(module) => show_module(&module),
        Err(diagnostics) => panic!("{:?}", diagnostics),
    }
}

fn errors_of(source: &str) -> Vec<ParseError> {
    match parse_top_level(source) {
        Ok(module) => panic!("{:?}", show_module(&module)),
        Err(diagnostics) => diagnostics.into_iter().map(|diagnostic| diagnostic.error).collect(),
    }
}

#[test]
fn top_level_0() {
    let source = r"
infixl 4 add as +

example = a + b + c
";
    let module = parse_top_level(source).unwrap();
    assert_eq!(show_module(&module), vec!["example = ((a + b) + c)"]);
    assert_eq!(module.declarations[0].begin, 20);
    assert_eq!(module.declarations[0].end, 39);
    assert_eq!(
        module.value_fixities.get("+"),
        Some(&Fixity {
            begin: 1,
            end: 18,
            associativity: Associativity::Infixl,
            domain: Domain::Value,
            binding_power: 4,
            identifier: "add".to_string(),
        })
    );
    assert!(module.type_fixities.is_empty());
}

#[test]
fn top_level_1() {
    let source = r"
example = a + b + c
";
    assert_eq!(
        parse_top_level(source).unwrap_err(),
        vec![Diagnostic {
            begin: 1,
            end: 21,
            error: ParseError::UnknownBindingPower("+".to_string()),
        }]
    );
}

#[test]
fn top_level_2() {
    let source = r"
infixl 1 add as +
infixl 2 mul as *
infixr 3 pow as ^

example = a + b * (c + d) + e ^ f
";
    assert_eq!(declarations_of(source), vec!["example = ((a + (b * [(c + d)])) + (e ^ f))"]);
}

#[test]
fn top_level_3() {
    let source = r"
infixl 1 add as +

example = if if a then b else c then if d then e else f else if g then h else i
";
    assert_eq!(
        declarations_of(source),
        vec!["example = (if (if a b c) (if d e f) (if g h i))"]
    );
}

#[test]
fn top_level_4() {
    let source = r"
example = f a b
";
    assert_eq!(declarations_of(source), vec!["example = @(f a b)"]);
}

#[test]
fn top_level_5() {
    let source = r"
example = f if a then b else c d

example = f (if a then b else c) d
";
    assert_eq!(
        declarations_of(source),
        vec!["example = @(f (if a b @(c d)))", "example = @(f [(if a b c)] d)"]
    );
}

#[test]
fn top_level_6() {
    let source = "
example = do
  let
    u = 21
    v = 21
  w <- pure 21
  x <- pure 21
  attempt do
    y <- pure 21
    z <- pure 21
";
    assert_eq!(
        declarations_of(source),
        vec![
            "example = do{let{u = 21; v = 21}; w <- @(pure 21); x <- @(pure 21); \
             @(attempt do{y <- @(pure 21); z <- @(pure 21)})}"
        ]
    );
}

#[test]
fn top_level_7() {
    let source = "
example a b c = a b c
";
    assert_eq!(declarations_of(source), vec!["example a b c = @(a b c)"]);
}

#[test]
fn top_level_8() {
    let source = "
example = case a, b of
  Cons a b, _ if hello -> do
    world
  _, Nil -> do
    example
";
    assert_eq!(
        declarations_of(source),
        vec!["example = case(a, b){@(Cons a b), _ | hello -> do{world}; _, Nil -> do{example}}"]
    );
}

#[test]
fn top_level_9() {
    let source = "
example = f
  let
    a = b
    c = d
  in
    a c
";
    assert_eq!(declarations_of(source), vec!["example = @(f let{a = b; c = d} in @(a c))"]);
}

#[test]
fn top_level_10() {
    let source = "
infixr 9 type Function as ->

example : A a -> B -> C -> D (d e)
";
    let module = parse_top_level(source).unwrap();
    assert_eq!(show_module(&module), vec!["example : (@(A a) -> (B -> (C -> @(D [@(d e)]))))"]);
    let fixity = module.type_fixities.get("->").unwrap();
    assert_eq!(fixity.domain, Domain::Type);
    assert_eq!(fixity.associativity, Associativity::Infixr);
    assert_eq!(fixity.binding_power, 9);
    assert_eq!(fixity.identifier, "Function");
    assert_eq!(fixity.as_pair(), (10, 9));
    assert!(module.value_fixities.is_empty());
}

#[test]
fn it_works() {
    const SOURCE: &str = r"
infixr 9 apply as $

infixr 5 power as ^

x : Int
x = f $ x $ y
";
    let module = parse_top_level(SOURCE).unwrap();
    assert_eq!(show_module(&module), vec!["x : Int", "x = (f $ (x $ y))"]);
}

#[test]
fn core_it_works() {
    let source = "Just a, Just b ->";
    let tokens = lex(source);
    let lines = Lines::new(source);
    let mut fixity_map = FixityMap::new();
    fixity_map.insert(
        "+".to_string(),
        Fixity {
            begin: 0,
            end: 0,
            associativity: Associativity::Infixl,
            domain: Domain::Value,
            binding_power: 1,
            identifier: "+".to_string(),
        },
    );
    let mut cursor = Cursor::new(&lines, &tokens, Some(&fixity_map), None);
    let patterns = cursor.greater_patterns().unwrap();
    let shown: Vec<String> = patterns.iter().map(show_greater).collect();
    assert_eq!(shown, vec!["@(Just a)", "@(Just b)"]);
    assert_eq!(cursor.peek().unwrap().kind, TokenK::Operator(OperatorK::ArrowRight));
}

#[test]
fn best_effort_parsing() {
    let source = r"
main : Effect Unit
main & Effect Unit
main : Effect Unit
";
    let (module, diagnostics) = parse_module(source);
    assert_eq!(show_module(&module), vec!["main : @(Effect Unit)", "main : @(Effect Unit)"]);
    assert_eq!(
        diagnostics,
        vec![Diagnostic {
            begin: 20,
            end: 39,
            error: ParseError::UnexpectedToken(TokenK::Operator(OperatorK::Source)),
        }]
    );
    // The failure lies between the two declarations that parse.
    assert!(module.declarations[0].end <= diagnostics[0].begin);
    assert!(diagnostics[0].end <= module.declarations[1].begin);
    assert!(parse_top_level(source).is_err());
}

#[test]
fn two_value_declarations() {
    let module = parse_top_level("a = 0\nb = 0").unwrap();
    assert_eq!(show_module(&module), vec!["a = 0", "b = 0"]);
    assert_eq!(
        module.declarations[0],
        Declaration {
            begin: 0,
            end: 5,
            kind: DeclarationK::ValueDeclaration(
                "a".to_string(),
                vec![],
                Expression { begin: 4, end: 5, kind: ExpressionK::Integer("0".to_string()) },
            ),
        }
    );
    assert!(module.value_fixities.is_empty());
    assert!(module.type_fixities.is_empty());
}

#[test]
fn do_block_with_let_bind_and_discard() {
    let source = "example = do
  let
    u = 21
    v = 21
  w <- pure 21
  attempt do
    y <- pure 21
    z <- pure 21
";
    let module = parse_top_level(source).unwrap();
    match &module.declarations[0].kind {
        DeclarationK::ValueDeclaration(_, _, expression) => match &expression.kind {
            ExpressionK::DoBlock(statements) => {
                assert_eq!(statements.len(), 3);
                assert!(matches!(&statements[0].kind, DoStatementK::LetStatement(d) if d.len() == 2));
                assert!(matches!(&statements[1].kind, DoStatementK::BindExpression(_, _)));
                assert!(matches!(&statements[2].kind, DoStatementK::DiscardExpression(_)));
            }
            other => panic!("{:?}", other),
        },
        other => panic!("{:?}", other),
    }
}

#[test]
fn case_with_guard_and_do_on_the_same_line() {
    let source = "example = case a, b of
  Cons a b, _ if hello -> do world
  _, Nil -> example
";
    assert_eq!(
        declarations_of(source),
        vec!["example = case(a, b){@(Cons a b), _ | hello -> do{world}; _, Nil -> example}"]
    );
}

#[test]
fn unknown_operator_without_fixity() {
    assert_eq!(errors_of("x = a + b"), vec![ParseError::UnknownBindingPower("+".to_string())]);
}

#[test]
fn binding_power_pairs() {
    let fixity = |associativity, binding_power| Fixity {
        begin: 0,
        end: 0,
        associativity,
        domain: Domain::Value,
        binding_power,
        identifier: String::new(),
    };
    assert_eq!(fixity(Associativity::Infixl, 0).as_pair(), (0, 1));
    assert_eq!(fixity(Associativity::Infixl, 4).as_pair(), (4, 5));
    assert_eq!(fixity(Associativity::Infixr, 4).as_pair(), (5, 4));
    assert_eq!(fixity(Associativity::Infixr, 9).as_pair(), (10, 9));
}

#[test]
fn right_associative_operators_nest_to_the_right() {
    assert_eq!(
        declarations_of("infixr 5 power as ^\nx = a ^ b ^ c"),
        vec!["x = (a ^ (b ^ c))"]
    );
}

#[test]
fn binding_power_has_to_be_a_digit() {
    assert_eq!(errors_of("infixl 10 add as +"), vec![ParseError::MalformedDigit]);
    assert_eq!(declarations_of("infixl 07 add as +\nx = a + b"), vec!["x = (a + b)"]);
}

#[test]
fn later_fixity_wins_and_the_duplicate_is_reported() {
    let source = "infixl 1 add as +\ninfixr 2 plus as +\nx = a + b + c";
    let (module, diagnostics) = parse_module(source);
    assert_eq!(show_module(&module), vec!["x = (a + (b + c))"]);
    assert_eq!(
        diagnostics,
        vec![Diagnostic {
            begin: 18,
            end: 37,
            error: ParseError::UnexpectedToken(TokenK::Operator(OperatorK::Source)),
        }]
    );
    assert_eq!(module.value_fixities.get("+").unwrap().identifier, "plus");
}

#[test]
fn arrow_is_right_associative_without_a_declaration() {
    assert_eq!(declarations_of("f : a -> b -> c"), vec!["f : (a -> (b -> c))"]);
}

#[test]
fn lexer_errors_surface_in_the_parser() {
    assert_eq!(errors_of("x = {- never closed"), vec![ParseError::UnterminatedComment]);
    assert_eq!(errors_of("x = 1."), vec![ParseError::UnfinishedFloat]);
    assert_eq!(
        errors_of("x = \u{1}"),
        vec![ParseError::UnexpectedToken(TokenK::Unknown(UnknownK::UnknownToken))]
    );
}

#[test]
fn cursor_runs_out_of_tokens() {
    let lines = Lines::new("");
    let mut cursor = Cursor::new(&lines, &[], None, None);
    assert!(cursor.is_eof());
    assert_eq!(cursor.peek(), Err(ParseError::UnexpectedEndOfFile));
    assert_eq!(cursor.take(), Err(ParseError::UnexpectedEndOfFile));
    assert_eq!(cursor.expression(), Err(ParseError::UnexpectedEndOfFile));
    assert_eq!(cursor.declaration(), Err(ParseError::UnexpectedEndOfFile));
    assert_eq!(cursor.fixity(), Err(ParseError::UnexpectedEndOfFile));
}

#[test]
fn cursor_mark_and_reset() {
    let source = "a b";
    let tokens = lex(source);
    let lines = Lines::new(source);
    let mut cursor = Cursor::new(&lines, &tokens, None, None);
    let mark = cursor.mark();
    let first = cursor.take().unwrap();
    assert_eq!(cursor.text(first), "a");
    cursor.reset(mark);
    assert_eq!(cursor.take().unwrap(), first);
}

#[test]
fn block_declaration_keeps_its_tokens() {
    let source = "Identity : Type -> Type
Identity a ?
  _ : a -> Identity a";
    let module = parse_top_level(source).unwrap();
    assert_eq!(
        show_module(&module),
        vec!["Identity : (Type -> Type)", "Identity a Question <7 tokens>"]
    );
    assert_eq!(module.declarations[1].begin, 24);
    assert_eq!(module.declarations[1].end, 58);
}

#[test]
fn float_and_parenthesized_atoms() {
    assert_eq!(declarations_of("x = f 1.5 (g 2)"), vec!["x = @(f 1.5 [@(g 2)])"]);
}

#[test]
fn empty_source_is_an_empty_module() {
    let module = parse_top_level("").unwrap();
    assert!(module.declarations.is_empty());
    assert!(module.value_fixities.is_empty());
    assert!(module.type_fixities.is_empty());
}

#[test]
fn parse_error_for_each_lexer_error_token() {
    assert_eq!(
        ParseError::unexpected_token(TokenK::Unknown(UnknownK::UnfinishedComment)),
        ParseError::UnterminatedComment
    );
    assert_eq!(
        ParseError::unexpected_token(TokenK::Unknown(UnknownK::UnfinishedFloat)),
        ParseError::UnfinishedFloat
    );
    assert_eq!(
        ParseError::unexpected_token(TokenK::Unknown(UnknownK::EndOfFile)),
        ParseError::UnexpectedToken(TokenK::Unknown(UnknownK::EndOfFile))
    );
}

fn unparse(expression: &Expression) -> String {
    match &expression.kind {
        ExpressionK::Application(function, arguments) => {
            let mut parts = vec![unparse(function)];
            parts.extend(arguments.iter().map(unparse));
            join(parts, " ")
        }
        ExpressionK::BinaryOperator(left, operator, right) => {
            format!("{} {} {}", unparse(left), operator, unparse(right))
        }
        ExpressionK::Parenthesized(inner) => format!("({})", unparse(inner)),
        ExpressionK::Variable(name) => name.clone(),
        other => panic!("{:?}", other),
    }
}

fn powers(entries: &[(&str, Associativity, u8)]) -> FixityMap {
    let mut map = FixityMap::new();
    for (operator, associativity, binding_power) in entries {
        map.insert(
            operator.to_string(),
            Fixity {
                begin: 0,
                end: 0,
                associativity: *associativity,
                domain: Domain::Value,
                binding_power: *binding_power,
                identifier: operator.to_string(),
            },
        );
    }
    map
}

fn simple_example() {
    let source = "(f x y + f x y) * (f x y + f x y)";
    let tokens = lex(source);
    let lines = Lines::new(source);
    let powers = powers(&[
        ("+", Associativity::Infixl, 1),
        ("-", Associativity::Infixl, 1),
        ("*", Associativity::Infixl, 3),
        ("/", Associativity::Infixl, 3),
    ]);
    let mut cursor = Cursor::new(&lines, &tokens, Some(&powers), None);
    let result = cursor.expression().unwrap();
    assert_eq!(unparse(&result), source);
    assert_eq!(show(&result), "([(@(f x y) + @(f x y))] * [(@(f x y) + @(f x y))])");
}

#[test]
fn expression_simple_example() {
    simple_example();
}

#[test]
fn pratt_simple_example() {
    simple_example();
}

#[test]
fn expression_parsing() {
    let source = "add a b c = a + b + c";
    let tokens = lex(source);
    let lines = Lines::new(source);
    let powers = powers(&[("+", Associativity::Infixl, 1)]);
    let mut cursor = Cursor::new(&lines, &tokens, Some(&powers), None);
    let declaration = cursor.declaration().unwrap();
    assert_eq!(show_declaration(&declaration), "add a b c = ((a + b) + c)");
}

#[test]
fn a_block_without_statements_is_an_internal_error() {
    let token = |kind| Token { comment_begin: 0, comment_end: 0, begin: 0, end: 0, kind, depth: 0 };
    let tokens = [
        token(TokenK::Identifier(IdentifierK::Do)),
        token(TokenK::Layout(LayoutK::Begin)),
        token(TokenK::Layout(LayoutK::End)),
    ];
    let lines = Lines::new("");
    let mut cursor = Cursor::new(&lines, &tokens, None, None);
    assert_eq!(
        cursor.expression(),
        Err(ParseError::InternalError("Cannot determine last do statement".to_string()))
    );
}

#[test]
fn type_signatures_in_let_blocks() {
    let source = "x = let\n  y : Int\n  y = 1\n in y";
    assert_eq!(declarations_of(source), vec!["x = let{y : Int; y = 1} in y"]);
}

#[test]
fn leftover_tokens_are_unexpected() {
    let source = "x = 1";
    let tokens = lex(source);
    let mut tokens: Vec<_> = tokens.into_iter().filter(|token| !token.is_eof()).collect();
    let extra = tokens[0];
    tokens.push(extra);
    let lines = Lines::new(source);
    let mut cursor = Cursor::new(&lines, &tokens, None, None);
    assert!(cursor.declaration().is_ok());
    assert!(!cursor.is_eof());
}

#[test]
fn lambdas() {
    assert_eq!(declarations_of("f = \\x _ -> g x"), vec!["f = \\x _ -> @(g x)"]);
    assert_eq!(
        declarations_of("infixl 1 add as +\nf = a + \\x -> x + a"),
        vec!["f = (a + \\x -> (x + a))"]
    );
    let source = "head xs = case xs of
  Cons x _ if (\\_ -> true) x ->
    Just x
  _ ->
    Nothing
";
    assert_eq!(
        declarations_of(source),
        vec!["head xs = case(xs){@(Cons x _) | @([\\_ -> true] x) -> @(Just x); _ -> Nothing}"]
    );
    assert_eq!(
        errors_of("f = \\ -> x"),
        vec![ParseError::UnexpectedToken(TokenK::Operator(OperatorK::ArrowRight))]
    );
    assert_eq!(
        errors_of("f = g \\x -> x"),
        vec![ParseError::UnexpectedToken(TokenK::Operator(OperatorK::Backslash))]
    );
}
