use lily::lexer::lex;
use lily::token::{LayoutK, TokenK};

fn lex_print(source: &str) -> String {
    let tokens = lex(source);
    let mut buffer = String::new();
    for token in tokens {
        if let TokenK::Layout(layout) = token.kind {
            match layout {
                LayoutK::Begin => buffer.push_str(format!("{{{}", token.depth).as_str()),
                LayoutK::End => buffer.push_str(format!("}}{}", token.depth).as_str()),
                LayoutK::Separator => buffer.push_str(format!(";{}", token.depth).as_str()),
            }
        } else {
            buffer.push_str(&source[token.comment_begin..token.comment_end]);
            buffer.push_str(&source[token.begin..token.end]);
        }
    }
    buffer
}

#[test]
fn layout_0() {
    let source = r"Identity : Type -> Type
Identity a ?
  _ : a -> Identity a";

    assert_eq!(
        lex_print(source),
        r"Identity : Type -> Type;0
Identity a ?{1
  _ : a -> Identity a;1}1;0"
    );
}

#[test]
fn layout_1() {
    let source = r"Equal : Type -> Type -> Boolean
Equal a b !
  _ : a -> a -> True
  _ : a -> b -> False";

    assert_eq!(
        lex_print(source),
        r"Equal : Type -> Type -> Boolean;0
Equal a b !{1
  _ : a -> a -> True;1
  _ : a -> b -> False;1}1;0"
    );
}

#[test]
fn layout_2() {
    let source = r"Eq : Type -> Constraint
Eq a |
  eq : a -> a -> Boolean";

    assert_eq!(
        lex_print(source),
        r"Eq : Type -> Constraint;0
Eq a |{1
  eq : a -> a -> Boolean;1}1;0"
    );
}

#[test]
fn layout_3() {
    let source = r"head : List a -> Maybe a
head xs = case xs of
  Cons x _ -> Just x
  Nil      -> Nothing";

    assert_eq!(
        lex_print(source),
        r"head : List a -> Maybe a;0
head xs = case xs of{1
  Cons x _ -> Just x;1
  Nil      -> Nothing;1}1;0"
    );
}

#[test]
fn layout_4() {
    let source = r"main : Effect Unit
main = do
  log message
  log message
  attempt do
    log message
    log message";

    assert_eq!(
        lex_print(source),
        r"main : Effect Unit;0
main = do{1
  log message;1
  log message;1
  attempt do{2
    log message;2
    log message;2}2;1}1;0"
    );
}

#[test]
fn layout_5() {
    let source = r"ofCollapse : Int
ofCollapse =
  case
    do _ <- pure 0
       pure 1
  of
    Just x -> x
    Nothing -> 0";

    assert_eq!(
        lex_print(source),
        r"ofCollapse : Int;0
ofCollapse =
  case
    do{1 _ <- pure 0;1
       pure 1;1}1
  of{1
    Just x -> x;1
    Nothing -> 0;1}1;0"
    );
}

#[test]
fn layout_6() {
    let source = r"lambdaMask : List a -> Maybe a
lambdaMask xs = case xs of
  Cons x _ if (\_ -> true) x ->
    Just x
  _ ->
    Nothing";

    assert_eq!(
        lex_print(source),
        r"lambdaMask : List a -> Maybe a;0
lambdaMask xs = case xs of{1
  Cons x _ if (\_ -> true) x ->
    Just x;1
  _ ->
    Nothing;1}1;0"
    );
}

#[test]
fn layout_7() {
    let source = r"arrowFinishDo : List a -> Maybe a
arrowFinishDo xs = case xs of
  Cons x _ if do true ->
    Just x
  _ ->
    Nothing";

    assert_eq!(
        lex_print(source),
        r"arrowFinishDo : List a -> Maybe a;0
arrowFinishDo xs = case xs of{1
  Cons x _ if do{2 true;2}2 ->
    Just x;1
  _ ->
    Nothing;1}1;0"
    );
}

#[test]
fn layout_8() {
    let source = r"conditionalDo : Effect Unit
conditionalDo = do
  log something
  if do true then do
    log something
  else do
    log something";

    assert_eq!(
        lex_print(source),
        r"conditionalDo : Effect Unit;0
conditionalDo = do{1
  log something;1
  if do{2 true;2}2 then do{2
    log something;2}2
  else do{2
    log something;2}2;1}1;0"
    );
}

#[test]
fn layout_9() {
    let source = r"letIn : Int
letIn =
  let
    x : Int
    x = 1
    y : Int
    y = 1
  in
    x + y";

    assert_eq!(
        lex_print(source),
        r"letIn : Int;0
letIn =
  let{1
    x : Int;1
    x = 1;1
    y : Int;1
    y = 1;1}1
  in
    x + y;0"
    );
}

#[test]
fn layout_10() {
    let source = r"adoIn : Int
adoIn = ado
  x <- pure 1
  y <- pure 1
  let
    a : Int
    a = let b = c in d
    e : Int
    e = let f = g in h
  in x + y";

    assert_eq!(
        lex_print(source),
        r"adoIn : Int;0
adoIn = ado{1
  x <- pure 1;1
  y <- pure 1;1
  let{2
    a : Int;2
    a = let{3 b = c;3}3 in d;2
    e : Int;2
    e = let{3 f = g;3}3 in h;2}2;1}1
  in x + y;0"
    );
}

#[test]
fn layout_11() {
    let source = r"adoLet : Effect Unit
adoLet = do
  logShow $ x + y
  let
    x : Int
    x = 1
    y : Int
    y = 1
  logShow $ x + y";

    assert_eq!(
        lex_print(source),
        r"adoLet : Effect Unit;0
adoLet = do{1
  logShow $ x + y;1
  let{2
    x : Int;2
    x = 1;2
    y : Int;2
    y = 1;2}2;1
  logShow $ x + y;1}1;0"
    );
}

#[test]
fn layout_of_an_empty_source_is_the_end_of_file() {
    assert_eq!(lex_print(""), "");
    assert_eq!(lex("").len(), 1);
    assert_eq!(lex("  -- nothing\n").len(), 1);
    assert!(lex(" ")[0].is_eof());
}

#[test]
fn layout_separates_declarations_at_depth_zero() {
    assert_eq!(lex_print("a = 0\nb = 0"), "a = 0;0\nb = 0;0");
}

const SOURCE: &str = r"module Main

Identity : Type -> Type
Identity a ?
  _ : a -> Identity a

Equal : Type -> Type -> Boolean
Equal a b !
  _ : a -> a -> True
  _ : a -> b -> False

Eq : Type -> Constraint
Eq a |
  eq : a -> a -> Boolean

head : List a -> Maybe a
head xs = case xs of
  Cons x _ -> Just x
  Nil      -> Nothing

main : Effect Unit
main = do
  log message
  log message
  attempt do
    log message
    log message

ofCollapse : Int
ofCollapse =
  case
    do _ <- pure 0
       pure 1
  of
    Just x -> x
    Nothing -> 0

lambdaMask : List a -> Maybe a
lambdaMask xs = case xs of
  Cons x _ if (\_ -> true) x ->
    Just x
  _ ->
    Nothing

arrowFinishDo : List a -> Maybe a
arrowFinishDo xs = case xs of
  Cons x _ if do true ->
    Just x
  _ ->
    Nothing

conditionalDo : Effect Unit
conditionalDo = do
  log something
  if do true then do
    log something
  else do
    log something

letIn : Int
letIn =
  let
    x : Int
    x = 1

    y : Int
    y = 1
  in
    x + y

adoIn : Int
adoIn = ado
  x <- pure 1
  y <- pure 1
  let
    a : Int
    a = let b = c in d

    e : Int
    e = let f = g in h
  in x + y

adoLet : Effect Unit
adoLet = do
  logShow $ x + y
  let
    x : Int
    x = 1

    y : Int
    y = 1
  logShow $ x + y
";

#[test]
fn ascending_position() {
    let tokens = lex(SOURCE);
    for window in tokens.windows(2) {
        assert!(window[0].begin <= window[1].begin);
        assert!(window[0].end <= window[1].end);
    }
}

#[test]
fn layout_of_a_whole_module() {
    let expected = r"module Main;0

Identity : Type -> Type;0
Identity a ?{1
  _ : a -> Identity a;1}1;0

Equal : Type -> Type -> Boolean;0
Equal a b !{1
  _ : a -> a -> True;1
  _ : a -> b -> False;1}1;0

Eq : Type -> Constraint;0
Eq a |{1
  eq : a -> a -> Boolean;1}1;0

head : List a -> Maybe a;0
head xs = case xs of{1
  Cons x _ -> Just x;1
  Nil      -> Nothing;1}1;0

main : Effect Unit;0
main = do{1
  log message;1
  log message;1
  attempt do{2
    log message;2
    log message;2}2;1}1;0

ofCollapse : Int;0
ofCollapse =
  case
    do{1 _ <- pure 0;1
       pure 1;1}1
  of{1
    Just x -> x;1
    Nothing -> 0;1}1;0

lambdaMask : List a -> Maybe a;0
lambdaMask xs = case xs of{1
  Cons x _ if (\_ -> true) x ->
    Just x;1
  _ ->
    Nothing;1}1;0

arrowFinishDo : List a -> Maybe a;0
arrowFinishDo xs = case xs of{1
  Cons x _ if do{2 true;2}2 ->
    Just x;1
  _ ->
    Nothing;1}1;0

conditionalDo : Effect Unit;0
conditionalDo = do{1
  log something;1
  if do{2 true;2}2 then do{2
    log something;2}2
  else do{2
    log something;2}2;1}1;0

letIn : Int;0
letIn =
  let{1
    x : Int;1
    x = 1;1

    y : Int;1
    y = 1;1}1
  in
    x + y;0

adoIn : Int;0
adoIn = ado{1
  x <- pure 1;1
  y <- pure 1;1
  let{2
    a : Int;2
    a = let{3 b = c;3}3 in d;2

    e : Int;2
    e = let{3 f = g;3}3 in h;2}2;1}1
  in x + y;0

adoLet : Effect Unit;0
adoLet = do{1
  logShow $ x + y;1
  let{2
    x : Int;2
    x = 1;2

    y : Int;2
    y = 1;2}2;1
  logShow $ x + y;1}1;0
";
    assert_eq!(lex_print(SOURCE), expected);
}

fn count(source: &str, kind: LayoutK) -> usize {
    lex(source).iter().filter(|token| token.kind == TokenK::Layout(kind)).count()
}

#[test]
fn begins_and_ends_balance() {
    assert_eq!(count(SOURCE, LayoutK::Begin), 22);
    assert_eq!(count(SOURCE, LayoutK::End), 22);
    let mut open = 0usize;
    for token in lex(SOURCE) {
        match token.kind {
            TokenK::Layout(LayoutK::Begin) => open += 1,
            TokenK::Layout(LayoutK::End) => {
                assert!(open > 0);
                open -= 1;
            }
            _ => {
                if token.kind != TokenK::Layout(LayoutK::Separator) {
                    assert_eq!(token.depth, open);
                }
            }
        }
    }
    assert_eq!(open, 0);
}

#[test]
fn a_token_that_closes_the_root_adds_one_end() {
    // The arrow stands in the column of the root frame and closes it.
    let source = "a\n-> b";
    assert_eq!(lex_print(source), "a;0}0\n-> b");
    assert_eq!(count(source, LayoutK::Begin), 0);
    assert_eq!(count(source, LayoutK::End), 1);
}

#[test]
fn tokens_and_trivia_give_back_the_source() {
    for source in [SOURCE, "a = 1 -- note\n  {- block -} b\n", "é = \"€\"\n\t𝄞", "", "  \n"] {
        let mut text = String::new();
        let mut at = 0;
        for token in lex(source) {
            if let TokenK::Layout(_) = token.kind {
                assert_eq!(token.begin, token.end);
                continue;
            }
            assert_eq!(token.comment_begin, at);
            assert_eq!(token.comment_end, token.begin);
            text.push_str(&source[token.comment_begin..token.comment_end]);
            text.push_str(&source[token.begin..token.end]);
            at = token.end;
        }
        assert_eq!(text, source);
    }
}
