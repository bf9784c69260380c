use plume::{Lexer, Token, TokenKind};

fn next_cmp_token(lexer: &mut Lexer, kind: TokenKind, lit: &str) -> bool {
    match lexer.next() {
        Some(t) => t.cmp_token(kind, lit),
        None => false,
    }
}

#[test]
fn peek() {
    let mut lexer = Lexer::new("function print_two(a: string, b: char*) -> char*;".to_owned());
    assert_eq!(lexer.peek(), lexer.next()); // keyword 'function'
    assert_eq!(lexer.peek(), lexer.next()); // ident 'print_two'
    assert_eq!(lexer.peek(), lexer.next()); // parens '('
    assert_eq!(lexer.peek(), lexer.next()); // ident 'a'
    assert_eq!(lexer.peek(), lexer.next()); // colon ':'
    assert_eq!(lexer.peek(), lexer.next()); // ident 'string'
    assert_eq!(lexer.peek(), lexer.next()); // comma ','
    assert_eq!(lexer.peek(), lexer.next()); // ident 'b'
    assert_eq!(lexer.peek(), lexer.next()); // colon ':'
    assert_eq!(lexer.peek(), lexer.next()); // ident 'char'
    assert_eq!(lexer.peek(), lexer.next()); // operator '*'
    assert_eq!(lexer.peek(), lexer.next()); // parens ')'
    assert_eq!(lexer.peek(), lexer.next()); // return arrow '->'
    assert_eq!(lexer.peek(), lexer.next()); // ident 'char'
    assert_eq!(lexer.peek(), lexer.next()); // operator '*'
    assert_eq!(lexer.peek(), lexer.next()); // semicolon
    assert_eq!(lexer.peek(), None);
    assert_eq!(lexer.next(), None);
}

#[test]
fn operators() {
    let mut lexer = Lexer::new(
        "
    + ++ += 
    - -- -=
    * *=
    / /=
    % %=
    > >= >> >>=
    < <= << <<=
    == !=
    ! & ~
    "
        .to_owned(),
    );
    assert!(next_cmp_token(&mut lexer, TokenKind::BinaryOperator, "+"));
    assert!(next_cmp_token(&mut lexer, TokenKind::UnaryOperator, "++"));
    assert!(next_cmp_token(&mut lexer, TokenKind::BinaryOperator, "+="));
    assert!(next_cmp_token(&mut lexer, TokenKind::SomeOperator, "-"));
    assert!(next_cmp_token(&mut lexer, TokenKind::UnaryOperator, "--"));
    assert!(next_cmp_token(&mut lexer, TokenKind::BinaryOperator, "-="));
    assert!(next_cmp_token(&mut lexer, TokenKind::SomeOperator, "*"));
    assert!(next_cmp_token(&mut lexer, TokenKind::BinaryOperator, "*="));
    assert!(next_cmp_token(&mut lexer, TokenKind::BinaryOperator, "/"));
    assert!(next_cmp_token(&mut lexer, TokenKind::BinaryOperator, "/="));
    assert!(next_cmp_token(&mut lexer, TokenKind::BinaryOperator, "%"));
    assert!(next_cmp_token(&mut lexer, TokenKind::BinaryOperator, "%="));
    assert!(next_cmp_token(&mut lexer, TokenKind::BinaryOperator, ">"));
    assert!(next_cmp_token(&mut lexer, TokenKind::BinaryOperator, ">="));
    assert!(next_cmp_token(&mut lexer, TokenKind::BinaryOperator, ">>"));
    assert!(next_cmp_token(&mut lexer, TokenKind::BinaryOperator, ">>="));
    assert!(next_cmp_token(&mut lexer, TokenKind::BinaryOperator, "<"));
    assert!(next_cmp_token(&mut lexer, TokenKind::BinaryOperator, "<="));
    assert!(next_cmp_token(&mut lexer, TokenKind::BinaryOperator, "<<"));
    assert!(next_cmp_token(&mut lexer, TokenKind::BinaryOperator, "<<="));
    assert!(next_cmp_token(&mut lexer, TokenKind::BinaryOperator, "=="));
    assert!(next_cmp_token(&mut lexer, TokenKind::BinaryOperator, "!="));
    assert!(next_cmp_token(&mut lexer, TokenKind::UnaryOperator, "!"));
    assert!(next_cmp_token(&mut lexer, TokenKind::SomeOperator, "&"));
    assert!(next_cmp_token(&mut lexer, TokenKind::UnaryOperator, "~"));
}

#[test]
fn empty_input_has_no_tokens() {
    let mut lexer = Lexer::new(String::new());
    assert_eq!(lexer.peek(), None);
    assert_eq!(lexer.next(), None);
}

#[test]
fn peek_keeps_position_and_matches_next() {
    let mut lexer = Lexer::new("let x: int = 5 ".to_owned());
    let a = lexer.peek();
    let b = lexer.peek();
    let c = lexer.next();
    assert_eq!(a, b);
    assert_eq!(a, c);
    assert_eq!(c, Some(Token::new(TokenKind::Keyword, "let", 1, 1)));
    assert_eq!(lexer.next(), Some(Token::new(TokenKind::Ident, "x", 1, 5)));
}

#[test]
fn number_separators_are_dropped() {
    let mut lexer = Lexer::new("123_456.789_0 ".to_owned());
    let t = lexer.next().unwrap();
    assert!(t.cmp_token(TokenKind::Number, "123456.7890"));
}

#[test]
fn number_stops_at_second_dot() {
    let mut lexer = Lexer::new("1.2.3 ".to_owned());
    assert!(lexer.next().unwrap().cmp_token(TokenKind::Number, "1.2"));
}

#[test]
fn number_keeps_trailing_dot() {
    let mut lexer = Lexer::new("12. ".to_owned());
    assert!(lexer.next().unwrap().cmp_token(TokenKind::Number, "12."));
}

#[test]
fn comments_are_trimmed() {
    let mut lexer = Lexer::new("//  a line  \n/* block\n body */ x".to_owned());
    assert!(lexer.next().unwrap().cmp_token(TokenKind::Comment, "a line"));
    assert!(lexer.next().unwrap().cmp_token(TokenKind::Comment, "block\n body"));
    assert!(lexer.next().unwrap().cmp_token(TokenKind::Ident, "x"));
}

#[test]
fn strings_chars_bools_and_keywords() {
    let mut lexer = Lexer::new("\"hi there\" 'c' true false while name_1 -> ".to_owned());
    assert!(lexer.next().unwrap().cmp_token(TokenKind::String, "hi there"));
    assert!(lexer.next().unwrap().cmp_token(TokenKind::Char, "c"));
    assert!(lexer.next().unwrap().cmp_token(TokenKind::Bool, "true"));
    assert!(lexer.next().unwrap().cmp_token(TokenKind::Bool, "false"));
    assert!(lexer.next().unwrap().cmp_token(TokenKind::Keyword, "while"));
    assert!(lexer.next().unwrap().cmp_token(TokenKind::Ident, "name_1"));
    assert!(lexer.next().unwrap().cmp_token(TokenKind::ReturnArrow, "->"));
}

#[test]
fn punctuation_and_unknown_characters() {
    let mut lexer = Lexer::new("( ) [ ] { } , : ; @ ".to_owned());
    assert!(lexer.next().unwrap().cmp_token(TokenKind::Parens, "("));
    assert!(lexer.next().unwrap().cmp_token(TokenKind::Parens, ")"));
    assert!(lexer.next().unwrap().cmp_token(TokenKind::Brackets, "["));
    assert!(lexer.next().unwrap().cmp_token(TokenKind::Brackets, "]"));
    assert!(lexer.next().unwrap().cmp_token(TokenKind::Braces, "{"));
    assert!(lexer.next().unwrap().cmp_token(TokenKind::Braces, "}"));
    assert!(lexer.next().unwrap().cmp_token(TokenKind::Comma, ","));
    assert!(lexer.next().unwrap().cmp_token(TokenKind::Colon, ":"));
    assert!(lexer.next().unwrap().cmp_token(TokenKind::Semicolon, ";"));
    assert!(lexer.next().unwrap().cmp_token(TokenKind::Whitespace, "@"));
}

#[test]
fn lines_and_columns() {
    let mut lexer = Lexer::new("a\n  bc d".to_owned());
    assert_eq!(lexer.next(), Some(Token::new(TokenKind::Ident, "a", 1, 1)));
    assert_eq!(lexer.next(), Some(Token::new(TokenKind::Ident, "bc", 2, 3)));
}

#[test]
fn last_character_is_read() {
    let mut lexer = Lexer::new("a+b".to_owned());
    assert!(lexer.next().unwrap().cmp_token(TokenKind::Ident, "a"));
    assert!(lexer.next().unwrap().cmp_token(TokenKind::BinaryOperator, "+"));
    assert!(lexer.next().unwrap().cmp_token(TokenKind::Ident, "b"));
    assert_eq!(lexer.next(), None);
}

#[test]
fn trailing_whitespace_gives_no_token() {
    let mut lexer = Lexer::new("x   \n\t ".to_owned());
    assert!(lexer.next().unwrap().cmp_token(TokenKind::Ident, "x"));
    assert_eq!(lexer.peek(), None);
    assert_eq!(lexer.next(), None);
}

#[test]
fn signature_ends_with_semicolon() {
    let mut lexer = Lexer::new("function print_two(a: string, b: char*) -> char*;".to_owned());
    let mut last = None;
    let mut count = 0;
    while let Some(t) = lexer.next() {
        count += 1;
        last = Some(t);
    }
    assert_eq!(count, 16);
    assert!(last.unwrap().cmp_token(TokenKind::Semicolon, ";"));
}

#[test]
fn number_then_punctuation_keeps_every_character() {
    let mut lexer = Lexer::new("a;12.5;".to_owned());
    let mut text = String::new();
    while let Some(t) = lexer.next() {
        text.push_str(&t.literal);
    }
    assert_eq!(text, "a;12.5;");
}
