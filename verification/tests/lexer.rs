use toylang::toylang::lexer::{literals_fit, tokenize, try_tokenize, Token};

fn lexed(src: &str) -> String {
    assert!(literals_fit(src));
    format!("{:?}", tokenize(src))
}

#[test]
fn all_tokens() {
    assert_eq!(
        lexed("name { } ( ) < > : :: , & * -> . ; = 42"),
        "[Ident(\"name\"), LBrace, RBrace, LParen, RParen, LAngle, RAngle, Colon, DoubleColon, \
         Comma, Ampersand, Star, Arrow, Dot, Semicolon, Equals, IntLit(42), Eof]"
    );
}

#[test]
fn tokens_without_gaps() {
    assert_eq!(
        lexed("v.push(Point{x:1,y:2});"),
        "[Ident(\"v\"), Dot, Ident(\"push\"), LParen, Ident(\"Point\"), LBrace, Ident(\"x\"), \
         Colon, IntLit(1), Comma, Ident(\"y\"), Colon, IntLit(2), RBrace, RParen, Semicolon, Eof]"
    );
}

#[test]
fn double_colon_before_colon() {
    assert_eq!(lexed("Vec::new"), "[Ident(\"Vec\"), DoubleColon, Ident(\"new\"), Eof]");
    assert_eq!(lexed(": :"), "[Colon, Colon, Eof]");
    assert_eq!(lexed(":::"), "[DoubleColon, Colon, Eof]");
}

#[test]
fn empty_text() {
    assert_eq!(lexed(""), "[Eof]");
    assert_eq!(lexed(" \t\r\n"), "[Eof]");
}

#[test]
fn comments_go_to_the_end_of_the_line() {
    assert_eq!(lexed("a // b c\nd"), "[Ident(\"a\"), Ident(\"d\"), Eof]");
    assert_eq!(lexed("a//b"), "[Ident(\"a\"), Eof]");
    assert_eq!(lexed("//"), "[Eof]");
}

#[test]
fn unknown_characters_are_passed_over() {
    assert_eq!(lexed("a @ # b"), "[Ident(\"a\"), Ident(\"b\"), Eof]");
    assert_eq!(lexed("a-b / c"), "[Ident(\"a\"), Ident(\"b\"), Ident(\"c\"), Eof]");
    assert_eq!(lexed("- >"), "[RAngle, Eof]");
    assert_eq!(lexed("-5"), "[IntLit(5), Eof]");
}

#[test]
fn identifiers() {
    assert_eq!(lexed("_a1 A_b x9y"), "[Ident(\"_a1\"), Ident(\"A_b\"), Ident(\"x9y\"), Eof]");
    assert_eq!(lexed("9x"), "[IntLit(9), Ident(\"x\"), Eof]");
}

#[test]
fn identifiers_beyond_ascii() {
    assert_eq!(lexed("gr\u{f6}\u{df}e"), "[Ident(\"gr\u{f6}\u{df}e\"), Eof]");
    // A superscript digit goes on with an identifier but begins none.
    assert_eq!(lexed("x\u{b2} \u{b2}"), "[Ident(\"x\u{b2}\"), Eof]");
}

#[test]
fn white_space_beyond_ascii() {
    assert_eq!(lexed("a\u{a0}b\u{2003}c"), "[Ident(\"a\"), Ident(\"b\"), Ident(\"c\"), Eof]");
}

#[test]
fn largest_literal() {
    assert_eq!(lexed("9223372036854775807"), "[IntLit(9223372036854775807), Eof]");
    assert_eq!(lexed("0009223372036854775807"), "[IntLit(9223372036854775807), Eof]");
    assert!(!literals_fit("9223372036854775808"));
    assert!(try_tokenize("fn f() { 99999999999999999999 }").is_none());
    assert!(literals_fit("// 99999999999999999999"));
}

#[test]
fn only_the_last_token_is_the_end() {
    let tokens = tokenize("struct P { x: i32 }");
    for (i, token) in tokens.iter().enumerate() {
        assert_eq!(token.same(&Token::Eof), i + 1 == tokens.len());
    }
}

#[test]
fn shown_tokens() {
    assert_eq!(Token::Ident("a\"b".to_string()).show(), "Ident(\"a\\\"b\")");
    assert_eq!(Token::IntLit(-3).show(), "IntLit(-3)");
    for token in tokenize("name { } ( ) < > : :: , & * -> . ; = 42") {
        assert_eq!(token.show(), format!("{:?}", token));
        assert!(token.same(&token.clone()));
    }
    assert!(!Token::IntLit(1).same(&Token::IntLit(2)));
    assert!(!Token::Ident("a".to_string()).same(&Token::Ident("b".to_string())));
    assert!(!Token::Colon.same(&Token::DoubleColon));
}

#[test]
fn gaps_do_not_matter() {
    let tight = "fn f(v:&Vec<Point>)->usize{v.len()}";
    let wide = "// head\nfn f ( v : & Vec < Point > ) -> usize // sig\n { @ v . len ( ) } // end";
    assert_eq!(lexed(tight), lexed(wide));
}
