//! The lexer: from the characters of a source text to a flat row of tokens.
use vstd::prelude::*;

use crate::text::{
    chars_of, concat3, debug_str, decimal, decimal_value, is_digit, is_ident_char, is_ident_start,
    is_space, quoted, signed_text, slice_text, views,
};

verus! {

/// A token of a source text.
#[derive(Debug)]
pub enum Token {
    Ident(String),
    LBrace,
    RBrace,
    LParen,
    RParen,
    LAngle,
    RAngle,
    Colon,
    DoubleColon,
    Comma,
    Ampersand,
    Star,
    Arrow,
    Dot,
    Semicolon,
    Equals,
    IntLit(i64),
    Eof,
}

/// A token, as contracts speak of it. The number of an integer literal is not bounded here.
pub enum Tok {
    Ident(Seq<char>),
    LBrace,
    RBrace,
    LParen,
    RParen,
    LAngle,
    RAngle,
    Colon,
    DoubleColon,
    Comma,
    Ampersand,
    Star,
    Arrow,
    Dot,
    Semicolon,
    Equals,
    IntLit(int),
    Eof,
}

impl View for Token {
    type V = Tok;

    open spec fn view(&self) -> Tok {
        match self {
            Token::Ident(s) => Tok::Ident(s@),
            Token::LBrace => Tok::LBrace,
            Token::RBrace => Tok::RBrace,
            Token::LParen => Tok::LParen,
            Token::RParen => Tok::RParen,
            Token::LAngle => Tok::LAngle,
            Token::RAngle => Tok::RAngle,
            Token::Colon => Tok::Colon,
            Token::DoubleColon => Tok::DoubleColon,
            Token::Comma => Tok::Comma,
            Token::Ampersand => Tok::Ampersand,
            Token::Star => Tok::Star,
            Token::Arrow => Tok::Arrow,
            Token::Dot => Tok::Dot,
            Token::Semicolon => Tok::Semicolon,
            Token::Equals => Tok::Equals,
            Token::IntLit(n) => Tok::IntLit(*n as int),
            Token::Eof => Tok::Eof,
        }
    }
}

/// What a row of tokens holds.
pub open spec fn toks(tokens: Seq<Token>) -> Seq<Tok> {
    views(tokens)
}

/// The runs of characters that are taken as one piece.
#[derive(Clone, Copy)]
pub enum Run {
    /// The digits of an integer literal.
    Digits,
    /// The characters of an identifier.
    Word,
    /// A comment, up to the end of its line.
    Comment,
}

/// Whether a character belongs to a run.
pub open spec fn in_run(run: Run, c: char) -> bool {
    match run {
        Run::Digits => is_digit(c),
        Run::Word => is_ident_char(c),
        Run::Comment => c != '\n',
    }
}

/// The first position from `i` on whose character does not belong to the run.
pub open spec fn run_end(s: Seq<char>, i: int, run: Run) -> int
    decreases s.len() - i,
{
    if 0 <= i < s.len() && in_run(run, s[i]) {
        run_end(s, i + 1, run)
    } else {
        i
    }
}

/// The tokens that are a single character.
pub open spec fn single(c: char) -> Option<Tok> {
    if c == '{' {
        Some(Tok::LBrace)
    } else if c == '}' {
        Some(Tok::RBrace)
    } else if c == '(' {
        Some(Tok::LParen)
    } else if c == ')' {
        Some(Tok::RParen)
    } else if c == '<' {
        Some(Tok::LAngle)
    } else if c == '>' {
        Some(Tok::RAngle)
    } else if c == ':' {
        Some(Tok::Colon)
    } else if c == ',' {
        Some(Tok::Comma)
    } else if c == '&' {
        Some(Tok::Ampersand)
    } else if c == '*' {
        Some(Tok::Star)
    } else if c == '.' {
        Some(Tok::Dot)
    } else if c == ';' {
        Some(Tok::Semicolon)
    } else if c == '=' {
        Some(Tok::Equals)
    } else {
        None
    }
}

/// Whether `c` and `d` stand at `i` and right behind it.
pub open spec fn pair_at(s: Seq<char>, i: int, c: char, d: char) -> bool {
    0 <= i && i + 1 < s.len() && s[i] == c && s[i + 1] == d
}

/// What stands at `i`: a token or nothing, and the position behind it. White space, comments up to
/// the end of their line, and characters that no token begins with are nothing. Of two tokens that
/// begin alike the longer one is taken.
pub open spec fn lexeme_at(s: Seq<char>, i: int) -> (Option<Tok>, int) {
    let c = s[i];
    if is_space(c) {
        (None, i + 1)
    } else if pair_at(s, i, '/', '/') {
        (None, run_end(s, i + 2, Run::Comment))
    } else if pair_at(s, i, '-', '>') {
        (Some(Tok::Arrow), i + 2)
    } else if pair_at(s, i, ':', ':') {
        (Some(Tok::DoubleColon), i + 2)
    } else if is_digit(c) {
        let end = run_end(s, i + 1, Run::Digits);
        (Some(Tok::IntLit(decimal_value(s.subrange(i, end)))), end)
    } else if single(c) is Some {
        (single(c), i + 1)
    } else if is_ident_start(c) {
        let end = run_end(s, i + 1, Run::Word);
        (Some(Tok::Ident(s.subrange(i, end))), end)
    } else {
        (None, i + 1)
    }
}

/// The tokens of the text from `i` on, the end of the text last.
pub open spec fn lex_from(s: Seq<char>, i: int) -> Seq<Tok>
    decreases s.len() - i,
{
    if 0 <= i < s.len() {
        let (token, end) = lexeme_at(s, i);
        proof {
            lemma_lexeme_end(s, i);
        }
        match token {
            Some(t) => seq![t] + lex_from(s, end),
            None => lex_from(s, end),
        }
    } else {
        seq![Tok::Eof]
    }
}

/// The tokens of a source text.
pub open spec fn lex(s: Seq<char>) -> Seq<Tok> {
    lex_from(s, 0)
}

/// Whether the number of each integer literal among the tokens is an `i64`.
pub open spec fn fits(tokens: Seq<Tok>) -> bool {
    forall|k: int|
        0 <= k < tokens.len() ==> (#[trigger] tokens[k] matches Tok::IntLit(n) ==> n <= i64::MAX)
}

/// Whether each integer literal of a source text is an `i64`.
pub open spec fn literals_fit_spec(s: Seq<char>) -> bool {
    fits(lex(s))
}

/// The end of the text is the last token and no other one.
pub open spec fn ended(tokens: Seq<Tok>) -> bool {
    &&& tokens.len() > 0
    &&& forall|k: int|
        0 <= k < tokens.len() ==> (#[trigger] tokens[k] == Tok::Eof <==> k == tokens.len() - 1)
}

/// A run is made of its characters and goes no further.
pub proof fn lemma_run_end(s: Seq<char>, i: int, run: Run)
    requires
        0 <= i <= s.len(),
    ensures
        i <= run_end(s, i, run) <= s.len(),
        forall|k: int| i <= k < run_end(s, i, run) ==> in_run(run, #[trigger] s[k]),
        run_end(s, i, run) < s.len() ==> !in_run(run, s[run_end(s, i, run)]),
    decreases s.len() - i,
{
    if i < s.len() && in_run(run, s[i]) {
        lemma_run_end(s, i + 1, run);
    }
}

/// What stands at a place ends behind it, and is not the end of the text.
pub proof fn lemma_lexeme_end(s: Seq<char>, i: int)
    requires
        0 <= i < s.len(),
    ensures
        i < lexeme_at(s, i).1 <= s.len(),
        lexeme_at(s, i).0 != Some(Tok::Eof),
{
    lemma_run_end(s, i + 1, Run::Digits);
    lemma_run_end(s, i + 1, Run::Word);
    if i + 2 <= s.len() {
        lemma_run_end(s, i + 2, Run::Comment);
    }
}

proof fn lemma_lex_from_ended(s: Seq<char>, i: int)
    requires
        0 <= i <= s.len(),
    ensures
        ended(lex_from(s, i)),
    decreases s.len() - i,
{
    if i < s.len() {
        lemma_lexeme_end(s, i);
        let (token, end) = lexeme_at(s, i);
        lemma_lex_from_ended(s, end);
        let rest = lex_from(s, end);
        if token is Some {
            let all = seq![token->0] + rest;
            assert forall|k: int| 0 <= k < all.len() implies (#[trigger] all[k] == Tok::Eof <==> k
                == all.len() - 1) by {
                if k > 0 {
                    assert(all[k] == rest[k - 1]);
                }
            }
        }
    }
}

/// The tokens of a source text end with the end of the text, which occurs nowhere else among them.
pub proof fn law_lex_ended(s: Seq<char>)
    ensures
        ended(lex(s)),
{
    lemma_lex_from_ended(s, 0);
}

impl Clone for Token {
    fn clone(&self) -> (r: Self)
        ensures
            r@ == self@,
    {
        match self {
            Token::Ident(s) => Token::Ident(s.clone()),
            Token::LBrace => Token::LBrace,
            Token::RBrace => Token::RBrace,
            Token::LParen => Token::LParen,
            Token::RParen => Token::RParen,
            Token::LAngle => Token::LAngle,
            Token::RAngle => Token::RAngle,
            Token::Colon => Token::Colon,
            Token::DoubleColon => Token::DoubleColon,
            Token::Comma => Token::Comma,
            Token::Ampersand => Token::Ampersand,
            Token::Star => Token::Star,
            Token::Arrow => Token::Arrow,
            Token::Dot => Token::Dot,
            Token::Semicolon => Token::Semicolon,
            Token::Equals => Token::Equals,
            Token::IntLit(n) => Token::IntLit(*n),
            Token::Eof => Token::Eof,
        }
    }
}

/// The number of the digits from `from` up to `to`, if it is an `i64`.
fn read_digits(chars: &Vec<char>, from: usize, to: usize) -> (r: Option<i64>)
    requires
        from <= to <= chars@.len(),
        forall|k: int| from <= k < to ==> is_digit(#[trigger] chars@[k]),
    ensures
        match r {
            Some(n) => n == decimal_value(chars@.subrange(from as int, to as int)),
            None => decimal_value(chars@.subrange(from as int, to as int)) > i64::MAX,
        },
{
    let mut value: Option<i64> = Some(0);
    let mut i: usize = from;
    while i < to
        invariant
            from <= i <= to <= chars@.len(),
            forall|k: int| from <= k < to ==> is_digit(#[trigger] chars@[k]),
            match value {
                Some(n) => n >= 0 && n == decimal_value(chars@.subrange(from as int, i as int)),
                None => decimal_value(chars@.subrange(from as int, i as int)) > i64::MAX,
            },
        decreases to - i,
    {
        let digit: i64 = (chars[i] as u32 - 48) as i64;
        proof {
            let longer = chars@.subrange(from as int, i + 1);
            assert(longer.drop_last() =~= chars@.subrange(from as int, i as int));
            assert(longer.last() == chars@[i as int]);
            assert(is_digit(chars@[i as int]));
        }
        value = match value {
            Some(n) => match n.checked_mul(10) {
                Some(m) => m.checked_add(digit),
                None => None,
            },
            None => None,
        };
        i = i + 1;
    }
    value
}

/// Whether a character belongs to a run.
fn belongs(run: Run, c: char) -> (r: bool)
    ensures
        r == in_run(run, c),
{
    match run {
        Run::Digits => '0' <= c && c <= '9',
        Run::Word => c.is_alphanumeric() || c == '_',
        Run::Comment => c != '\n',
    }
}

/// The position behind the run of characters that begins at `from`.
fn scan_run(chars: &Vec<char>, from: usize, run: Run) -> (end: usize)
    requires
        from <= chars@.len(),
    ensures
        end == run_end(chars@, from as int, run),
{
    let mut i: usize = from;
    while i < chars.len() && belongs(run, chars[i])
        invariant
            from <= i <= chars@.len(),
            run_end(chars@, from as int, run) == run_end(chars@, i as int, run),
        decreases chars.len() - i,
    {
        i = i + 1;
    }
    i
}

/// The token that a single character is.
fn single_token(c: char) -> (r: Option<Token>)
    ensures
        match r {
            Some(t) => single(c) == Some(t@),
            None => single(c) is None,
        },
{
    match c {
        '{' => Some(Token::LBrace),
        '}' => Some(Token::RBrace),
        '(' => Some(Token::LParen),
        ')' => Some(Token::RParen),
        '<' => Some(Token::LAngle),
        '>' => Some(Token::RAngle),
        ':' => Some(Token::Colon),
        ',' => Some(Token::Comma),
        '&' => Some(Token::Ampersand),
        '*' => Some(Token::Star),
        '.' => Some(Token::Dot),
        ';' => Some(Token::Semicolon),
        '=' => Some(Token::Equals),
        _ => None,
    }
}

/// Whether `c` and `d` stand at `i` and right behind it.
fn is_pair(chars: &Vec<char>, i: usize, c: char, d: char) -> (r: bool)
    requires
        i < chars@.len(),
    ensures
        r == pair_at(chars@, i as int, c, d),
{
    chars[i] == c && chars.len() - i > 1 && chars[i + 1] == d
}

/// The tokens of a source text, unless an integer literal in it is no `i64`.
pub fn try_tokenize(src: &str) -> (r: Option<Vec<Token>>)
    ensures
        match r {
            Some(tokens) => literals_fit_spec(src@) && toks(tokens@) == lex(src@) && ended(
                toks(tokens@),
            ),
            None => !literals_fit_spec(src@),
        },
{
    let chars: Vec<char> = chars_of(src);
    let mut tokens: Vec<Token> = Vec::new();
    let mut i: usize = 0;
    while i < chars.len()
        invariant
            chars@ == src@,
            i <= chars@.len(),
            lex(src@) == toks(tokens@) + lex_from(src@, i as int),
            fits(toks(tokens@)),
        decreases chars.len() - i,
    {
        let c: char = chars[i];
        let ghost start = i as int;
        let ghost before = tokens@;
        proof {
            lemma_lexeme_end(chars@, start);
            lemma_run_end(chars@, start + 1, Run::Digits);
        }
        if c.is_whitespace() {
            i = i + 1;
        } else if is_pair(&chars, i, '/', '/') {
            i = scan_run(&chars, i + 2, Run::Comment);
        } else if is_pair(&chars, i, '-', '>') {
            tokens.push(Token::Arrow);
            i = i + 2;
        } else if is_pair(&chars, i, ':', ':') {
            tokens.push(Token::DoubleColon);
            i = i + 2;
        } else if '0' <= c && c <= '9' {
            let end: usize = scan_run(&chars, i + 1, Run::Digits);
            match read_digits(&chars, i, end) {
                Some(n) => {
                    tokens.push(Token::IntLit(n));
                },
                None => {
                    assert(lex(src@)[before.len() as int] == lexeme_at(src@, start).0->0);
                    return None;
                },
            }
            i = end;
        } else {
            match single_token(c) {
                Some(t) => {
                    tokens.push(t);
                    i = i + 1;
                },
                None => {
                    if c.is_alphabetic() || c == '_' {
                        let end: usize = scan_run(&chars, i + 1, Run::Word);
                        tokens.push(Token::Ident(slice_text(&chars, i, end)));
                        i = end;
                    } else {
                        i = i + 1;
                    }
                },
            }
        }
        proof {
            let (token, end) = lexeme_at(src@, start);
            assert(i == end);
            match token {
                Some(t) => {
                    assert(toks(tokens@) =~= toks(before).push(t));
                    assert(toks(before) + (seq![t] + lex_from(src@, end)) =~= toks(tokens@)
                        + lex_from(src@, end));
                },
                None => {},
            }
        }
    }
    proof {
        assert(lex_from(src@, i as int) == seq![Tok::Eof]);
        assert(toks(tokens@).push(Tok::Eof) =~= lex(src@));
    }
    let ghost before = tokens@;
    tokens.push(Token::Eof);
    proof {
        assert(toks(tokens@) =~= toks(before).push(Tok::Eof));
        law_lex_ended(src@);
    }
    Some(tokens)
}

/// Whether each integer literal of a source text is an `i64`.
pub fn literals_fit(src: &str) -> (r: bool)
    ensures
        r == literals_fit_spec(src@),
{
    try_tokenize(src).is_some()
}

/// The tokens of a source text.
pub fn tokenize(src: &str) -> (tokens: Vec<Token>)
    requires
        literals_fit_spec(src@),
    ensures
        toks(tokens@) == lex(src@),
        ended(toks(tokens@)),
{
    match try_tokenize(src) {
        Some(tokens) => tokens,
        None => Vec::new(),
    }
}

/// How a token is named in an error message.
pub open spec fn shown(t: Tok) -> Seq<char> {
    match t {
        Tok::Ident(s) => "Ident("@ + quoted(s) + ")"@,
        Tok::LBrace => "LBrace"@,
        Tok::RBrace => "RBrace"@,
        Tok::LParen => "LParen"@,
        Tok::RParen => "RParen"@,
        Tok::LAngle => "LAngle"@,
        Tok::RAngle => "RAngle"@,
        Tok::Colon => "Colon"@,
        Tok::DoubleColon => "DoubleColon"@,
        Tok::Comma => "Comma"@,
        Tok::Ampersand => "Ampersand"@,
        Tok::Star => "Star"@,
        Tok::Arrow => "Arrow"@,
        Tok::Dot => "Dot"@,
        Tok::Semicolon => "Semicolon"@,
        Tok::Equals => "Equals"@,
        Tok::IntLit(n) => "IntLit("@ + decimal(n) + ")"@,
        Tok::Eof => "Eof"@,
    }
}

impl Token {
    /// How the token is named in an error message.
    pub fn show(&self) -> (r: String)
        ensures
            r@ == shown(self@),
    {
        match self {
            Token::Ident(s) => concat3("Ident(", debug_str(s.as_str()).as_str(), ")"),
            Token::LBrace => "LBrace".to_owned(),
            Token::RBrace => "RBrace".to_owned(),
            Token::LParen => "LParen".to_owned(),
            Token::RParen => "RParen".to_owned(),
            Token::LAngle => "LAngle".to_owned(),
            Token::RAngle => "RAngle".to_owned(),
            Token::Colon => "Colon".to_owned(),
            Token::DoubleColon => "DoubleColon".to_owned(),
            Token::Comma => "Comma".to_owned(),
            Token::Ampersand => "Ampersand".to_owned(),
            Token::Star => "Star".to_owned(),
            Token::Arrow => "Arrow".to_owned(),
            Token::Dot => "Dot".to_owned(),
            Token::Semicolon => "Semicolon".to_owned(),
            Token::Equals => "Equals".to_owned(),
            Token::IntLit(n) => concat3("IntLit(", signed_text(*n).as_str(), ")"),
            Token::Eof => "Eof".to_owned(),
        }
    }

    /// Whether two tokens are the same.
    pub fn same(&self, other: &Token) -> (r: bool)
        ensures
            r == (self@ == other@),
    {
        match (self, other) {
            (Token::Ident(a), Token::Ident(b)) => *a == *b,
            (Token::LBrace, Token::LBrace) => true,
            (Token::RBrace, Token::RBrace) => true,
            (Token::LParen, Token::LParen) => true,
            (Token::RParen, Token::RParen) => true,
            (Token::LAngle, Token::LAngle) => true,
            (Token::RAngle, Token::RAngle) => true,
            (Token::Colon, Token::Colon) => true,
            (Token::DoubleColon, Token::DoubleColon) => true,
            (Token::Comma, Token::Comma) => true,
            (Token::Ampersand, Token::Ampersand) => true,
            (Token::Star, Token::Star) => true,
            (Token::Arrow, Token::Arrow) => true,
            (Token::Dot, Token::Dot) => true,
            (Token::Semicolon, Token::Semicolon) => true,
            (Token::Equals, Token::Equals) => true,
            (Token::IntLit(a), Token::IntLit(b)) => *a == *b,
            (Token::Eof, Token::Eof) => true,
            _ => false,
        }
    }
}

} // verus!
