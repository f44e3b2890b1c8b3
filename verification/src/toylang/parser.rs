//! The parser: recursive descent over the tokens of a source text.
use vstd::prelude::*;

use crate::names::NameMap;
use crate::text::{concat2, concat3, concat4, join_strings, str_eq, views};
use crate::toylang::ast::{lemma_expr_view, Expr, FnBody, FnBodyView, Stmt, StmtView};
use crate::toylang::grammar::{
    arg_list_at, args_at, body_at, call_args_at, calls_at, expect_at, expr_at, field_at, fields_at,
    fn_at, ident_at, init_at, init_list_at, inits_at, is_at, items_at, lemma_call_args_forward,
    lemma_expr_forward, lemma_fields_onward, lemma_init_forward, lemma_item_forward,
    lemma_let_forward, lemma_params_onward, lemma_primary_forward, lemma_type_forward, let_at,
    param_at, param_list_at, params_at, prepend, prepend_stmts, primary_at, primitive_type_at,
    program, program_at, registry_of, struct_at, type_args_at, type_at, ItemView, Parsed,
};
use crate::toylang::lexer::{ended, lex, literals_fit_spec, tokenize, toks, Tok, Token};
use crate::toylang::registry::{
    ToyField, ToyFieldType, ToyFunction, ToyParam, ToyStruct, ToylangRegistry,
};

verus! {

/// A parser at a place of a row of tokens.
pub struct Parser {
    tokens: Vec<Token>,
    pos: usize,
}

/// Whether a result and the place reached are what the grammar gives.
pub open spec fn agrees<T: View>(r: Result<T, String>, end: int, expected: Parsed<T::V>) -> bool {
    match (r, expected) {
        (Ok(value), Ok((view, place))) => value@ == view && end == place,
        (Err(message), Err((text, place))) => message@ == text && end == place,
        _ => false,
    }
}

/// Whether a row of results and the place reached are what the grammar gives.
pub open spec fn agrees_all<T: View>(
    r: Result<Vec<T>, String>,
    end: int,
    expected: Parsed<Seq<T::V>>,
) -> bool {
    match (r, expected) {
        (Ok(values), Ok((items, place))) => views(values@) == items && end == place,
        (Err(message), Err((text, place))) => message@ == text && end == place,
        _ => false,
    }
}

/// Items in front of items in front of an outcome.
proof fn lemma_prepend<T>(items: Seq<T>, next: T, rest: Parsed<Seq<T>>)
    ensures
        prepend(items, prepend(seq![next], rest)) == prepend(items.push(next), rest),
{
    if let Ok((more, _)) = rest {
        assert(items + (seq![next] + more) =~= items.push(next) + more);
    }
}

/// No items in front of an outcome, and items in front of nothing.
proof fn lemma_prepend_ends<T>(items: Seq<T>, rest: Parsed<Seq<T>>, end: int)
    ensures
        prepend(Seq::empty(), rest) == rest,
        prepend(items, Ok((Seq::empty(), end))) == Ok::<(Seq<T>, int), (Seq<char>, int)>(
            (items, end),
        ),
{
    if let Ok((more, _)) = rest {
        assert(Seq::empty() + more =~= more);
    }
    assert(items + Seq::empty() =~= items);
}

proof fn lemma_prepend_stmt(stmts: Seq<StmtView>, next: StmtView, rest: Parsed<FnBodyView>)
    ensures
        prepend_stmts(stmts, prepend_stmts(seq![next], rest)) == prepend_stmts(
            stmts.push(next),
            rest,
        ),
{
    if let Ok((body, _)) = rest {
        assert(stmts + (seq![next] + body.stmts) =~= stmts.push(next) + body.stmts);
    }
}

proof fn lemma_prepend_no_stmts(rest: Parsed<FnBodyView>)
    ensures
        prepend_stmts(Seq::empty(), rest) == rest,
{
    if let Ok((body, _)) = rest {
        assert(Seq::empty() + body.stmts =~= body.stmts);
    }
}

impl Parser {
    /// The tokens.
    pub closed spec fn toks(&self) -> Seq<Tok> {
        toks(self.tokens@)
    }

    /// The place of the next token.
    pub closed spec fn place(&self) -> int {
        self.pos as int
    }

    /// The row has an end, and the parser stands at a token of it.
    pub open spec fn wf(&self) -> bool {
        &&& ended(self.toks())
        &&& 0 <= self.place() < self.toks().len()
    }

    /// A parser at the first token.
    pub fn new(tokens: Vec<Token>) -> (r: Self)
        requires
            ended(toks(tokens@)),
        ensures
            r.wf(),
            r.toks() == toks(tokens@),
            r.place() == 0,
    {
        Parser { tokens, pos: 0 }
    }

    /// The next token.
    pub fn peek(&self) -> (r: &Token)
        requires
            self.wf(),
        ensures
            r@ == self.toks()[self.place()],
    {
        &self.tokens[self.pos]
    }

    /// The token behind the next one.
    pub fn peek2(&self) -> (r: Option<&Token>)
        requires
            self.wf(),
        ensures
            match r {
                Some(t) => self.place() + 1 < self.toks().len() && t@ == self.toks()[self.place()
                    + 1],
                None => self.place() + 1 == self.toks().len(),
            },
    {
        if self.tokens.len() - self.pos > 1 {
            Some(&self.tokens[self.pos + 1])
        } else {
            None
        }
    }

    /// Whether the next token is `token`.
    fn at(&self, token: &Token) -> (r: bool)
        requires
            self.wf(),
        ensures
            r == is_at(self.toks(), self.place(), token@),
    {
        self.peek().same(token)
    }

    /// Takes the next token. The end of the text stays where it is.
    pub fn consume(&mut self) -> (r: Token)
        requires
            old(self).wf(),
        ensures
            final(self).wf(),
            final(self).toks() == old(self).toks(),
            r@ == old(self).toks()[old(self).place()],
            final(self).place() == (if r@ == Tok::Eof {
                old(self).place()
            } else {
                old(self).place() + 1
            }),
    {
        let t: Token = self.tokens[self.pos].clone();
        assert(t@ == self.toks()[self.place()]);
        if self.tokens.len() - self.pos > 1 {
            self.pos = self.pos + 1;
        }
        t
    }

    /// Takes an identifier.
    pub fn expect_ident(&mut self) -> (r: Result<String, String>)
        requires
            old(self).wf(),
        ensures
            final(self).wf(),
            final(self).toks() == old(self).toks(),
            agrees(r, final(self).place(), ident_at(old(self).toks(), old(self).place())),
    {
        match self.consume() {
            Token::Ident(s) => Ok(s),
            t => Err(concat2("expected identifier, got ", t.show().as_str())),
        }
    }

    /// Takes the token `expected`.
    pub fn expect(&mut self, expected: Token) -> (r: Result<(), String>)
        requires
            old(self).wf(),
        ensures
            final(self).wf(),
            final(self).toks() == old(self).toks(),
            agrees(
                r,
                final(self).place(),
                expect_at(old(self).toks(), old(self).place(), expected@),
            ),
    {
        let t: Token = self.consume();
        if t.same(&expected) {
            Ok(())
        } else {
            Err(concat4("expected ", expected.show().as_str(), ", got ", t.show().as_str()))
        }
    }

    fn parse_field(&mut self) -> (r: Result<ToyField, String>)
        requires
            old(self).wf(),
        ensures
            final(self).wf(),
            final(self).toks() == old(self).toks(),
            agrees(r, final(self).place(), field_at(old(self).toks(), old(self).place())),
    {
        let name: String = self.expect_ident()?;
        self.expect(Token::Colon)?;
        let rust_type: ToyFieldType = self.parse_primitive_type()?;
        Ok(ToyField { name, rust_type })
    }

    fn parse_primitive_type(&mut self) -> (r: Result<ToyFieldType, String>)
        requires
            old(self).wf(),
        ensures
            final(self).wf(),
            final(self).toks() == old(self).toks(),
            agrees(r, final(self).place(), primitive_type_at(old(self).toks(), old(self).place())),
    {
        let s: String = self.expect_ident()?;
        if str_eq(s.as_str(), "i32") {
            Ok(ToyFieldType::I32)
        } else if str_eq(s.as_str(), "i64") {
            Ok(ToyFieldType::I64)
        } else if str_eq(s.as_str(), "f64") {
            Ok(ToyFieldType::F64)
        } else if str_eq(s.as_str(), "bool") {
            Ok(ToyFieldType::Bool)
        } else {
            Err(
                concat3(
                    "unsupported field type '",
                    s.as_str(),
                    "'; only i32, i64, f64, bool are allowed",
                ),
            )
        }
    }

    /// The fields of a struct definition, up to the closing brace.
    fn parse_fields(&mut self) -> (r: Result<Vec<ToyField>, String>)
        requires
            old(self).wf(),
        ensures
            final(self).wf(),
            final(self).toks() == old(self).toks(),
            agrees_all(r, final(self).place(), fields_at(old(self).toks(), old(self).place())),
    {
        let ghost t = self.toks();
        let ghost start = self.place();
        let mut fields: Vec<ToyField> = Vec::new();
        proof {
            assert(views(fields@) =~= Seq::empty());
            lemma_prepend_ends(views(fields@), fields_at(t, start), start);
        }
        let mut more: bool = true;
        while more && !self.at(&Token::RBrace) && !self.at(&Token::Eof)
            invariant
                self.wf(),
                t == old(self).toks(),
                start == old(self).place(),
                self.toks() == t,
                start <= self.place(),
                fields_at(t, start) == prepend(
                    views(fields@),
                    if more {
                        fields_at(t, self.place())
                    } else {
                        Ok((Seq::empty(), self.place()))
                    },
                ),
            decreases t.len() - self.place(),
        {
            let ghost before = fields@;
            let ghost here = self.place();
            proof {
                lemma_fields_onward(t, here);
            }
            let field: ToyField = self.parse_field()?;
            fields.push(field);
            more = self.at(&Token::Comma);
            let ghost next = self.place();
            if more {
                self.consume();
            }
            proof {
                lemma_prepend(
                    views(before),
                    field@,
                    if more {
                        fields_at(t, self.place())
                    } else {
                        Ok((Seq::empty(), next))
                    },
                );
                assert(views(fields@) =~= views(before).push(field@));
            }
        }
        proof {
            lemma_prepend_ends(views(fields@), fields_at(t, start), self.place());
        }
        Ok(fields)
    }

    /// A struct definition. The next token is its keyword.
    fn parse_struct(&mut self) -> (r: Result<(String, ToyStruct), String>)
        requires
            old(self).wf(),
            old(self).toks()[old(self).place()] != Tok::Eof,
        ensures
            final(self).wf(),
            final(self).toks() == old(self).toks(),
            match (r, struct_at(old(self).toks(), old(self).place())) {
                (Ok((name, s)), Ok((view, end))) => s@ == view && name@ == view.name
                    && final(self).place() == end,
                (Err(message), Err((text, end))) => message@ == text && final(self).place()
                    == end,
                _ => false,
            },
    {
        self.consume();
        let name: String = self.expect_ident()?;
        self.expect(Token::LBrace)?;
        let fields: Vec<ToyField> = self.parse_fields()?;
        self.expect(Token::RBrace)?;
        Ok((name.clone(), ToyStruct { name, fields }))
    }

    /// A parameter of a function definition.
    fn parse_param(&mut self) -> (r: Result<ToyParam, String>)
        requires
            old(self).wf(),
        ensures
            final(self).wf(),
            final(self).toks() == old(self).toks(),
            agrees(r, final(self).place(), param_at(old(self).toks(), old(self).place())),
    {
        let name: String = self.expect_ident()?;
        self.expect(Token::Colon)?;
        let ty: String = self.parse_type_str()?;
        Ok(ToyParam { name, ty })
    }

    /// The parameters of a function definition, up to the closing parenthesis.
    fn parse_params(&mut self) -> (r: Result<Vec<ToyParam>, String>)
        requires
            old(self).wf(),
        ensures
            final(self).wf(),
            final(self).toks() == old(self).toks(),
            agrees_all(r, final(self).place(), params_at(old(self).toks(), old(self).place())),
    {
        let ghost t = self.toks();
        let ghost start = self.place();
        let mut params: Vec<ToyParam> = Vec::new();
        proof {
            assert(views(params@) =~= Seq::empty());
            lemma_prepend_ends(views(params@), params_at(t, start), start);
        }
        let mut more: bool = !self.at(&Token::RParen);
        while more && !self.at(&Token::Eof)
            invariant
                self.wf(),
                t == old(self).toks(),
                start == old(self).place(),
                self.toks() == t,
                start <= self.place(),
                params_at(t, start) == prepend(
                    views(params@),
                    if more {
                        param_list_at(t, self.place())
                    } else {
                        Ok((Seq::empty(), self.place()))
                    },
                ),
            decreases t.len() - self.place(),
        {
            let ghost before = params@;
            let ghost here = self.place();
            proof {
                lemma_params_onward(t, here);
            }
            let param: ToyParam = self.parse_param()?;
            params.push(param);
            more = self.at(&Token::Comma);
            let ghost next = self.place();
            if more {
                self.consume();
            }
            proof {
                lemma_prepend(
                    views(before),
                    param@,
                    if more {
                        param_list_at(t, self.place())
                    } else {
                        Ok((Seq::empty(), next))
                    },
                );
                assert(views(params@) =~= views(before).push(param@));
            }
        }
        proof {
            lemma_prepend_ends(views(params@), params_at(t, start), self.place());
        }
        Ok(params)
    }

    /// A type, written out as a string.
    fn parse_type_str(&mut self) -> (r: Result<String, String>)
        requires
            old(self).wf(),
        ensures
            final(self).wf(),
            final(self).toks() == old(self).toks(),
            agrees(r, final(self).place(), type_at(old(self).toks(), old(self).place())),
        decreases old(self).toks().len() - old(self).place(), 0int,
    {
        match self.peek().clone() {
            Token::Ampersand => {
                self.consume();
                let mutable: bool = self.at(&Token::Ident("mut".to_owned()));
                if mutable {
                    self.consume();
                }
                let inner: String = self.parse_type_str()?;
                if mutable {
                    Ok(concat2("&mut ", inner.as_str()))
                } else {
                    Ok(concat2("&", inner.as_str()))
                }
            },
            Token::Star => {
                self.consume();
                let qualifier: String = self.expect_ident()?;
                if !str_eq(qualifier.as_str(), "const") && !str_eq(qualifier.as_str(), "mut") {
                    return Err(
                        concat3(
                            "expected 'const' or 'mut' after '*', got '",
                            qualifier.as_str(),
                            "'",
                        ),
                    );
                }
                let inner: String = self.parse_type_str()?;
                Ok(concat4("*", qualifier.as_str(), " ", inner.as_str()))
            },
            Token::Ident(s) => {
                self.consume();
                if self.at(&Token::LAngle) {
                    self.consume();
                    let args: Vec<String> = self.parse_type_args()?;
                    self.expect(Token::RAngle)?;
                    let list: String = join_strings(&args, ", ");
                    Ok(concat4(s.as_str(), "<", list.as_str(), ">"))
                } else {
                    Ok(s)
                }
            },
            t => Err(concat2("expected type, got ", t.show().as_str())),
        }
    }

    /// The arguments of a generic type, up to the closing angle bracket.
    fn parse_type_args(&mut self) -> (r: Result<Vec<String>, String>)
        requires
            old(self).wf(),
        ensures
            final(self).wf(),
            final(self).toks() == old(self).toks(),
            agrees_all(r, final(self).place(), type_args_at(old(self).toks(), old(self).place())),
        decreases old(self).toks().len() - old(self).place(), 1int,
    {
        let ghost t = self.toks();
        let ghost start = self.place();
        let mut args: Vec<String> = Vec::new();
        proof {
            assert(views(args@) =~= Seq::empty());
            lemma_prepend_ends(views(args@), type_args_at(t, start), start);
        }
        let mut more: bool = true;
        while more && !self.at(&Token::Eof)
            invariant
                self.wf(),
                t == old(self).toks(),
                start == old(self).place(),
                self.toks() == t,
                start <= self.place(),
                type_args_at(t, start) == prepend(
                    views(args@),
                    if more {
                        type_args_at(t, self.place())
                    } else {
                        Ok((Seq::empty(), self.place()))
                    },
                ),
            decreases t.len() - self.place(),
        {
            let ghost before = args@;
            let ghost here = self.place();
            proof {
                lemma_type_forward(t, here);
            }
            let arg: String = self.parse_type_str()?;
            args.push(arg);
            more = self.at(&Token::Comma);
            let ghost next = self.place();
            if more {
                self.consume();
            }
            proof {
                lemma_prepend(
                    views(before),
                    arg@,
                    if more {
                        type_args_at(t, self.place())
                    } else {
                        Ok((Seq::empty(), next))
                    },
                );
                assert(views(args@) =~= views(before).push(arg@));
            }
        }
        proof {
            lemma_prepend_ends(views(args@), type_args_at(t, start), self.place());
        }
        Ok(args)
    }

    /// An expression without method calls behind it.
    fn parse_primary(&mut self) -> (r: Result<Expr, String>)
        requires
            old(self).wf(),
        ensures
            final(self).wf(),
            final(self).toks() == old(self).toks(),
            agrees(r, final(self).place(), primary_at(old(self).toks(), old(self).place())),
        decreases old(self).toks().len() - old(self).place(), 1int,
    {
        match self.peek().clone() {
            Token::IntLit(n) => {
                self.consume();
                Ok(Expr::IntLit(n))
            },
            Token::Ident(name) => {
                self.consume();
                if self.at(&Token::DoubleColon) {
                    self.consume();
                    let method: String = self.expect_ident()?;
                    let args: Vec<Expr> = self.parse_call_args()?;
                    let call: Expr = Expr::StaticCall { ty: name, method, args };
                    proof {
                        lemma_expr_view(call);
                    }
                    Ok(call)
                } else if self.at(&Token::LBrace) {
                    self.consume();
                    let fields: Vec<(String, Expr)> = self.parse_inits()?;
                    self.expect(Token::RBrace)?;
                    let literal: Expr = Expr::StructLit { name, fields };
                    proof {
                        lemma_expr_view(literal);
                    }
                    Ok(literal)
                } else {
                    Ok(Expr::Var(name))
                }
            },
            t => Err(concat2("expected expression, got ", t.show().as_str())),
        }
    }

    /// An expression: a primary one and the method calls behind it.
    fn parse_expr(&mut self) -> (r: Result<Expr, String>)
        requires
            old(self).wf(),
        ensures
            final(self).wf(),
            final(self).toks() == old(self).toks(),
            agrees(r, final(self).place(), expr_at(old(self).toks(), old(self).place())),
        decreases old(self).toks().len() - old(self).place(), 2int,
    {
        let ghost t = self.toks();
        let ghost start = self.place();
        proof {
            lemma_primary_forward(t, start);
        }
        let mut expr: Expr = self.parse_primary()?;
        while self.at(&Token::Dot)
            invariant
                self.wf(),
                t == old(self).toks(),
                start == old(self).place(),
                self.toks() == t,
                start < self.place(),
                expr_at(t, start) == calls_at(t, expr@, self.place()),
            decreases t.len() - self.place(),
        {
            self.consume();
            let method: String = self.expect_ident()?;
            proof {
                lemma_call_args_forward(t, self.place());
            }
            let args: Vec<Expr> = self.parse_call_args()?;
            expr = Expr::MethodCall { receiver: Box::new(expr), method, args };
            proof {
                lemma_expr_view(expr);
            }
        }
        Ok(expr)
    }

    /// The arguments of a call, with their parentheses.
    fn parse_call_args(&mut self) -> (r: Result<Vec<Expr>, String>)
        requires
            old(self).wf(),
        ensures
            final(self).wf(),
            final(self).toks() == old(self).toks(),
            agrees_all(r, final(self).place(), call_args_at(old(self).toks(), old(self).place())),
        decreases old(self).toks().len() - old(self).place(), 5int,
    {
        self.expect(Token::LParen)?;
        let args: Vec<Expr> = self.parse_args()?;
        self.expect(Token::RParen)?;
        Ok(args)
    }

    /// The arguments of a call, up to the closing parenthesis.
    fn parse_args(&mut self) -> (r: Result<Vec<Expr>, String>)
        requires
            old(self).wf(),
        ensures
            final(self).wf(),
            final(self).toks() == old(self).toks(),
            agrees_all(r, final(self).place(), args_at(old(self).toks(), old(self).place())),
        decreases old(self).toks().len() - old(self).place(), 4int,
    {
        let ghost t = self.toks();
        let ghost start = self.place();
        let mut args: Vec<Expr> = Vec::new();
        proof {
            assert(views(args@) =~= Seq::empty());
            lemma_prepend_ends(views(args@), args_at(t, start), start);
        }
        let mut more: bool = !self.at(&Token::RParen);
        while more && !self.at(&Token::Eof)
            invariant
                self.wf(),
                t == old(self).toks(),
                start == old(self).place(),
                self.toks() == t,
                start <= self.place(),
                args_at(t, start) == prepend(
                    views(args@),
                    if more {
                        arg_list_at(t, self.place())
                    } else {
                        Ok((Seq::empty(), self.place()))
                    },
                ),
            decreases t.len() - self.place(),
        {
            let ghost before = args@;
            let ghost here = self.place();
            proof {
                lemma_expr_forward(t, here);
            }
            let arg: Expr = self.parse_expr()?;
            args.push(arg);
            more = self.at(&Token::Comma);
            let ghost next = self.place();
            if more {
                self.consume();
            }
            proof {
                lemma_prepend(
                    views(before),
                    arg@,
                    if more {
                        arg_list_at(t, self.place())
                    } else {
                        Ok((Seq::empty(), next))
                    },
                );
                assert(views(args@) =~= views(before).push(arg@));
            }
        }
        proof {
            lemma_prepend_ends(views(args@), args_at(t, start), self.place());
        }
        Ok(args)
    }

    /// A field of a struct literal.
    fn parse_init(&mut self) -> (r: Result<(String, Expr), String>)
        requires
            old(self).wf(),
        ensures
            final(self).wf(),
            final(self).toks() == old(self).toks(),
            agrees(r, final(self).place(), init_at(old(self).toks(), old(self).place())),
        decreases old(self).toks().len() - old(self).place(), 3int,
    {
        let name: String = self.expect_ident()?;
        self.expect(Token::Colon)?;
        let value: Expr = self.parse_expr()?;
        Ok((name, value))
    }

    /// The fields of a struct literal, up to the closing brace.
    fn parse_inits(&mut self) -> (r: Result<Vec<(String, Expr)>, String>)
        requires
            old(self).wf(),
        ensures
            final(self).wf(),
            final(self).toks() == old(self).toks(),
            agrees_all(r, final(self).place(), inits_at(old(self).toks(), old(self).place())),
        decreases old(self).toks().len() - old(self).place(), 5int,
    {
        let ghost t = self.toks();
        let ghost start = self.place();
        let mut inits: Vec<(String, Expr)> = Vec::new();
        proof {
            assert(views(inits@) =~= Seq::empty());
            lemma_prepend_ends(views(inits@), inits_at(t, start), start);
        }
        let mut more: bool = !self.at(&Token::RBrace);
        while more && !self.at(&Token::Eof)
            invariant
                self.wf(),
                t == old(self).toks(),
                start == old(self).place(),
                self.toks() == t,
                start <= self.place(),
                inits_at(t, start) == prepend(
                    views(inits@),
                    if more {
                        init_list_at(t, self.place())
                    } else {
                        Ok((Seq::empty(), self.place()))
                    },
                ),
            decreases t.len() - self.place(),
        {
            let ghost before = inits@;
            let ghost here = self.place();
            proof {
                lemma_init_forward(t, here);
            }
            let init: (String, Expr) = self.parse_init()?;
            inits.push(init);
            more = self.at(&Token::Comma);
            let ghost next = self.place();
            if more {
                self.consume();
            }
            proof {
                lemma_prepend(
                    views(before),
                    init@,
                    if more {
                        init_list_at(t, self.place())
                    } else {
                        Ok((Seq::empty(), next))
                    },
                );
                assert(views(inits@) =~= views(before).push(init@));
            }
        }
        proof {
            lemma_prepend_ends(views(inits@), inits_at(t, start), self.place());
        }
        Ok(inits)
    }

    /// A function body, up to and with the closing brace.
    fn parse_fn_body(&mut self) -> (r: Result<FnBody, String>)
        requires
            old(self).wf(),
        ensures
            final(self).wf(),
            final(self).toks() == old(self).toks(),
            agrees(r, final(self).place(), body_at(old(self).toks(), old(self).place())),
    {
        let ghost t = self.toks();
        let ghost start = self.place();
        let mut stmts: Vec<Stmt> = Vec::new();
        proof {
            assert(views(stmts@) =~= Seq::empty());
            lemma_prepend_no_stmts(body_at(t, start));
        }
        loop
            invariant
                self.wf(),
                t == old(self).toks(),
                start == old(self).place(),
                self.toks() == t,
                body_at(t, start) == prepend_stmts(views(stmts@), body_at(t, self.place())),
            decreases t.len() - self.place(),
        {
            let ghost before = stmts@;
            if self.at(&Token::RBrace) || self.at(&Token::Eof) {
                self.expect(Token::RBrace)?;
                assert(views(stmts@) + Seq::empty() =~= views(stmts@));
                return Ok(FnBody { stmts, ret: None });
            }
            if self.at(&Token::Ident("let".to_owned())) {
                proof {
                    lemma_let_forward(t, self.place());
                }
                let stmt: Stmt = self.parse_let()?;
                proof {
                    lemma_prepend_stmt(views(before), stmt@, body_at(t, self.place()));
                    assert(views(stmts@.push(stmt)) =~= views(before).push(stmt@));
                }
                stmts.push(stmt);
            } else {
                proof {
                    lemma_expr_forward(t, self.place());
                }
                let expr: Expr = self.parse_expr()?;
                if self.at(&Token::Semicolon) {
                    self.consume();
                    let stmt: Stmt = Stmt::ExprStmt(expr);
                    proof {
                        lemma_prepend_stmt(views(before), stmt@, body_at(t, self.place()));
                        assert(views(stmts@.push(stmt)) =~= views(before).push(stmt@));
                    }
                    stmts.push(stmt);
                } else {
                    self.expect(Token::RBrace)?;
                    assert(views(stmts@) + Seq::empty() =~= views(stmts@));
                    return Ok(FnBody { stmts, ret: Some(expr) });
                }
            }
        }
    }

    /// A `let` statement. The next token is its keyword.
    fn parse_let(&mut self) -> (r: Result<Stmt, String>)
        requires
            old(self).wf(),
            old(self).toks()[old(self).place()] != Tok::Eof,
        ensures
            final(self).wf(),
            final(self).toks() == old(self).toks(),
            agrees(r, final(self).place(), let_at(old(self).toks(), old(self).place())),
    {
        self.consume();
        let name: String = self.expect_ident()?;
        self.expect(Token::Equals)?;
        let expr: Expr = self.parse_expr()?;
        self.expect(Token::Semicolon)?;
        Ok(Stmt::Let { name, expr })
    }

    /// A function definition. The next token is its keyword.
    fn parse_fn(&mut self) -> (r: Result<(String, ToyFunction), String>)
        requires
            old(self).wf(),
            old(self).toks()[old(self).place()] != Tok::Eof,
        ensures
            final(self).wf(),
            final(self).toks() == old(self).toks(),
            match (r, fn_at(old(self).toks(), old(self).place())) {
                (Ok((name, f)), Ok((view, end))) => f@ == view && name@ == view.name
                    && final(self).place() == end,
                (Err(message), Err((text, end))) => message@ == text && final(self).place()
                    == end,
                _ => false,
            },
    {
        self.consume();
        let name: String = self.expect_ident()?;
        self.expect(Token::LParen)?;
        let params: Vec<ToyParam> = self.parse_params()?;
        self.expect(Token::RParen)?;
        let return_ty: Option<String> = if self.at(&Token::Arrow) {
            self.consume();
            Some(self.parse_type_str()?)
        } else {
            None
        };
        self.expect(Token::LBrace)?;
        let body: FnBody = self.parse_fn_body()?;
        Ok((name.clone(), ToyFunction { name, params, return_ty, body: Some(body) }))
    }

    /// A program: the definitions up to the end.
    pub fn parse_program(&mut self) -> (r: Result<ToylangRegistry, String>)
        requires
            old(self).wf(),
        ensures
            final(self).wf(),
            final(self).toks() == old(self).toks(),
            agrees(r, final(self).place(), program_at(old(self).toks(), old(self).place())),
            r is Ok ==> final(self).place() == final(self).toks().len() - 1,
    {
        let ghost t = self.toks();
        let ghost start = self.place();
        let ghost mut items: Seq<ItemView> = Seq::empty();
        let mut structs: NameMap<ToyStruct> = NameMap::new();
        let mut functions: NameMap<ToyFunction> = NameMap::new();
        proof {
            lemma_prepend_ends(items, items_at(t, start), start);
        }
        while !self.at(&Token::Eof)
            invariant
                self.wf(),
                t == old(self).toks(),
                start == old(self).place(),
                self.toks() == t,
                items_at(t, start) == prepend(items, items_at(t, self.place())),
                registry_of(items).structs == structs@,
                registry_of(items).functions == functions@,
            decreases t.len() - self.place(),
        {
            let ghost here = self.place();
            let ghost item: ItemView;
            proof {
                lemma_item_forward(t, here);
            }
            if self.at(&Token::Ident("struct".to_owned())) {
                let (name, s) = self.parse_struct()?;
                proof {
                    item = ItemView::Struct(s@);
                }
                structs.insert(name, s);
            } else if self.at(&Token::Ident("fn".to_owned())) {
                let (name, f) = self.parse_fn()?;
                proof {
                    item = ItemView::Function(f@);
                }
                functions.insert(name, f);
            } else {
                let found: String = self.peek().show();
                return Err(concat3("unexpected token ", found.as_str(), " at top level"));
            }
            proof {
                lemma_prepend(items, item, items_at(t, self.place()));
                assert(items.push(item).drop_last() =~= items);
                items = items.push(item);
            }
        }
        proof {
            lemma_prepend_ends(items, items_at(t, start), self.place());
        }
        Ok(ToylangRegistry { structs, functions })
    }
}

/// Whether a result is the registry of the definitions in a source text, or the message with which
/// the text is refused.
pub open spec fn is_parsed(r: Result<ToylangRegistry, String>, src: Seq<char>) -> bool {
    match (r, program(lex(src))) {
        (Ok(registry), Ok(view)) => registry@ == view,
        (Err(message), Err(text)) => message@ == text,
        _ => false,
    }
}

/// The registry of the definitions in a source text, or the message with which the text is
/// refused.
pub fn parse(src: &str) -> (r: Result<ToylangRegistry, String>)
    requires
        literals_fit_spec(src@),
    ensures
        is_parsed(r, src@),
{
    let mut parser: Parser = Parser::new(tokenize(src));
    parser.parse_program()
}

} // verus!
