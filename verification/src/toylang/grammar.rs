//! The grammar: which definitions a row of tokens stands for, and with which message a row that
//! stands for none is refused.
//!
//! ```text
//! program    = (struct_def | fn_def)*
//! struct_def = "struct" IDENT "{" (field ("," field)* ","?)? "}"
//! field      = IDENT ":" primitive_type
//! fn_def     = "fn" IDENT "(" params ")" ("->" type)? "{" fn_body "}"
//! params     = (IDENT ":" type ("," IDENT ":" type)*)?
//! type       = "&" "mut"? type | "*" ("const" | "mut") type | IDENT ("<" type ("," type)* ">")?
//! fn_body    = stmt* expr?
//! stmt       = "let" IDENT "=" expr ";" | expr ";"
//! expr       = primary ("." IDENT "(" args ")")*
//! primary    = INT | IDENT "::" IDENT "(" args ")" | IDENT "{" inits "}" | IDENT
//! inits      = (IDENT ":" expr ("," IDENT ":" expr)*)?
//! args       = (expr ("," expr)*)?
//! ```
use vstd::prelude::*;

use crate::text::join;
use crate::toylang::ast::{ExprView, FnBodyView, StmtView};
use crate::toylang::lexer::{ended, shown, Tok};
use crate::toylang::registry::{
    FieldView, FunctionView, ParamView, RegistryView, StructView, ToyFieldType,
};

verus! {

/// What stands at a place of a row of tokens and the place behind it, or the message with which
/// the row is refused and the place reached by then.
pub type Parsed<T> = Result<(T, int), (Seq<char>, int)>;

/// The outcome at a place that no row of tokens has.
pub open spec fn nothing_there<T>() -> Parsed<T> {
    Err((Seq::empty(), 0))
}

/// Whether the token at `i` is `token`.
pub open spec fn is_at(t: Seq<Tok>, i: int, token: Tok) -> bool {
    0 <= i < t.len() && t[i] == token
}

/// The place behind the token at `i`. There is none behind the end of the text.
pub open spec fn behind(t: Seq<Tok>, i: int) -> int {
    if is_at(t, i, Tok::Eof) {
        i
    } else {
        i + 1
    }
}

/// An identifier.
pub open spec fn ident_at(t: Seq<Tok>, i: int) -> Parsed<Seq<char>> {
    if 0 <= i < t.len() {
        match t[i] {
            Tok::Ident(s) => Ok((s, i + 1)),
            other => Err(("expected identifier, got "@ + shown(other), behind(t, i))),
        }
    } else {
        nothing_there()
    }
}

/// The token `token`.
pub open spec fn expect_at(t: Seq<Tok>, i: int, token: Tok) -> Parsed<()> {
    if 0 <= i < t.len() {
        if t[i] == token {
            Ok(((), behind(t, i)))
        } else {
            Err(("expected "@ + shown(token) + ", got "@ + shown(t[i]), behind(t, i)))
        }
    } else {
        nothing_there()
    }
}

/// A type, written out with one space behind `mut` and `const` and behind each comma.
pub open spec fn type_at(t: Seq<Tok>, i: int) -> Parsed<Seq<char>>
    decreases t.len() - i, 0int,
{
    if 0 <= i < t.len() {
        match t[i] {
            Tok::Ampersand => {
                let mutable = is_at(t, i + 1, Tok::Ident("mut"@));
                let prefix = if mutable {
                    "&mut "@
                } else {
                    "&"@
                };
                match type_at(
                    t,
                    if mutable {
                        i + 2
                    } else {
                        i + 1
                    },
                ) {
                    Ok((inner, end)) => Ok((prefix + inner, end)),
                    Err(e) => Err(e),
                }
            },
            Tok::Star => match ident_at(t, i + 1) {
                Ok((qualifier, next)) => if qualifier != "const"@ && qualifier != "mut"@ {
                    Err(("expected 'const' or 'mut' after '*', got '"@ + qualifier + "'"@, next))
                } else {
                    match type_at(t, next) {
                        Ok((inner, end)) => Ok(("*"@ + qualifier + " "@ + inner, end)),
                        Err(e) => Err(e),
                    }
                },
                Err(e) => Err(e),
            },
            Tok::Ident(s) => if is_at(t, i + 1, Tok::LAngle) {
                match type_args_at(t, i + 2) {
                    Ok((args, close)) => match expect_at(t, close, Tok::RAngle) {
                        Ok((_, end)) => Ok((s + "<"@ + join(args, ", "@) + ">"@, end)),
                        Err(e) => Err(e),
                    },
                    Err(e) => Err(e),
                }
            } else {
                Ok((s, i + 1))
            },
            other => Err(("expected type, got "@ + shown(other), i)),
        }
    } else {
        nothing_there()
    }
}

/// The types from `i` on, at least one, with a comma between each two neighbours. The end of the
/// text ends the list anywhere.
pub open spec fn type_args_at(t: Seq<Tok>, i: int) -> Parsed<Seq<Seq<char>>>
    decreases t.len() - i, 1int,
{
    if is_at(t, i, Tok::Eof) {
        Ok((Seq::empty(), i))
    } else {
        match type_at(t, i) {
            Ok((first, next)) => if i < next < t.len() {
                prepend(
                    seq![first],
                    if is_at(t, next, Tok::Comma) {
                        type_args_at(t, next + 1)
                    } else {
                        Ok((Seq::empty(), next))
                    },
                )
            } else {
                nothing_there()
            },
            Err(e) => Err(e),
        }
    }
}

/// An outcome with more items in front.
pub open spec fn prepend<T>(items: Seq<T>, rest: Parsed<Seq<T>>) -> Parsed<Seq<T>> {
    match rest {
        Ok((more, end)) => Ok((items + more, end)),
        Err(e) => Err(e),
    }
}

/// The type of a struct field.
pub open spec fn primitive_type_at(t: Seq<Tok>, i: int) -> Parsed<ToyFieldType> {
    match ident_at(t, i) {
        Ok((s, end)) => if s == "i32"@ {
            Ok((ToyFieldType::I32, end))
        } else if s == "i64"@ {
            Ok((ToyFieldType::I64, end))
        } else if s == "f64"@ {
            Ok((ToyFieldType::F64, end))
        } else if s == "bool"@ {
            Ok((ToyFieldType::Bool, end))
        } else {
            Err(("unsupported field type '"@ + s + "'; only i32, i64, f64, bool are allowed"@, end))
        },
        Err(e) => Err(e),
    }
}

/// A field of a struct definition.
pub open spec fn field_at(t: Seq<Tok>, i: int) -> Parsed<FieldView> {
    match ident_at(t, i) {
        Ok((name, colon)) => match expect_at(t, colon, Tok::Colon) {
            Ok((_, ty)) => match primitive_type_at(t, ty) {
                Ok((rust_type, end)) => Ok((FieldView { name, rust_type }, end)),
                Err(e) => Err(e),
            },
            Err(e) => Err(e),
        },
        Err(e) => Err(e),
    }
}

/// The fields from `i` up to a closing brace, with a comma between each two neighbours and
/// maybe behind the last one. The end of the text ends the list anywhere.
pub open spec fn fields_at(t: Seq<Tok>, i: int) -> Parsed<Seq<FieldView>>
    decreases t.len() - i,
{
    if is_at(t, i, Tok::RBrace) || is_at(t, i, Tok::Eof) {
        Ok((Seq::empty(), i))
    } else {
        match field_at(t, i) {
            Ok((first, next)) => if i < next < t.len() {
                prepend(
                    seq![first],
                    if is_at(t, next, Tok::Comma) {
                        fields_at(t, next + 1)
                    } else {
                        Ok((Seq::empty(), next))
                    },
                )
            } else {
                nothing_there()
            },
            Err(e) => Err(e),
        }
    }
}

/// A struct definition, its keyword at `i`.
pub open spec fn struct_at(t: Seq<Tok>, i: int) -> Parsed<StructView> {
    match ident_at(t, i + 1) {
        Ok((name, open)) => match expect_at(t, open, Tok::LBrace) {
            Ok((_, first)) => match fields_at(t, first) {
                Ok((fields, close)) => match expect_at(t, close, Tok::RBrace) {
                    Ok((_, end)) => Ok((StructView { name, fields }, end)),
                    Err(e) => Err(e),
                },
                Err(e) => Err(e),
            },
            Err(e) => Err(e),
        },
        Err(e) => Err(e),
    }
}

/// A parameter of a function definition.
pub open spec fn param_at(t: Seq<Tok>, i: int) -> Parsed<ParamView> {
    match ident_at(t, i) {
        Ok((name, colon)) => match expect_at(t, colon, Tok::Colon) {
            Ok((_, next)) => match type_at(t, next) {
                Ok((ty, end)) => Ok((ParamView { name, ty }, end)),
                Err(e) => Err(e),
            },
            Err(e) => Err(e),
        },
        Err(e) => Err(e),
    }
}

/// The parameters from `i` on, maybe none, with a comma between each two neighbours.
pub open spec fn params_at(t: Seq<Tok>, i: int) -> Parsed<Seq<ParamView>> {
    if is_at(t, i, Tok::RParen) {
        Ok((Seq::empty(), i))
    } else {
        param_list_at(t, i)
    }
}

/// The parameters from `i` on, at least one, with a comma between each two neighbours. The end
/// of the text ends the list anywhere.
pub open spec fn param_list_at(t: Seq<Tok>, i: int) -> Parsed<Seq<ParamView>>
    decreases t.len() - i,
{
    if is_at(t, i, Tok::Eof) {
        Ok((Seq::empty(), i))
    } else {
        match param_at(t, i) {
            Ok((first, next)) => if i < next < t.len() {
                prepend(
                    seq![first],
                    if is_at(t, next, Tok::Comma) {
                        param_list_at(t, next + 1)
                    } else {
                        Ok((Seq::empty(), next))
                    },
                )
            } else {
                nothing_there()
            },
            Err(e) => Err(e),
        }
    }
}

/// An expression without method calls behind it.
pub open spec fn primary_at(t: Seq<Tok>, i: int) -> Parsed<ExprView>
    decreases t.len() - i, 1int,
{
    if 0 <= i < t.len() {
        match t[i] {
            Tok::IntLit(n) => Ok((ExprView::IntLit(n), i + 1)),
            Tok::Ident(name) => if is_at(t, i + 1, Tok::DoubleColon) {
                match ident_at(t, i + 2) {
                    Ok((method, open)) => match call_args_at(t, open) {
                        Ok((args, end)) => Ok(
                            (ExprView::StaticCall { ty: name, method, args }, end),
                        ),
                        Err(e) => Err(e),
                    },
                    Err(e) => Err(e),
                }
            } else if is_at(t, i + 1, Tok::LBrace) {
                match inits_at(t, i + 2) {
                    Ok((fields, close)) => match expect_at(t, close, Tok::RBrace) {
                        Ok((_, end)) => Ok((ExprView::StructLit { name, fields }, end)),
                        Err(e) => Err(e),
                    },
                    Err(e) => Err(e),
                }
            } else {
                Ok((ExprView::Var(name), i + 1))
            },
            other => Err(("expected expression, got "@ + shown(other), i)),
        }
    } else {
        nothing_there()
    }
}

/// An expression.
pub open spec fn expr_at(t: Seq<Tok>, i: int) -> Parsed<ExprView>
    decreases t.len() - i, 2int,
{
    match primary_at(t, i) {
        Ok((first, next)) => if i < next <= t.len() {
            calls_at(t, first, next)
        } else {
            nothing_there()
        },
        Err(e) => Err(e),
    }
}

/// The expression that `receiver` and the method calls from `i` on make up.
pub open spec fn calls_at(t: Seq<Tok>, receiver: ExprView, i: int) -> Parsed<ExprView>
    decreases t.len() - i, 0int,
{
    if is_at(t, i, Tok::Dot) {
        match ident_at(t, i + 1) {
            Ok((method, open)) => match call_args_at(t, open) {
                Ok((args, next)) => if i < next <= t.len() {
                    calls_at(
                        t,
                        ExprView::MethodCall { receiver: Box::new(receiver), method, args },
                        next,
                    )
                } else {
                    nothing_there()
                },
                Err(e) => Err(e),
            },
            Err(e) => Err(e),
        }
    } else {
        Ok((receiver, i))
    }
}

/// The arguments of a call, with their parentheses.
pub open spec fn call_args_at(t: Seq<Tok>, i: int) -> Parsed<Seq<ExprView>>
    decreases t.len() - i, 5int,
{
    match expect_at(t, i, Tok::LParen) {
        Ok((_, first)) => match args_at(t, first) {
            Ok((args, close)) => match expect_at(t, close, Tok::RParen) {
                Ok((_, end)) => Ok((args, end)),
                Err(e) => Err(e),
            },
            Err(e) => Err(e),
        },
        Err(e) => Err(e),
    }
}

/// The expressions from `i` on, maybe none, with a comma between each two neighbours.
pub open spec fn args_at(t: Seq<Tok>, i: int) -> Parsed<Seq<ExprView>>
    decreases t.len() - i, 4int,
{
    if is_at(t, i, Tok::RParen) {
        Ok((Seq::empty(), i))
    } else {
        arg_list_at(t, i)
    }
}

/// The expressions from `i` on, at least one, with a comma between each two neighbours. The end
/// of the text ends the list anywhere.
pub open spec fn arg_list_at(t: Seq<Tok>, i: int) -> Parsed<Seq<ExprView>>
    decreases t.len() - i, 3int,
{
    if is_at(t, i, Tok::Eof) {
        Ok((Seq::empty(), i))
    } else {
        match expr_at(t, i) {
            Ok((first, next)) => if i < next < t.len() {
                prepend(
                    seq![first],
                    if is_at(t, next, Tok::Comma) {
                        arg_list_at(t, next + 1)
                    } else {
                        Ok((Seq::empty(), next))
                    },
                )
            } else {
                nothing_there()
            },
            Err(e) => Err(e),
        }
    }
}

/// A field of a struct literal.
pub open spec fn init_at(t: Seq<Tok>, i: int) -> Parsed<(Seq<char>, ExprView)>
    decreases t.len() - i, 3int,
{
    match ident_at(t, i) {
        Ok((name, colon)) => match expect_at(t, colon, Tok::Colon) {
            Ok((_, next)) => match expr_at(t, next) {
                Ok((value, end)) => Ok(((name, value), end)),
                Err(e) => Err(e),
            },
            Err(e) => Err(e),
        },
        Err(e) => Err(e),
    }
}

/// The fields of a struct literal from `i` on, maybe none, with a comma between each two
/// neighbours.
pub open spec fn inits_at(t: Seq<Tok>, i: int) -> Parsed<Seq<(Seq<char>, ExprView)>>
    decreases t.len() - i, 5int,
{
    if is_at(t, i, Tok::RBrace) {
        Ok((Seq::empty(), i))
    } else {
        init_list_at(t, i)
    }
}

/// The fields of a struct literal from `i` on, at least one, with a comma between each two
/// neighbours. The end of the text ends the list anywhere.
pub open spec fn init_list_at(t: Seq<Tok>, i: int) -> Parsed<Seq<(Seq<char>, ExprView)>>
    decreases t.len() - i, 4int,
{
    if is_at(t, i, Tok::Eof) {
        Ok((Seq::empty(), i))
    } else {
        match init_at(t, i) {
            Ok((first, next)) => if i < next < t.len() {
                prepend(
                    seq![first],
                    if is_at(t, next, Tok::Comma) {
                        init_list_at(t, next + 1)
                    } else {
                        Ok((Seq::empty(), next))
                    },
                )
            } else {
                nothing_there()
            },
            Err(e) => Err(e),
        }
    }
}

/// A `let` statement, its keyword at `i`.
pub open spec fn let_at(t: Seq<Tok>, i: int) -> Parsed<StmtView> {
    match ident_at(t, i + 1) {
        Ok((name, equals)) => match expect_at(t, equals, Tok::Equals) {
            Ok((_, next)) => match expr_at(t, next) {
                Ok((expr, semicolon)) => match expect_at(t, semicolon, Tok::Semicolon) {
                    Ok((_, end)) => Ok((StmtView::Let { name, expr }, end)),
                    Err(e) => Err(e),
                },
                Err(e) => Err(e),
            },
            Err(e) => Err(e),
        },
        Err(e) => Err(e),
    }
}

/// A function body with more statements in front.
pub open spec fn prepend_stmts(stmts: Seq<StmtView>, rest: Parsed<FnBodyView>) -> Parsed<
    FnBodyView,
> {
    match rest {
        Ok((body, end)) => Ok((FnBodyView { stmts: stmts + body.stmts, ret: body.ret }, end)),
        Err(e) => Err(e),
    }
}

/// A function body with the brace that closes it.
pub open spec fn body_at(t: Seq<Tok>, i: int) -> Parsed<FnBodyView>
    decreases t.len() - i,
{
    if is_at(t, i, Tok::RBrace) || is_at(t, i, Tok::Eof) {
        match expect_at(t, i, Tok::RBrace) {
            Ok((_, end)) => Ok((FnBodyView { stmts: Seq::empty(), ret: None }, end)),
            Err(e) => Err(e),
        }
    } else if is_at(t, i, Tok::Ident("let"@)) {
        match let_at(t, i) {
            Ok((stmt, next)) => if i < next <= t.len() {
                prepend_stmts(seq![stmt], body_at(t, next))
            } else {
                nothing_there()
            },
            Err(e) => Err(e),
        }
    } else {
        match expr_at(t, i) {
            Ok((expr, next)) => if is_at(t, next, Tok::Semicolon) {
                if i < next {
                    prepend_stmts(seq![StmtView::ExprStmt(expr)], body_at(t, next + 1))
                } else {
                    nothing_there()
                }
            } else {
                match expect_at(t, next, Tok::RBrace) {
                    Ok((_, end)) => Ok((FnBodyView { stmts: Seq::empty(), ret: Some(expr) }, end)),
                    Err(e) => Err(e),
                }
            },
            Err(e) => Err(e),
        }
    }
}

/// The return type of a function definition, if it has one.
pub open spec fn return_type_at(t: Seq<Tok>, i: int) -> Parsed<Option<Seq<char>>> {
    if is_at(t, i, Tok::Arrow) {
        match type_at(t, i + 1) {
            Ok((ty, end)) => Ok((Some(ty), end)),
            Err(e) => Err(e),
        }
    } else {
        Ok((None, i))
    }
}

/// The parameters of a function definition, with their parentheses.
pub open spec fn signature_params_at(t: Seq<Tok>, i: int) -> Parsed<Seq<ParamView>> {
    match expect_at(t, i, Tok::LParen) {
        Ok((_, first)) => match params_at(t, first) {
            Ok((params, close)) => match expect_at(t, close, Tok::RParen) {
                Ok((_, end)) => Ok((params, end)),
                Err(e) => Err(e),
            },
            Err(e) => Err(e),
        },
        Err(e) => Err(e),
    }
}

/// A function definition, its keyword at `i`.
pub open spec fn fn_at(t: Seq<Tok>, i: int) -> Parsed<FunctionView> {
    match ident_at(t, i + 1) {
        Ok((name, open)) => match signature_params_at(t, open) {
            Ok((params, arrow)) => match return_type_at(t, arrow) {
                Ok((return_ty, brace)) => match expect_at(t, brace, Tok::LBrace) {
                    Ok((_, first)) => match body_at(t, first) {
                        Ok((body, end)) => Ok(
                            (FunctionView { name, params, return_ty, body: Some(body) }, end),
                        ),
                        Err(e) => Err(e),
                    },
                    Err(e) => Err(e),
                },
                Err(e) => Err(e),
            },
            Err(e) => Err(e),
        },
        Err(e) => Err(e),
    }
}

/// A definition.
#[verifier::ext_equal]
pub enum ItemView {
    Struct(StructView),
    Function(FunctionView),
}

/// A definition at `i`.
pub open spec fn item_at(t: Seq<Tok>, i: int) -> Parsed<ItemView> {
    if is_at(t, i, Tok::Ident("struct"@)) {
        match struct_at(t, i) {
            Ok((s, end)) => Ok((ItemView::Struct(s), end)),
            Err(e) => Err(e),
        }
    } else if is_at(t, i, Tok::Ident("fn"@)) {
        match fn_at(t, i) {
            Ok((f, end)) => Ok((ItemView::Function(f), end)),
            Err(e) => Err(e),
        }
    } else if 0 <= i < t.len() {
        Err(("unexpected token "@ + shown(t[i]) + " at top level"@, i))
    } else {
        nothing_there()
    }
}

/// The definitions from `i` up to the end.
pub open spec fn items_at(t: Seq<Tok>, i: int) -> Parsed<Seq<ItemView>>
    decreases t.len() - i,
{
    if is_at(t, i, Tok::Eof) {
        Ok((Seq::empty(), i))
    } else {
        match item_at(t, i) {
            Ok((first, next)) => if i < next <= t.len() {
                prepend(seq![first], items_at(t, next))
            } else {
                nothing_there()
            },
            Err(e) => Err(e),
        }
    }
}

/// The registry with one definition more. A definition takes the place of an earlier one of the
/// same name.
pub open spec fn with_item(registry: RegistryView, item: ItemView) -> RegistryView {
    match item {
        ItemView::Struct(s) => RegistryView {
            structs: registry.structs.insert(s.name, s),
            functions: registry.functions,
        },
        ItemView::Function(f) => RegistryView {
            structs: registry.structs,
            functions: registry.functions.insert(f.name, f),
        },
    }
}

/// The registry of a row of definitions.
pub open spec fn registry_of(items: Seq<ItemView>) -> RegistryView
    decreases items.len(),
{
    if items.len() == 0 {
        RegistryView { structs: Map::empty(), functions: Map::empty() }
    } else {
        with_item(registry_of(items.drop_last()), items.last())
    }
}

/// The registry of the definitions from `i` up to the end, and the place of the end.
pub open spec fn program_at(t: Seq<Tok>, i: int) -> Parsed<RegistryView> {
    match items_at(t, i) {
        Ok((items, end)) => Ok((registry_of(items), end)),
        Err(e) => Err(e),
    }
}

/// The registry of a row of tokens, or the message with which the row is refused.
pub open spec fn program(t: Seq<Tok>) -> Result<RegistryView, Seq<char>> {
    match program_at(t, 0) {
        Ok((registry, _)) => Ok(registry),
        Err((message, _)) => Err(message),
    }
}

/// Whether an outcome at `i` leads to a place behind `i`, inside the row.
pub open spec fn forward<T>(t: Seq<Tok>, i: int, r: Parsed<T>) -> bool {
    r matches Ok((_, end)) ==> i < end < t.len()
}

/// Whether an outcome at `i` leads to `i` or to a place behind it, inside the row.
pub open spec fn onward<T>(t: Seq<Tok>, i: int, r: Parsed<T>) -> bool {
    r matches Ok((_, end)) ==> i <= end < t.len()
}

/// A type leads forward.
pub proof fn lemma_type_forward(t: Seq<Tok>, i: int)
    requires
        ended(t),
        0 <= i < t.len(),
    ensures
        forward(t, i, type_at(t, i)),
    decreases t.len() - i, 0int,
{
    match t[i] {
        Tok::Ampersand => {
            if is_at(t, i + 1, Tok::Ident("mut"@)) {
                lemma_type_forward(t, i + 2);
            } else {
                lemma_type_forward(t, i + 1);
            }
        },
        Tok::Star => {
            if ident_at(t, i + 1) is Ok {
                lemma_type_forward(t, i + 2);
            }
        },
        Tok::Ident(_) => {
            if is_at(t, i + 1, Tok::LAngle) {
                lemma_type_args_onward(t, i + 2);
            }
        },
        _ => {},
    }
}

/// A list of types leads onward.
pub proof fn lemma_type_args_onward(t: Seq<Tok>, i: int)
    requires
        ended(t),
        0 <= i < t.len(),
    ensures
        onward(t, i, type_args_at(t, i)),
    decreases t.len() - i, 1int,
{
    if !is_at(t, i, Tok::Eof) {
        lemma_type_forward(t, i);
        if let Ok((_, next)) = type_at(t, i) {
            if is_at(t, next, Tok::Comma) {
                lemma_type_args_onward(t, next + 1);
            }
        }
    }
}

/// A field leads forward, and a list of them onward.
pub proof fn lemma_fields_onward(t: Seq<Tok>, i: int)
    requires
        ended(t),
        0 <= i < t.len(),
    ensures
        onward(t, i, fields_at(t, i)),
        forward(t, i, field_at(t, i)),
    decreases t.len() - i,
{
    if !(is_at(t, i, Tok::RBrace) || is_at(t, i, Tok::Eof)) {
        if let Ok((_, next)) = field_at(t, i) {
            if is_at(t, next, Tok::Comma) {
                lemma_fields_onward(t, next + 1);
            }
        }
    }
}

/// A parameter leads forward, and a list of them onward.
pub proof fn lemma_params_onward(t: Seq<Tok>, i: int)
    requires
        ended(t),
        0 <= i < t.len(),
    ensures
        onward(t, i, params_at(t, i)),
        onward(t, i, param_list_at(t, i)),
        forward(t, i, param_at(t, i)),
    decreases t.len() - i,
{
    if i + 2 < t.len() {
        lemma_type_forward(t, i + 2);
    }
    if !is_at(t, i, Tok::Eof) {
        if let Ok((_, next)) = param_at(t, i) {
            if is_at(t, next, Tok::Comma) {
                lemma_params_onward(t, next + 1);
            }
        }
    }
}

/// An expression without method calls behind it leads forward.
pub proof fn lemma_primary_forward(t: Seq<Tok>, i: int)
    requires
        ended(t),
        0 <= i < t.len(),
    ensures
        forward(t, i, primary_at(t, i)),
    decreases t.len() - i, 1int,
{
    if is_at(t, i + 1, Tok::DoubleColon) {
        if ident_at(t, i + 2) is Ok {
            lemma_call_args_forward(t, i + 3);
        }
    } else if is_at(t, i + 1, Tok::LBrace) {
        lemma_inits_onward(t, i + 2);
    }
}

/// An expression leads forward.
pub proof fn lemma_expr_forward(t: Seq<Tok>, i: int)
    requires
        ended(t),
        0 <= i < t.len(),
    ensures
        forward(t, i, expr_at(t, i)),
    decreases t.len() - i, 2int,
{
    lemma_primary_forward(t, i);
    if let Ok((first, next)) = primary_at(t, i) {
        lemma_calls_onward(t, first, next);
    }
}

/// Method calls lead onward.
pub proof fn lemma_calls_onward(t: Seq<Tok>, receiver: ExprView, i: int)
    requires
        ended(t),
        0 <= i < t.len(),
    ensures
        onward(t, i, calls_at(t, receiver, i)),
    decreases t.len() - i, 0int,
{
    if is_at(t, i, Tok::Dot) {
        if let Ok((method, open)) = ident_at(t, i + 1) {
            lemma_call_args_forward(t, open);
            if let Ok((args, next)) = call_args_at(t, open) {
                lemma_calls_onward(
                    t,
                    ExprView::MethodCall { receiver: Box::new(receiver), method, args },
                    next,
                );
            }
        }
    }
}

/// The arguments of a call with their parentheses lead forward.
pub proof fn lemma_call_args_forward(t: Seq<Tok>, i: int)
    requires
        ended(t),
        0 <= i < t.len(),
    ensures
        forward(t, i, call_args_at(t, i)),
    decreases t.len() - i, 4int,
{
    if expect_at(t, i, Tok::LParen) is Ok {
        lemma_args_onward(t, i + 1);
    }
}

/// A list of arguments leads onward.
pub proof fn lemma_args_onward(t: Seq<Tok>, i: int)
    requires
        ended(t),
        0 <= i < t.len(),
    ensures
        onward(t, i, args_at(t, i)),
        onward(t, i, arg_list_at(t, i)),
    decreases t.len() - i, 3int,
{
    if !is_at(t, i, Tok::Eof) {
        lemma_expr_forward(t, i);
        if let Ok((_, next)) = expr_at(t, i) {
            if is_at(t, next, Tok::Comma) {
                lemma_args_onward(t, next + 1);
            }
        }
    }
}

/// A field of a struct literal leads forward.
pub proof fn lemma_init_forward(t: Seq<Tok>, i: int)
    requires
        ended(t),
        0 <= i < t.len(),
    ensures
        forward(t, i, init_at(t, i)),
    decreases t.len() - i, 3int,
{
    if i + 2 < t.len() {
        lemma_expr_forward(t, i + 2);
    }
}

/// The fields of a struct literal lead onward.
pub proof fn lemma_inits_onward(t: Seq<Tok>, i: int)
    requires
        ended(t),
        0 <= i < t.len(),
    ensures
        onward(t, i, inits_at(t, i)),
        onward(t, i, init_list_at(t, i)),
    decreases t.len() - i, 4int,
{
    if !is_at(t, i, Tok::Eof) {
        lemma_init_forward(t, i);
        if let Ok((_, next)) = init_at(t, i) {
            if is_at(t, next, Tok::Comma) {
                lemma_inits_onward(t, next + 1);
            }
        }
    }
}

/// A `let` statement leads forward.
pub proof fn lemma_let_forward(t: Seq<Tok>, i: int)
    requires
        ended(t),
        is_at(t, i, Tok::Ident("let"@)),
    ensures
        forward(t, i, let_at(t, i)),
{
    if i + 3 < t.len() {
        lemma_expr_forward(t, i + 3);
    }
}

/// A function body leads onward.
pub proof fn lemma_body_onward(t: Seq<Tok>, i: int)
    requires
        ended(t),
        0 <= i < t.len(),
    ensures
        onward(t, i, body_at(t, i)),
    decreases t.len() - i,
{
    if is_at(t, i, Tok::RBrace) || is_at(t, i, Tok::Eof) {
    } else if is_at(t, i, Tok::Ident("let"@)) {
        lemma_let_forward(t, i);
        if let Ok((_, next)) = let_at(t, i) {
            lemma_body_onward(t, next);
        }
    } else {
        lemma_expr_forward(t, i);
        if let Ok((_, next)) = expr_at(t, i) {
            if is_at(t, next, Tok::Semicolon) {
                lemma_body_onward(t, next + 1);
            }
        }
    }
}

/// A definition leads forward.
pub proof fn lemma_item_forward(t: Seq<Tok>, i: int)
    requires
        ended(t),
        0 <= i < t.len(),
    ensures
        forward(t, i, item_at(t, i)),
{
    if is_at(t, i, Tok::Ident("struct"@)) {
        if i + 3 < t.len() {
            lemma_fields_onward(t, i + 3);
        }
    } else if is_at(t, i, Tok::Ident("fn"@)) {
        if let Ok((_, open)) = ident_at(t, i + 1) {
            if i + 3 < t.len() {
                lemma_params_onward(t, i + 3);
            }
            if let Ok((_, arrow)) = signature_params_at(t, open) {
                assert(i < arrow < t.len());
                if is_at(t, arrow, Tok::Arrow) {
                    lemma_type_forward(t, arrow + 1);
                }
                if let Ok((_, brace)) = return_type_at(t, arrow) {
                    if expect_at(t, brace, Tok::LBrace) is Ok {
                        lemma_body_onward(t, brace + 1);
                    }
                }
            }
        }
    }
}

/// Whether each definition of a registry stands under its own name, and each function has a body.
pub open spec fn complete(registry: RegistryView) -> bool {
    &&& forall|name: Seq<char>| #[trigger]
        registry.structs.contains_key(name) ==> registry.structs[name].name == name
    &&& forall|name: Seq<char>| #[trigger]
        registry.functions.contains_key(name) ==> registry.functions[name].name == name
            && registry.functions[name].body is Some
}

proof fn lemma_items_have_bodies(t: Seq<Tok>, i: int)
    ensures
        items_at(t, i) matches Ok((items, _)) ==> forall|k: int|
            0 <= k < items.len() ==> (#[trigger] items[k] matches ItemView::Function(f)
                ==> f.body is Some),
    decreases t.len() - i,
{
    if !is_at(t, i, Tok::Eof) {
        if let Ok((first, next)) = item_at(t, i) {
            if i < next <= t.len() {
                lemma_items_have_bodies(t, next);
                if let Ok((rest, _)) = items_at(t, next) {
                    let items = seq![first] + rest;
                    assert forall|k: int| 0 <= k < items.len() implies (
                    #[trigger] items[k] matches ItemView::Function(f) ==> f.body is Some) by {
                        if k > 0 {
                            assert(items[k] == rest[k - 1]);
                        }
                    }
                }
            }
        }
    }
}

proof fn lemma_registry_complete(items: Seq<ItemView>)
    requires
        forall|k: int|
            0 <= k < items.len() ==> (#[trigger] items[k] matches ItemView::Function(f)
                ==> f.body is Some),
    ensures
        complete(registry_of(items)),
    decreases items.len(),
{
    if items.len() > 0 {
        let fewer = items.drop_last();
        assert forall|k: int| 0 <= k < fewer.len() implies (
        #[trigger] fewer[k] matches ItemView::Function(f) ==> f.body is Some) by {
            assert(fewer[k] == items[k]);
        }
        lemma_registry_complete(fewer);
        assert(items.last() == items[items.len() - 1]);
    }
}

/// In the registry of a parsed program each definition stands under its own name, and each function
/// has a body.
pub proof fn law_parsed_programs_are_complete(t: Seq<Tok>)
    ensures
        program(t) matches Ok(registry) ==> complete(registry),
{
    lemma_items_have_bodies(t, 0);
    if let Ok((items, _)) = items_at(t, 0) {
        lemma_registry_complete(items);
    }
}

/// Of several definitions with one name the last one counts, and a definition of another name
/// changes nothing about it.
pub proof fn law_last_definition_counts(items: Seq<ItemView>, item: ItemView, name: Seq<char>)
    ensures
        match item {
            ItemView::Struct(s) => {
                let after = registry_of(items.push(item));
                &&& after.structs.contains_key(s.name) && after.structs[s.name] == s
                &&& name != s.name ==> after.structs.contains_key(name) == registry_of(
                    items,
                ).structs.contains_key(name) && after.structs[name] == registry_of(
                    items,
                ).structs[name]
                &&& after.functions == registry_of(items).functions
            },
            ItemView::Function(f) => {
                let after = registry_of(items.push(item));
                &&& after.functions.contains_key(f.name) && after.functions[f.name] == f
                &&& name != f.name ==> after.functions.contains_key(name) == registry_of(
                    items,
                ).functions.contains_key(name) && after.functions[name] == registry_of(
                    items,
                ).functions[name]
                &&& after.structs == registry_of(items).structs
            },
        },
{
    assert(items.push(item).drop_last() =~= items);
}

} // verus!
