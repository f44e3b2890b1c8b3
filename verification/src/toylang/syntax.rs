//! Programs as they are written down, and that the parser reads back what was written.
//!
//! The trees of this module have the shape of the grammar's rules. Each tree has a row of tokens
//! that it is written as, and a meaning in the registry or in a function body.
use vstd::prelude::*;

use crate::text::join;
use crate::toylang::ast::{ExprView, FnBodyView, StmtView};
use crate::toylang::grammar::{
    arg_list_at, body_at, call_args_at, calls_at, expect_at, expr_at, field_at, fields_at, fn_at,
    ident_at, init_at, init_list_at, inits_at, is_at, item_at, items_at, let_at, param_at,
    param_list_at, params_at, prepend_stmts, primary_at, program, registry_of, return_type_at,
    signature_params_at, struct_at, type_args_at, type_at, ItemView,
};
use crate::toylang::lexer::Tok;
use crate::toylang::registry::{
    FieldView, FunctionView, ParamView, RegistryView, StructView, ToyFieldType,
};

verus! {

/// Whether a row of tokens stands at `i`.
pub open spec fn row_at(t: Seq<Tok>, i: int, row: Seq<Tok>) -> bool {
    &&& 0 <= i <= i + row.len() <= t.len()
    &&& forall|k: int| 0 <= k < row.len() ==> t[i + k] == #[trigger] row[k]
}

proof fn lemma_row_split(t: Seq<Tok>, i: int, first: Seq<Tok>, second: Seq<Tok>)
    requires
        row_at(t, i, first + second),
    ensures
        row_at(t, i, first),
        row_at(t, i + first.len(), second),
{
    let row = first + second;
    assert forall|k: int| 0 <= k < first.len() implies t[i + k] == #[trigger] first[k] by {
        assert(row[k] == first[k]);
    }
    assert forall|k: int| 0 <= k < second.len() implies t[i + first.len() + k]
        == #[trigger] second[k] by {
        assert(row[first.len() + k] == second[k]);
    }
}

/// A comma, if something follows.
pub open spec fn comma_if(more: bool) -> Seq<Tok> {
    if more {
        seq![Tok::Comma]
    } else {
        Seq::empty()
    }
}

/// A type as it is written.
pub enum TypeTree {
    /// `&T` or `&mut T`
    Ref { mutable: bool, inner: Box<TypeTree> },
    /// `*const T` or `*mut T`
    Ptr { mutable: bool, inner: Box<TypeTree> },
    /// `Name` or `Name<A, B>`
    Named { name: Seq<char>, args: Seq<TypeTree> },
}

/// The tokens of a type.
pub open spec fn type_toks(ty: TypeTree) -> Seq<Tok>
    decreases ty, 0int,
{
    match ty {
        TypeTree::Ref { mutable, inner } => if mutable {
            seq![Tok::Ampersand, Tok::Ident("mut"@)] + type_toks(*inner)
        } else {
            seq![Tok::Ampersand] + type_toks(*inner)
        },
        TypeTree::Ptr { mutable, inner } => seq![
            Tok::Star,
            Tok::Ident(
                if mutable {
                    "mut"@
                } else {
                    "const"@
                },
            ),
        ] + type_toks(*inner),
        TypeTree::Named { name, args } => if args.len() == 0 {
            seq![Tok::Ident(name)]
        } else {
            seq![Tok::Ident(name), Tok::LAngle] + types_toks(args, 0) + seq![Tok::RAngle]
        },
    }
}

/// The tokens of the types from `i` on, with a comma between each two neighbours.
pub open spec fn types_toks(types: Seq<TypeTree>, i: int) -> Seq<Tok>
    decreases types, types.len() - i,
{
    if 0 <= i < types.len() {
        type_toks(types[i]) + comma_if(i + 1 < types.len()) + types_toks(types, i + 1)
    } else {
        Seq::empty()
    }
}

/// The text that stands for a type.
pub open spec fn type_text(ty: TypeTree) -> Seq<char>
    decreases ty, 0int,
{
    match ty {
        TypeTree::Ref { mutable, inner } => (if mutable {
            "&mut "@
        } else {
            "&"@
        }) + type_text(*inner),
        TypeTree::Ptr { mutable, inner } => "*"@ + (if mutable {
            "mut"@
        } else {
            "const"@
        }) + " "@ + type_text(*inner),
        TypeTree::Named { name, args } => if args.len() == 0 {
            name
        } else {
            name + "<"@ + join(types_text(args, 0), ", "@) + ">"@
        },
    }
}

/// The texts that stand for the types from `i` on.
pub open spec fn types_text(types: Seq<TypeTree>, i: int) -> Seq<Seq<char>>
    decreases types, types.len() - i,
{
    if 0 <= i < types.len() {
        seq![type_text(types[i])] + types_text(types, i + 1)
    } else {
        Seq::empty()
    }
}

/// Whether a type reads only one way: behind a `&` without `mut` stands no type that is itself
/// named `mut`.
pub open spec fn unambiguous(ty: TypeTree) -> bool
    decreases ty,
{
    match ty {
        TypeTree::Ref { mutable, inner } => {
            &&& !mutable ==> (*inner matches TypeTree::Named { name, .. } ==> name != "mut"@)
            &&& unambiguous(*inner)
        },
        TypeTree::Ptr { mutable, inner } => unambiguous(*inner),
        TypeTree::Named { name, args } => forall|k: int|
            0 <= k < args.len() ==> unambiguous(#[trigger] args[k]),
    }
}

/// A type has tokens, and what it begins with.
proof fn lemma_type_toks_start(ty: TypeTree)
    ensures
        type_toks(ty).len() > 0,
        type_toks(ty)[0] == match ty {
            TypeTree::Ref { .. } => Tok::Ampersand,
            TypeTree::Ptr { .. } => Tok::Star,
            TypeTree::Named { name, .. } => Tok::Ident(name),
        },
{
}

/// A type is read back from its tokens.
pub proof fn law_type_read_back(t: Seq<Tok>, i: int, ty: TypeTree)
    requires
        row_at(t, i, type_toks(ty)),
        !is_at(t, i + type_toks(ty).len(), Tok::LAngle),
        unambiguous(ty),
    ensures
        type_at(t, i) == Ok::<(Seq<char>, int), (Seq<char>, int)>(
            (type_text(ty), i + type_toks(ty).len()),
        ),
    decreases ty, 0int,
{
    let row = type_toks(ty);
    lemma_type_toks_start(ty);
    assert(t[i + 0] == row[0]);
    match ty {
        TypeTree::Ref { mutable, inner } => {
            lemma_type_toks_start(*inner);
            if mutable {
                lemma_row_split(t, i, seq![Tok::Ampersand, Tok::Ident("mut"@)], type_toks(*inner));
                assert(t[i + 1] == row[1]);
                law_type_read_back(t, i + 2, *inner);
            } else {
                lemma_row_split(t, i, seq![Tok::Ampersand], type_toks(*inner));
                assert(t[i + 1] == row[1]);
                assert(row[1] == type_toks(*inner)[0]);
                law_type_read_back(t, i + 1, *inner);
            }
        },
        TypeTree::Ptr { mutable, inner } => {
            let head = seq![
                Tok::Star,
                Tok::Ident(
                    if mutable {
                        "mut"@
                    } else {
                        "const"@
                    },
                ),
            ];
            lemma_row_split(t, i, head, type_toks(*inner));
            assert(t[i + 1] == row[1]);
            law_type_read_back(t, i + 2, *inner);
        },
        TypeTree::Named { name, args } => {
            if args.len() > 0 {
                let head = seq![Tok::Ident(name), Tok::LAngle];
                lemma_row_split(t, i, head + types_toks(args, 0), seq![Tok::RAngle]);
                lemma_row_split(t, i, head, types_toks(args, 0));
                assert(t[i + 1] == row[1]);
                let close = i + 2 + types_toks(args, 0).len();
                assert(t[close + 0] == seq![Tok::RAngle][0]);
                lemma_types_read_back(t, i + 2, args, 0);
            }
        },
    }
}

/// The types of a list are read back from their tokens.
proof fn lemma_types_read_back(t: Seq<Tok>, i: int, types: Seq<TypeTree>, k: int)
    requires
        0 <= k < types.len(),
        row_at(t, i, types_toks(types, k)),
        is_at(t, i + types_toks(types, k).len(), Tok::RAngle),
        forall|j: int| 0 <= j < types.len() ==> unambiguous(#[trigger] types[j]),
    ensures
        type_args_at(t, i) == Ok::<(Seq<Seq<char>>, int), (Seq<char>, int)>(
            (types_text(types, k), i + types_toks(types, k).len()),
        ),
    decreases types, types.len() - k,
{
    let first = type_toks(types[k]);
    let comma = comma_if(k + 1 < types.len());
    let rest = types_toks(types, k + 1);
    lemma_type_toks_start(types[k]);
    lemma_row_split(t, i, first + comma, rest);
    lemma_row_split(t, i, first, comma);
    let next = i + first.len();
    assert(t[i + 0] == first[0]);
    if k + 1 < types.len() {
        assert(t[next + 0] == comma[0]);
        law_type_read_back(t, i, types[k]);
        lemma_types_read_back(t, next + 1, types, k + 1);
    } else {
        assert(rest =~= Seq::empty());
        law_type_read_back(t, i, types[k]);
        assert(types_text(types, k + 1) =~= Seq::empty());
    }
}

/// The tokens of an expression.
pub open spec fn expr_toks(e: ExprView) -> Seq<Tok>
    decreases e, 0int,
{
    match e {
        ExprView::IntLit(n) => seq![Tok::IntLit(n)],
        ExprView::Var(name) => seq![Tok::Ident(name)],
        ExprView::StaticCall { ty, method, args } => seq![
            Tok::Ident(ty),
            Tok::DoubleColon,
            Tok::Ident(method),
        ] + call_toks(args),
        ExprView::MethodCall { receiver, method, args } => expr_toks(*receiver) + seq![
            Tok::Dot,
            Tok::Ident(method),
        ] + call_toks(args),
        ExprView::StructLit { name, fields } => seq![Tok::Ident(name), Tok::LBrace] + inits_toks(
            fields,
            0,
        ) + seq![Tok::RBrace],
    }
}

/// The tokens of the arguments of a call, with their parentheses.
pub open spec fn call_toks(args: Seq<ExprView>) -> Seq<Tok>
    decreases args, args.len() + 1,
{
    seq![Tok::LParen] + exprs_toks(args, 0) + seq![Tok::RParen]
}

/// The tokens of the expressions from `i` on, with a comma between each two neighbours.
pub open spec fn exprs_toks(exprs: Seq<ExprView>, i: int) -> Seq<Tok>
    decreases exprs, exprs.len() - i,
{
    if 0 <= i < exprs.len() {
        expr_toks(exprs[i]) + comma_if(i + 1 < exprs.len()) + exprs_toks(exprs, i + 1)
    } else {
        Seq::empty()
    }
}

/// The tokens of the fields of a struct literal from `i` on, with a comma between each two
/// neighbours.
pub open spec fn inits_toks(fields: Seq<(Seq<char>, ExprView)>, i: int) -> Seq<Tok>
    decreases fields, fields.len() - i,
{
    if 0 <= i < fields.len() {
        seq![Tok::Ident(fields[i].0), Tok::Colon] + expr_toks(fields[i].1) + comma_if(
            i + 1 < fields.len(),
        ) + inits_toks(fields, i + 1)
    } else {
        Seq::empty()
    }
}

/// Whether no token at `i` carries on the expression in front of it.
pub open spec fn expr_stops(t: Seq<Tok>, i: int) -> bool {
    &&& !is_at(t, i, Tok::Dot)
    &&& !is_at(t, i, Tok::DoubleColon)
    &&& !is_at(t, i, Tok::LBrace)
}

/// An expression has tokens, and what it begins with.
proof fn lemma_expr_toks_start(e: ExprView)
    ensures
        expr_toks(e).len() > 0,
        expr_toks(e)[0] is IntLit || expr_toks(e)[0] is Ident,
    decreases e,
{
    if let ExprView::MethodCall { receiver, .. } = e {
        lemma_expr_toks_start(*receiver);
    }
}

/// Behind the tokens of an expression the parser has read the expression and goes on with the
/// method calls that follow.
proof fn lemma_expr_read(t: Seq<Tok>, i: int, e: ExprView)
    requires
        row_at(t, i, expr_toks(e)),
        e is Var ==> !is_at(t, i + 1, Tok::DoubleColon) && !is_at(t, i + 1, Tok::LBrace),
    ensures
        expr_at(t, i) == calls_at(t, e, i + expr_toks(e).len()),
    decreases e, 1int,
{
    if let ExprView::MethodCall { receiver, method, args } = e {
        let first = expr_toks(*receiver);
        let head = seq![Tok::Dot, Tok::Ident(method)];
        lemma_row_split(t, i, first + head, call_toks(args));
        lemma_row_split(t, i, first, head);
        let dot = i + first.len();
        assert(t[dot + 0] == head[0]);
        assert(t[dot + 1] == head[1]);
        lemma_expr_read(t, i, *receiver);
        lemma_call_read_back(t, dot + 2, args);
        assert(calls_at(t, *receiver, dot) == calls_at(t, e, dot + 2 + call_toks(args).len()));
    } else {
        lemma_primary_read(t, i, e);
    }
}

/// An expression without method calls behind it is read back from its tokens.
proof fn lemma_primary_read(t: Seq<Tok>, i: int, e: ExprView)
    requires
        e !is MethodCall,
        row_at(t, i, expr_toks(e)),
        e is Var ==> !is_at(t, i + 1, Tok::DoubleColon) && !is_at(t, i + 1, Tok::LBrace),
    ensures
        expr_toks(e).len() > 0,
        primary_at(t, i) == Ok::<(ExprView, int), (Seq<char>, int)>((e, i + expr_toks(e).len())),
    decreases e, 0int,
{
    let row = expr_toks(e);
    assert(t[i + 0] == row[0]);
    match e {
        ExprView::StaticCall { ty, method, args } => {
            let head = seq![Tok::Ident(ty), Tok::DoubleColon, Tok::Ident(method)];
            lemma_row_split(t, i, head, call_toks(args));
            assert(t[i + 1] == head[1]);
            assert(t[i + 2] == head[2]);
            lemma_call_read_back(t, i + 3, args);
        },
        ExprView::StructLit { name, fields } => {
            let head = seq![Tok::Ident(name), Tok::LBrace];
            lemma_row_split(t, i, head + inits_toks(fields, 0), seq![Tok::RBrace]);
            lemma_row_split(t, i, head, inits_toks(fields, 0));
            assert(t[i + 1] == head[1]);
            let close = i + 2 + inits_toks(fields, 0).len();
            assert(t[close + 0] == seq![Tok::RBrace][0]);
            if fields.len() > 0 {
                lemma_inits_read_back(t, i + 2, fields, 0);
            } else {
                assert(fields =~= Seq::empty());
            }
            assert(fields.skip(0) =~= fields);
            assert(inits_at(t, i + 2) == Ok::<
                (Seq<(Seq<char>, ExprView)>, int),
                (Seq<char>, int),
            >((fields, close)));
        },
        _ => {},
    }
}

/// The arguments of a call are read back from their tokens.
proof fn lemma_call_read_back(t: Seq<Tok>, i: int, args: Seq<ExprView>)
    requires
        row_at(t, i, call_toks(args)),
    ensures
        call_args_at(t, i) == Ok::<(Seq<ExprView>, int), (Seq<char>, int)>(
            (args, i + call_toks(args).len()),
        ),
    decreases args, args.len() + 1,
{
    let open = seq![Tok::LParen];
    let close = seq![Tok::RParen];
    lemma_row_split(t, i, open + exprs_toks(args, 0), close);
    lemma_row_split(t, i, open, exprs_toks(args, 0));
    let end = i + 1 + exprs_toks(args, 0).len();
    assert(t[i + 0] == open[0]);
    assert(t[end + 0] == close[0]);
    if args.len() > 0 {
        lemma_exprs_read_back(t, i + 1, args, 0);
    } else {
        assert(args =~= Seq::empty());
    }
    assert(args.skip(0) =~= args);
}

/// An expression is read back from its tokens.
pub proof fn law_expr_read_back(t: Seq<Tok>, i: int, e: ExprView)
    requires
        row_at(t, i, expr_toks(e)),
        expr_stops(t, i + expr_toks(e).len()),
    ensures
        expr_at(t, i) == Ok::<(ExprView, int), (Seq<char>, int)>((e, i + expr_toks(e).len())),
    decreases e, 2int,
{
    lemma_expr_read(t, i, e);
}

/// The expressions of a list are read back from their tokens.
proof fn lemma_exprs_read_back(t: Seq<Tok>, i: int, exprs: Seq<ExprView>, k: int)
    requires
        0 <= k < exprs.len(),
        row_at(t, i, exprs_toks(exprs, k)),
        is_at(t, i + exprs_toks(exprs, k).len(), Tok::RParen),
    ensures
        !is_at(t, i, Tok::RParen),
        arg_list_at(t, i) == Ok::<(Seq<ExprView>, int), (Seq<char>, int)>(
            (exprs.skip(k), i + exprs_toks(exprs, k).len()),
        ),
    decreases exprs, exprs.len() - k,
{
    let first = expr_toks(exprs[k]);
    let comma = comma_if(k + 1 < exprs.len());
    let rest = exprs_toks(exprs, k + 1);
    lemma_expr_toks_start(exprs[k]);
    lemma_row_split(t, i, first + comma, rest);
    lemma_row_split(t, i, first, comma);
    let next = i + first.len();
    assert(t[i + 0] == first[0]);
    assert(exprs.skip(k) =~= seq![exprs[k]] + exprs.skip(k + 1));
    if k + 1 < exprs.len() {
        assert(t[next + 0] == comma[0]);
        law_expr_read_back(t, i, exprs[k]);
        lemma_exprs_read_back(t, next + 1, exprs, k + 1);
    } else {
        assert(rest =~= Seq::empty());
        law_expr_read_back(t, i, exprs[k]);
        assert(exprs.skip(k + 1) =~= Seq::empty());
    }
}

/// The fields of a struct literal are read back from their tokens.
proof fn lemma_inits_read_back(t: Seq<Tok>, i: int, fields: Seq<(Seq<char>, ExprView)>, k: int)
    requires
        0 <= k < fields.len(),
        row_at(t, i, inits_toks(fields, k)),
        is_at(t, i + inits_toks(fields, k).len(), Tok::RBrace),
    ensures
        !is_at(t, i, Tok::RBrace),
        init_list_at(t, i) == Ok::<(Seq<(Seq<char>, ExprView)>, int), (Seq<char>, int)>(
            (fields.skip(k), i + inits_toks(fields, k).len()),
        ),
    decreases fields, fields.len() - k,
{
    let head = seq![Tok::Ident(fields[k].0), Tok::Colon];
    let value = expr_toks(fields[k].1);
    let comma = comma_if(k + 1 < fields.len());
    let rest = inits_toks(fields, k + 1);
    lemma_expr_toks_start(fields[k].1);
    lemma_row_split(t, i, head + value + comma, rest);
    lemma_row_split(t, i, head + value, comma);
    lemma_row_split(t, i, head, value);
    let next = i + 2 + value.len();
    assert(t[i + 0] == head[0]);
    assert(t[i + 1] == head[1]);
    assert(fields.skip(k) =~= seq![fields[k]] + fields.skip(k + 1));
    if k + 1 < fields.len() {
        assert(t[next + 0] == comma[0]);
    } else {
        assert(rest =~= Seq::empty());
        assert(fields.skip(k + 1) =~= Seq::empty());
    }
    law_expr_read_back(t, i + 2, fields[k].1);
    assert(init_at(t, i) == Ok::<((Seq<char>, ExprView), int), (Seq<char>, int)>(
        (fields[k], next),
    ));
    if k + 1 < fields.len() {
        lemma_inits_read_back(t, next + 1, fields, k + 1);
    }
}

/// The tokens of a statement.
pub open spec fn stmt_toks(stmt: StmtView) -> Seq<Tok> {
    match stmt {
        StmtView::Let { name, expr } => seq![Tok::Ident("let"@), Tok::Ident(name), Tok::Equals]
            + expr_toks(expr) + seq![Tok::Semicolon],
        StmtView::ExprStmt(expr) => expr_toks(expr) + seq![Tok::Semicolon],
    }
}

/// The tokens of a function body from statement `i` on, with the brace that closes it.
pub open spec fn body_toks(body: FnBodyView, i: int) -> Seq<Tok>
    decreases body.stmts.len() - i,
{
    if 0 <= i < body.stmts.len() {
        stmt_toks(body.stmts[i]) + body_toks(body, i + 1)
    } else {
        match body.ret {
            Some(e) => expr_toks(e) + seq![Tok::RBrace],
            None => seq![Tok::RBrace],
        }
    }
}

/// Whether an expression can stand where a statement can: it does not begin with the name `let`.
pub open spec fn no_let(e: ExprView) -> bool {
    expr_toks(e)[0] != Tok::Ident("let"@)
}

/// Whether a function body reads only one way.
pub open spec fn readable_body(body: FnBodyView) -> bool {
    &&& forall|k: int|
        0 <= k < body.stmts.len() ==> (#[trigger] body.stmts[k] matches StmtView::ExprStmt(e)
            ==> no_let(e))
    &&& body.ret matches Some(e) ==> no_let(e)
}

/// A `let` statement is read back from its tokens.
proof fn lemma_let_read_back(t: Seq<Tok>, i: int, name: Seq<char>, expr: ExprView)
    requires
        row_at(t, i, stmt_toks(StmtView::Let { name, expr })),
    ensures
        is_at(t, i, Tok::Ident("let"@)),
        let_at(t, i) == Ok::<(StmtView, int), (Seq<char>, int)>(
            (
                StmtView::Let { name, expr },
                i + stmt_toks(StmtView::Let { name, expr }).len(),
            ),
        ),
{
    let head = seq![Tok::Ident("let"@), Tok::Ident(name), Tok::Equals];
    assert(head + expr_toks(expr) + seq![Tok::Semicolon] =~= head + (expr_toks(expr) + seq![
        Tok::Semicolon,
    ]));
    lemma_row_split(t, i, head, expr_toks(expr) + seq![Tok::Semicolon]);
    assert(t[i + 0] == head[0]);
    assert(t[i + 1] == head[1]);
    assert(t[i + 2] == head[2]);
    lemma_expr_before(t, i + 3, expr, Tok::Semicolon);
}

/// An expression is read back from its tokens where a token that does not carry it on follows.
proof fn lemma_expr_before(t: Seq<Tok>, i: int, e: ExprView, after: Tok)
    requires
        row_at(t, i, expr_toks(e) + seq![after]),
        after == Tok::Semicolon || after == Tok::RBrace,
    ensures
        t[i] == expr_toks(e)[0],
        t[i] is IntLit || t[i] is Ident,
        expr_toks(e).len() > 0,
        is_at(t, i + expr_toks(e).len(), after),
        expr_at(t, i) == Ok::<(ExprView, int), (Seq<char>, int)>((e, i + expr_toks(e).len())),
{
    let tail = seq![after];
    lemma_expr_toks_start(e);
    lemma_row_split(t, i, expr_toks(e), tail);
    assert(t[i + 0] == expr_toks(e)[0]);
    let end = i + expr_toks(e).len();
    assert(t[end + 0] == tail[0]);
    law_expr_read_back(t, i, e);
}

/// The end of a function body is read back from its tokens.
proof fn lemma_body_end_read_back(t: Seq<Tok>, i: int, body: FnBodyView)
    requires
        row_at(t, i, body_toks(body, body.stmts.len() as int)),
        readable_body(body),
    ensures
        body_at(t, i) == Ok::<(FnBodyView, int), (Seq<char>, int)>(
            (
                FnBodyView { stmts: Seq::empty(), ret: body.ret },
                i + body_toks(body, body.stmts.len() as int).len(),
            ),
        ),
{
    match body.ret {
        Some(e) => {
            lemma_expr_before(t, i, e, Tok::RBrace);
        },
        None => {
            assert(t[i + 0] == seq![Tok::RBrace][0]);
        },
    }
}

/// A function body that begins with a `let` statement.
proof fn lemma_body_after_let(t: Seq<Tok>, i: int, stmt: StmtView, next: int)
    requires
        is_at(t, i, Tok::Ident("let"@)),
        let_at(t, i) == Ok::<(StmtView, int), (Seq<char>, int)>((stmt, next)),
        i < next <= t.len(),
    ensures
        body_at(t, i) == prepend_stmts(seq![stmt], body_at(t, next)),
{
}

/// A function body that begins with an expression and a semicolon.
proof fn lemma_body_after_expr(t: Seq<Tok>, i: int, expr: ExprView, semicolon: int)
    requires
        0 <= i < semicolon,
        t[i] is IntLit || t[i] is Ident,
        t[i] != Tok::Ident("let"@),
        expr_at(t, i) == Ok::<(ExprView, int), (Seq<char>, int)>((expr, semicolon)),
        is_at(t, semicolon, Tok::Semicolon),
    ensures
        body_at(t, i) == prepend_stmts(
            seq![StmtView::ExprStmt(expr)],
            body_at(t, semicolon + 1),
        ),
{
}

/// A `let` statement of a function body is read back from its tokens, and the rest of the body
/// behind it.
proof fn lemma_let_stmt_read_back(t: Seq<Tok>, i: int, name: Seq<char>, expr: ExprView)
    requires
        row_at(t, i, stmt_toks(StmtView::Let { name, expr })),
    ensures
        body_at(t, i) == prepend_stmts(
            seq![StmtView::Let { name, expr }],
            body_at(t, i + stmt_toks(StmtView::Let { name, expr }).len()),
        ),
{
    let stmt = StmtView::Let { name, expr };
    let len = stmt_toks(stmt).len();
    lemma_let_read_back(t, i, name, expr);
    assert(len > 0);
    lemma_body_after_let(t, i, stmt, i + len);
}

/// An expression statement of a function body is read back from its tokens, and the rest of the
/// body behind it.
proof fn lemma_expr_stmt_read_back(t: Seq<Tok>, i: int, expr: ExprView)
    requires
        row_at(t, i, expr_toks(expr) + seq![Tok::Semicolon]),
        no_let(expr),
    ensures
        body_at(t, i) == prepend_stmts(
            seq![StmtView::ExprStmt(expr)],
            body_at(t, i + expr_toks(expr).len() + 1),
        ),
{
    lemma_expr_before(t, i, expr, Tok::Semicolon);
    lemma_body_after_expr(t, i, expr, i + expr_toks(expr).len());
}

/// The statements of a function body from `k` on are the one at `k` and those behind it.
proof fn lemma_body_step(body: FnBodyView, k: int, end: int)
    requires
        0 <= k < body.stmts.len(),
    ensures
        prepend_stmts(
            seq![body.stmts[k]],
            Ok((FnBodyView { stmts: body.stmts.skip(k + 1), ret: body.ret }, end)),
        ) == Ok::<(FnBodyView, int), (Seq<char>, int)>(
            (FnBodyView { stmts: body.stmts.skip(k), ret: body.ret }, end),
        ),
{
    assert(body.stmts.skip(k) =~= seq![body.stmts[k]] + body.stmts.skip(k + 1));
}

/// A statement of a function body is read back from its tokens, and the rest of the body behind it.
proof fn lemma_stmt_read_back(t: Seq<Tok>, i: int, stmt: StmtView)
    requires
        row_at(t, i, stmt_toks(stmt)),
        stmt matches StmtView::ExprStmt(e) ==> no_let(e),
    ensures
        body_at(t, i) == prepend_stmts(seq![stmt], body_at(t, i + stmt_toks(stmt).len())),
{
    match stmt {
        StmtView::Let { name, expr } => lemma_let_stmt_read_back(t, i, name, expr),
        StmtView::ExprStmt(expr) => lemma_expr_stmt_read_back(t, i, expr),
    }
}

/// A function body is read back from its tokens, from statement `k` on.
pub proof fn law_body_read_back(t: Seq<Tok>, i: int, body: FnBodyView, k: int)
    requires
        0 <= k <= body.stmts.len(),
        row_at(t, i, body_toks(body, k)),
        readable_body(body),
    ensures
        body_at(t, i) == Ok::<(FnBodyView, int), (Seq<char>, int)>(
            (
                FnBodyView { stmts: body.stmts.skip(k), ret: body.ret },
                i + body_toks(body, k).len(),
            ),
        ),
    decreases body.stmts.len() - k,
{
    if k < body.stmts.len() {
        let stmt = body.stmts[k];
        lemma_row_split(t, i, stmt_toks(stmt), body_toks(body, k + 1));
        let next = i + stmt_toks(stmt).len();
        lemma_stmt_read_back(t, i, stmt);
        law_body_read_back(t, next, body, k + 1);
        lemma_body_step(body, k, next + body_toks(body, k + 1).len());
    } else {
        lemma_body_end_read_back(t, i, body);
        assert(body.stmts.skip(k) =~= Seq::empty());
    }
}

/// The name of a field type.
pub open spec fn primitive_name(ty: ToyFieldType) -> Seq<char> {
    match ty {
        ToyFieldType::I32 => "i32"@,
        ToyFieldType::I64 => "i64"@,
        ToyFieldType::F64 => "f64"@,
        ToyFieldType::Bool => "bool"@,
    }
}

/// The tokens of a field of a struct definition.
pub open spec fn field_toks(field: FieldView) -> Seq<Tok> {
    seq![Tok::Ident(field.name), Tok::Colon, Tok::Ident(primitive_name(field.rust_type))]
}

/// The tokens of the fields from `i` on, with a comma between each two neighbours and, if
/// `trailing`, behind the last one.
pub open spec fn fields_toks(fields: Seq<FieldView>, trailing: bool, i: int) -> Seq<Tok>
    decreases fields.len() - i,
{
    if 0 <= i < fields.len() {
        field_toks(fields[i]) + comma_if(trailing || i + 1 < fields.len()) + fields_toks(
            fields,
            trailing,
            i + 1,
        )
    } else {
        Seq::empty()
    }
}

/// The fields of a struct definition are read back from their tokens.
proof fn lemma_fields_read_back(
    t: Seq<Tok>,
    i: int,
    fields: Seq<FieldView>,
    trailing: bool,
    k: int,
)
    requires
        0 <= k <= fields.len(),
        row_at(t, i, fields_toks(fields, trailing, k)),
        is_at(t, i + fields_toks(fields, trailing, k).len(), Tok::RBrace),
    ensures
        fields_at(t, i) == Ok::<(Seq<FieldView>, int), (Seq<char>, int)>(
            (fields.skip(k), i + fields_toks(fields, trailing, k).len()),
        ),
    decreases fields.len() - k,
{
    if k < fields.len() {
        let first = field_toks(fields[k]);
        let comma = comma_if(trailing || k + 1 < fields.len());
        let rest = fields_toks(fields, trailing, k + 1);
        lemma_row_split(t, i, first + comma, rest);
        lemma_row_split(t, i, first, comma);
        assert(t[i + 0] == first[0]);
        assert(t[i + 1] == first[1]);
        assert(t[i + 2] == first[2]);
        if comma.len() > 0 {
            assert(t[i + 3 + 0] == comma[0]);
        }
        assert(field_at(t, i) == Ok::<(FieldView, int), (Seq<char>, int)>((fields[k], i + 3))) by {
            lemma_primitive_names_differ();
        }
        if comma.len() > 0 {
            lemma_fields_read_back(t, i + 4, fields, trailing, k + 1);
        } else {
            assert(rest =~= Seq::empty());
            assert(fields.skip(k + 1) =~= Seq::empty());
        }
        assert(fields.skip(k) =~= seq![fields[k]] + fields.skip(k + 1));
    } else {
        assert(fields.skip(k) =~= Seq::empty());
    }
}

/// The names of the field types differ.
proof fn lemma_primitive_names_differ()
    ensures
        "i32"@ != "i64"@,
        "i32"@ != "f64"@,
        "i32"@ != "bool"@,
        "i64"@ != "f64"@,
        "i64"@ != "bool"@,
        "f64"@ != "bool"@,
{
    reveal_strlit("i32");
    reveal_strlit("i64");
    reveal_strlit("f64");
    reveal_strlit("bool");
    assert("i32"@[1] != "i64"@[1]);
    assert("i32"@[0] != "f64"@[0]);
    assert("i64"@[0] != "f64"@[0]);
    assert("i32"@.len() != "bool"@.len());
}

/// A parameter as it is written.
pub struct ParamTree {
    pub name: Seq<char>,
    pub ty: TypeTree,
}

/// A function definition as it is written.
pub struct FnTree {
    pub name: Seq<char>,
    pub params: Seq<ParamTree>,
    pub return_ty: Option<TypeTree>,
    pub body: FnBodyView,
}

/// The tokens of the parameters from `i` on, with a comma between each two neighbours.
pub open spec fn params_toks(params: Seq<ParamTree>, i: int) -> Seq<Tok>
    decreases params.len() - i,
{
    if 0 <= i < params.len() {
        seq![Tok::Ident(params[i].name), Tok::Colon] + type_toks(params[i].ty) + comma_if(
            i + 1 < params.len(),
        ) + params_toks(params, i + 1)
    } else {
        Seq::empty()
    }
}

/// What a parameter means.
pub open spec fn param_of(param: ParamTree) -> ParamView {
    ParamView { name: param.name, ty: type_text(param.ty) }
}

/// What parameters mean.
pub open spec fn params_of(params: Seq<ParamTree>) -> Seq<ParamView> {
    params.map_values(|p: ParamTree| param_of(p))
}

/// The parameters of a function definition are read back from their tokens.
proof fn lemma_params_read_back(t: Seq<Tok>, i: int, params: Seq<ParamTree>, k: int)
    requires
        0 <= k < params.len(),
        row_at(t, i, params_toks(params, k)),
        is_at(t, i + params_toks(params, k).len(), Tok::RParen),
        forall|j: int| 0 <= j < params.len() ==> unambiguous((#[trigger] params[j]).ty),
    ensures
        !is_at(t, i, Tok::RParen),
        param_list_at(t, i) == Ok::<(Seq<ParamView>, int), (Seq<char>, int)>(
            (params_of(params).skip(k), i + params_toks(params, k).len()),
        ),
    decreases params.len() - k,
{
    let head = seq![Tok::Ident(params[k].name), Tok::Colon];
    let ty = type_toks(params[k].ty);
    let comma = comma_if(k + 1 < params.len());
    let rest = params_toks(params, k + 1);
    lemma_type_toks_start(params[k].ty);
    lemma_row_split(t, i, head + ty + comma, rest);
    lemma_row_split(t, i, head + ty, comma);
    lemma_row_split(t, i, head, ty);
    let next = i + 2 + ty.len();
    assert(t[i + 0] == head[0]);
    assert(t[i + 1] == head[1]);
    if k + 1 < params.len() {
        assert(t[next + 0] == comma[0]);
    } else {
        assert(rest =~= Seq::empty());
        assert(params_of(params).skip(k + 1) =~= Seq::empty());
    }
    law_type_read_back(t, i + 2, params[k].ty);
    assert(param_at(t, i) == Ok::<(ParamView, int), (Seq<char>, int)>(
        (param_of(params[k]), next),
    ));
    assert(params_of(params).skip(k) =~= seq![param_of(params[k])] + params_of(params).skip(k + 1));
    if k + 1 < params.len() {
        lemma_params_read_back(t, next + 1, params, k + 1);
    }
}

/// The tokens of a return type, with its arrow.
pub open spec fn return_type_toks(ty: Option<TypeTree>) -> Seq<Tok> {
    match ty {
        Some(tree) => seq![Tok::Arrow] + type_toks(tree),
        None => Seq::empty(),
    }
}

/// The tokens of the signature of a function definition, up to the brace that opens its body.
pub open spec fn signature_toks(f: FnTree) -> Seq<Tok> {
    seq![Tok::Ident("fn"@), Tok::Ident(f.name), Tok::LParen] + params_toks(f.params, 0) + seq![
        Tok::RParen,
    ] + return_type_toks(f.return_ty) + seq![Tok::LBrace]
}

/// The tokens of a function definition.
pub open spec fn fn_toks(f: FnTree) -> Seq<Tok> {
    signature_toks(f) + body_toks(f.body, 0)
}

/// What a function definition means.
pub open spec fn function_of(f: FnTree) -> FunctionView {
    FunctionView {
        name: f.name,
        params: params_of(f.params),
        return_ty: match f.return_ty {
            Some(tree) => Some(type_text(tree)),
            None => None,
        },
        body: Some(f.body),
    }
}

/// Whether a function definition reads only one way.
pub open spec fn readable_fn(f: FnTree) -> bool {
    &&& forall|k: int| 0 <= k < f.params.len() ==> unambiguous((#[trigger] f.params[k]).ty)
    &&& f.return_ty matches Some(tree) ==> unambiguous(tree)
    &&& readable_body(f.body)
}

/// The signature of a function definition is read back from its tokens.
proof fn lemma_signature_read_back(t: Seq<Tok>, i: int, f: FnTree)
    requires
        row_at(t, i, signature_toks(f)),
        readable_fn(f),
    ensures
        is_at(t, i, Tok::Ident("fn"@)),
        ident_at(t, i + 1) == Ok::<(Seq<char>, int), (Seq<char>, int)>((f.name, i + 2)),
        signature_params_at(t, i + 2) matches Ok((params, arrow)) && {
            &&& params == params_of(f.params)
            &&& return_type_at(t, arrow) == Ok::<(Option<Seq<char>>, int), (Seq<char>, int)>(
                (function_of(f).return_ty, i + signature_toks(f).len() - 1),
            )
        },
        is_at(t, i + signature_toks(f).len() - 1, Tok::LBrace),
{
    let head = seq![Tok::Ident("fn"@), Tok::Ident(f.name), Tok::LParen];
    let params = params_toks(f.params, 0);
    let close = seq![Tok::RParen];
    let ret = return_type_toks(f.return_ty);
    let brace = seq![Tok::LBrace];
    lemma_row_split(t, i, head + params + close + ret, brace);
    lemma_row_split(t, i, head + params + close, ret);
    lemma_row_split(t, i, head + params, close);
    lemma_row_split(t, i, head, params);
    assert(t[i + 0] == head[0]);
    assert(t[i + 1] == head[1]);
    assert(t[i + 2] == head[2]);
    let end = i + 3 + params.len();
    assert(t[end + 0] == close[0]);
    if f.params.len() > 0 {
        lemma_params_read_back(t, i + 3, f.params, 0);
    } else {
        assert(params_of(f.params) =~= Seq::empty());
    }
    assert(params_of(f.params).skip(0) =~= params_of(f.params));
    assert(params_at(t, i + 3) == Ok::<(Seq<ParamView>, int), (Seq<char>, int)>(
        (params_of(f.params), end),
    ));
    let last = end + 1 + ret.len();
    assert(t[last + 0] == brace[0]);
    if let Some(tree) = f.return_ty {
        let arrow = seq![Tok::Arrow];
        lemma_row_split(t, end + 1, arrow, type_toks(tree));
        assert(t[end + 1 + 0] == arrow[0]);
        law_type_read_back(t, end + 2, tree);
    }
}

/// A function definition is read back from its tokens.
pub proof fn law_fn_read_back(t: Seq<Tok>, i: int, f: FnTree)
    requires
        row_at(t, i, fn_toks(f)),
        readable_fn(f),
    ensures
        is_at(t, i, Tok::Ident("fn"@)),
        fn_at(t, i) == Ok::<(FunctionView, int), (Seq<char>, int)>(
            (function_of(f), i + fn_toks(f).len()),
        ),
{
    lemma_row_split(t, i, signature_toks(f), body_toks(f.body, 0));
    lemma_signature_read_back(t, i, f);
    let brace = i + signature_toks(f).len() - 1;
    law_body_read_back(t, brace + 1, f.body, 0);
    assert(f.body.stmts.skip(0) =~= f.body.stmts);
    assert(expect_at(t, brace, Tok::LBrace) == Ok::<((), int), (Seq<char>, int)>(((), brace + 1)));
}

/// A definition as it is written.
pub enum ItemTree {
    /// A struct, with a comma behind its last field or without.
    Struct { def: StructView, trailing: bool },
    Function(FnTree),
}

/// The tokens of a definition.
pub open spec fn item_toks(item: ItemTree) -> Seq<Tok> {
    match item {
        ItemTree::Struct { def, trailing } => seq![
            Tok::Ident("struct"@),
            Tok::Ident(def.name),
            Tok::LBrace,
        ] + fields_toks(def.fields, trailing, 0) + seq![Tok::RBrace],
        ItemTree::Function(f) => fn_toks(f),
    }
}

/// What a definition means.
pub open spec fn item_of(item: ItemTree) -> ItemView {
    match item {
        ItemTree::Struct { def, .. } => ItemView::Struct(def),
        ItemTree::Function(f) => ItemView::Function(function_of(f)),
    }
}

/// Whether a definition reads only one way.
pub open spec fn readable(item: ItemTree) -> bool {
    item matches ItemTree::Function(f) ==> readable_fn(f)
}

/// The tokens of the definitions from `i` on, and the end of the text.
pub open spec fn program_toks(items: Seq<ItemTree>, i: int) -> Seq<Tok>
    decreases items.len() - i,
{
    if 0 <= i < items.len() {
        item_toks(items[i]) + program_toks(items, i + 1)
    } else {
        seq![Tok::Eof]
    }
}

/// A struct definition is read back from its tokens.
pub proof fn law_struct_read_back(t: Seq<Tok>, i: int, def: StructView, trailing: bool)
    requires
        row_at(t, i, item_toks(ItemTree::Struct { def, trailing })),
    ensures
        is_at(t, i, Tok::Ident("struct"@)),
        struct_at(t, i) == Ok::<(StructView, int), (Seq<char>, int)>(
            (def, i + item_toks(ItemTree::Struct { def, trailing }).len()),
        ),
{
    let head = seq![Tok::Ident("struct"@), Tok::Ident(def.name), Tok::LBrace];
    let fields = fields_toks(def.fields, trailing, 0);
    let close = seq![Tok::RBrace];
    lemma_row_split(t, i, head + fields, close);
    lemma_row_split(t, i, head, fields);
    assert(t[i + 0] == head[0]);
    assert(t[i + 1] == head[1]);
    assert(t[i + 2] == head[2]);
    let end = i + 3 + fields.len();
    assert(t[end + 0] == close[0]);
    lemma_fields_read_back(t, i + 3, def.fields, trailing, 0);
    assert(def.fields.skip(0) =~= def.fields);
}

/// The keywords of the definitions differ.
proof fn lemma_keywords_differ()
    ensures
        "struct"@ != "fn"@,
{
    reveal_strlit("struct");
    reveal_strlit("fn");
    assert("struct"@.len() != "fn"@.len());
}

/// A struct definition is a definition.
proof fn lemma_struct_item(t: Seq<Tok>, i: int, def: StructView, end: int)
    requires
        is_at(t, i, Tok::Ident("struct"@)),
        struct_at(t, i) == Ok::<(StructView, int), (Seq<char>, int)>((def, end)),
    ensures
        item_at(t, i) == Ok::<(ItemView, int), (Seq<char>, int)>((ItemView::Struct(def), end)),
{
}

/// A function definition is a definition.
proof fn lemma_fn_item(t: Seq<Tok>, i: int, f: FunctionView, end: int)
    requires
        is_at(t, i, Tok::Ident("fn"@)),
        fn_at(t, i) == Ok::<(FunctionView, int), (Seq<char>, int)>((f, end)),
    ensures
        item_at(t, i) == Ok::<(ItemView, int), (Seq<char>, int)>((ItemView::Function(f), end)),
{
    lemma_keywords_differ();
}

/// A definition has tokens.
proof fn lemma_item_toks_start(item: ItemTree)
    ensures
        item_toks(item).len() > 0,
{
    if let ItemTree::Function(f) = item {
        let head = seq![Tok::Ident("fn"@), Tok::Ident(f.name), Tok::LParen];
        assert(signature_toks(f).len() >= head.len());
        assert(item_toks(item).len() >= signature_toks(f).len());
    }
}

/// A definition is read back from its tokens.
pub proof fn law_item_read_back(t: Seq<Tok>, i: int, item: ItemTree)
    requires
        row_at(t, i, item_toks(item)),
        readable(item),
    ensures
        !is_at(t, i, Tok::Eof),
        item_at(t, i) == Ok::<(ItemView, int), (Seq<char>, int)>(
            (item_of(item), i + item_toks(item).len()),
        ),
{
    match item {
        ItemTree::Struct { def, trailing } => {
            law_struct_read_back(t, i, def, trailing);
            lemma_struct_item(t, i, def, i + item_toks(item).len());
        },
        ItemTree::Function(f) => {
            law_fn_read_back(t, i, f);
            lemma_fn_item(t, i, function_of(f), i + item_toks(item).len());
        },
    }
}

/// What definitions mean.
pub open spec fn items_of(items: Seq<ItemTree>) -> Seq<ItemView> {
    items.map_values(|item: ItemTree| item_of(item))
}

proof fn lemma_items_read_back(t: Seq<Tok>, i: int, items: Seq<ItemTree>, k: int)
    requires
        0 <= k <= items.len(),
        row_at(t, i, program_toks(items, k)),
        forall|j: int| 0 <= j < items.len() ==> readable(#[trigger] items[j]),
    ensures
        items_at(t, i) matches Ok((found, _)) && found == items_of(items).skip(k),
    decreases items.len() - k,
{
    if k < items.len() {
        let first = item_toks(items[k]);
        lemma_row_split(t, i, first, program_toks(items, k + 1));
        lemma_item_toks_start(items[k]);
        law_item_read_back(t, i, items[k]);
        lemma_items_read_back(t, i + first.len(), items, k + 1);
        assert(items_of(items).skip(k) =~= seq![item_of(items[k])] + items_of(items).skip(k + 1));
    } else {
        assert(t[i + 0] == seq![Tok::Eof][0]);
        assert(items_of(items).skip(k) =~= Seq::empty());
    }
}

/// A program is read back from its tokens: the registry holds its definitions.
pub proof fn law_program_read_back(items: Seq<ItemTree>)
    requires
        forall|k: int| 0 <= k < items.len() ==> readable(#[trigger] items[k]),
    ensures
        program(program_toks(items, 0)) == Ok::<RegistryView, Seq<char>>(
            registry_of(items_of(items)),
        ),
{
    let t = program_toks(items, 0);
    assert forall|k: int| 0 <= k < t.len() implies t[0 + k] == #[trigger] t[k] by {}
    lemma_items_read_back(t, 0, items, 0);
    assert(items_of(items).skip(0) =~= items_of(items));
}

} // verus!
