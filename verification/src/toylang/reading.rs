//! That the parser accepts nothing but what the grammar describes: what was read is written as the
//! tokens it was read from.
use vstd::prelude::*;

use crate::toylang::ast::{ExprView, FnBodyView, StmtView};
use crate::toylang::grammar::{
    arg_list_at, args_at, body_at, call_args_at, calls_at, expr_at, field_at, fields_at, fn_at,
    ident_at, init_at, init_list_at, inits_at, is_at, item_at, items_at, lemma_args_onward,
    lemma_body_onward, lemma_call_args_forward, lemma_expr_forward, lemma_fields_onward,
    lemma_init_forward, lemma_inits_onward, lemma_item_forward, lemma_let_forward,
    lemma_params_onward, lemma_primary_forward, lemma_type_forward, let_at, param_at, param_list_at,
    params_at, primary_at, program, registry_of, return_type_at, signature_params_at, struct_at,
    type_args_at, type_at,
};
use crate::toylang::lexer::{ended, Tok};
use crate::toylang::registry::FieldView;
use crate::toylang::syntax::{
    body_toks, call_toks, comma_if, expr_toks, exprs_toks, field_toks, fields_toks, fn_toks,
    function_of, inits_toks, item_of, item_toks, items_of, no_let, param_of, params_of, params_toks,
    program_toks, readable, readable_fn, return_type_toks, row_at, signature_toks, stmt_toks,
    type_text, type_toks, types_text, types_toks, unambiguous, FnTree, ItemTree, ParamTree,
    TypeTree,
};

verus! {

/// Whether a row of tokens stands from `i` up to `end`.
pub open spec fn row_between(t: Seq<Tok>, i: int, end: int, row: Seq<Tok>) -> bool {
    row_at(t, i, row) && row.len() == end - i
}

/// Two rows one behind the other.
proof fn lemma_row_join(
    t: Seq<Tok>,
    i: int,
    middle: int,
    end: int,
    first: Seq<Tok>,
    second: Seq<Tok>,
)
    requires
        row_between(t, i, middle, first),
        row_between(t, middle, end, second),
    ensures
        row_between(t, i, end, first + second),
{
    let row = first + second;
    assert forall|k: int| 0 <= k < row.len() implies t[i + k] == #[trigger] row[k] by {
        if k < first.len() {
            assert(t[i + k] == first[k]);
        } else {
            let j = k - first.len();
            assert(t[middle + j] == second[j]);
        }
    }
}

/// One token as a row.
proof fn lemma_row_one(t: Seq<Tok>, i: int, token: Tok)
    requires
        is_at(t, i, token),
    ensures
        row_between(t, i, i + 1, seq![token]),
{
}

/// Two tokens as a row.
proof fn lemma_row_two(t: Seq<Tok>, i: int, first: Tok, second: Tok)
    requires
        is_at(t, i, first),
        is_at(t, i + 1, second),
    ensures
        row_between(t, i, i + 2, seq![first, second]),
{
}

/// A row whose rest from `k` on is an item and more has the item at `k` and the rest behind it.
proof fn lemma_skip_one<T>(row: Seq<T>, k: int, item: T, rest: Seq<T>)
    requires
        0 <= k <= row.len(),
        row.skip(k) == seq![item] + rest,
    ensures
        k < row.len(),
        row[k] == item,
        row.skip(k + 1) == rest,
{
    let all = row.skip(k);
    assert(all.len() > 0 && all[0] == item);
    assert(all.skip(1) =~= row.skip(k + 1));
    assert((seq![item] + rest).skip(1) =~= rest);
}

/// The types behind the first one are written as without it.
proof fn lemma_types_behind(first: TypeTree, rest: Seq<TypeTree>, k: int)
    requires
        0 <= k <= rest.len(),
    ensures
        types_toks(seq![first] + rest, k + 1) == types_toks(rest, k),
        types_text(seq![first] + rest, k + 1) == types_text(rest, k),
    decreases rest.len() - k,
{
    let all = seq![first] + rest;
    if k < rest.len() {
        lemma_types_behind(first, rest, k + 1);
        assert(all[k + 1] == rest[k]);
    }
}

/// A type is written as it was read.
pub proof fn lemma_type_written(t: Seq<Tok>, i: int) -> (tree: TypeTree)
    requires
        ended(t),
        0 <= i < t.len(),
        type_at(t, i) is Ok,
    ensures
        unambiguous(tree),
        type_text(tree) == type_at(t, i)->Ok_0.0,
        row_between(t, i, type_at(t, i)->Ok_0.1, type_toks(tree)),
    decreases t.len() - i, 0int,
{
    lemma_type_forward(t, i);
    let end = type_at(t, i)->Ok_0.1;
    match t[i] {
        Tok::Ampersand => {
            let mutable = is_at(t, i + 1, Tok::Ident("mut"@));
            let start = if mutable {
                i + 2
            } else {
                i + 1
            };
            let inner = lemma_type_written(t, start);
            let tree = TypeTree::Ref { mutable, inner: Box::new(inner) };
            if mutable {
                lemma_row_two(t, i, Tok::Ampersand, Tok::Ident("mut"@));
                lemma_row_join(
                    t,
                    i,
                    start,
                    end,
                    seq![Tok::Ampersand, Tok::Ident("mut"@)],
                    type_toks(inner),
                );
            } else {
                lemma_row_one(t, i, Tok::Ampersand);
                lemma_row_join(t, i, start, end, seq![Tok::Ampersand], type_toks(inner));
                if let TypeTree::Named { name, args } = inner {
                    assert(t[start + 0] == type_toks(inner)[0]);
                }
            }
            tree
        },
        Tok::Star => {
            let qualifier = ident_at(t, i + 1)->Ok_0.0;
            let mutable = qualifier == "mut"@;
            let inner = lemma_type_written(t, i + 2);
            lemma_row_two(t, i, Tok::Star, Tok::Ident(qualifier));
            lemma_row_join(
                t,
                i,
                i + 2,
                end,
                seq![Tok::Star, Tok::Ident(qualifier)],
                type_toks(inner),
            );
            TypeTree::Ptr { mutable, inner: Box::new(inner) }
        },
        Tok::Ident(name) => {
            if is_at(t, i + 1, Tok::LAngle) {
                let close = type_args_at(t, i + 2)->Ok_0.1;
                let args = lemma_types_written(t, i + 2);
                let head = seq![Tok::Ident(name), Tok::LAngle];
                lemma_row_two(t, i, Tok::Ident(name), Tok::LAngle);
                lemma_row_join(t, i, i + 2, close, head, types_toks(args, 0));
                lemma_row_one(t, close, Tok::RAngle);
                lemma_row_join(t, i, close, end, head + types_toks(args, 0), seq![Tok::RAngle]);
                TypeTree::Named { name, args }
            } else {
                lemma_row_one(t, i, Tok::Ident(name));
                TypeTree::Named { name, args: Seq::empty() }
            }
        },
        _ => arbitrary(),
    }
}

/// A list of types is written as it was read.
proof fn lemma_types_written(t: Seq<Tok>, i: int) -> (types: Seq<TypeTree>)
    requires
        ended(t),
        0 <= i < t.len(),
        type_args_at(t, i) matches Ok((_, close)) && is_at(t, close, Tok::RAngle),
    ensures
        types.len() > 0,
        forall|k: int| 0 <= k < types.len() ==> unambiguous(#[trigger] types[k]),
        types_text(types, 0) == type_args_at(t, i)->Ok_0.0,
        row_between(t, i, type_args_at(t, i)->Ok_0.1, types_toks(types, 0)),
    decreases t.len() - i, 1int,
{
    lemma_type_forward(t, i);
    let (_, close) = type_args_at(t, i)->Ok_0;
    let first = lemma_type_written(t, i);
    let next = type_at(t, i)->Ok_0.1;
    let more = is_at(t, next, Tok::Comma);
    let rest = if more {
        lemma_types_written(t, next + 1)
    } else {
        Seq::empty()
    };
    let types = seq![first] + rest;
    lemma_types_behind(first, rest, 0);
    assert forall|k: int| 0 <= k < types.len() implies unambiguous(#[trigger] types[k]) by {
        if k > 0 {
            assert(types[k] == rest[k - 1]);
        }
    }
    let comma = comma_if(more);
    if more {
        lemma_row_one(t, next, Tok::Comma);
        lemma_row_join(t, i, next, next + 1, type_toks(first), comma);
        lemma_row_join(t, i, next + 1, close, type_toks(first) + comma, types_toks(rest, 0));
    } else {
        lemma_row_join(t, i, next, next, type_toks(first), comma);
        lemma_row_join(t, i, next, next, type_toks(first) + comma, types_toks(rest, 0));
    }
    types
}

/// An expression without method calls behind it is written as it was read.
proof fn lemma_primary_written(t: Seq<Tok>, i: int)
    requires
        ended(t),
        0 <= i < t.len(),
        primary_at(t, i) is Ok,
    ensures
        row_between(t, i, primary_at(t, i)->Ok_0.1, expr_toks(primary_at(t, i)->Ok_0.0)),
    decreases t.len() - i, 1int,
{
    lemma_primary_forward(t, i);
    let (e, end) = primary_at(t, i)->Ok_0;
    match t[i] {
        Tok::Ident(name) => {
            if is_at(t, i + 1, Tok::DoubleColon) {
                let method = ident_at(t, i + 2)->Ok_0.0;
                let args = call_args_at(t, i + 3)->Ok_0.0;
                let head = seq![Tok::Ident(name), Tok::DoubleColon, Tok::Ident(method)];
                assert(row_between(t, i, i + 3, head));
                lemma_call_args_written(t, i + 3);
                lemma_row_join(t, i, i + 3, end, head, call_toks(args));
            } else if is_at(t, i + 1, Tok::LBrace) {
                lemma_inits_onward(t, i + 2);
                let (fields, close) = inits_at(t, i + 2)->Ok_0;
                let head = seq![Tok::Ident(name), Tok::LBrace];
                lemma_row_two(t, i, Tok::Ident(name), Tok::LBrace);
                lemma_inits_written(t, i + 2);
                lemma_row_join(t, i, i + 2, close, head, inits_toks(fields, 0));
                lemma_row_one(t, close, Tok::RBrace);
                lemma_row_join(t, i, close, end, head + inits_toks(fields, 0), seq![Tok::RBrace]);
            } else {
                lemma_row_one(t, i, Tok::Ident(name));
            }
        },
        Tok::IntLit(n) => {
            lemma_row_one(t, i, Tok::IntLit(n));
        },
        _ => {},
    }
}

/// An expression is written as it was read.
pub proof fn lemma_expr_written(t: Seq<Tok>, i: int)
    requires
        ended(t),
        0 <= i < t.len(),
        expr_at(t, i) is Ok,
    ensures
        row_between(t, i, expr_at(t, i)->Ok_0.1, expr_toks(expr_at(t, i)->Ok_0.0)),
    decreases t.len() - i, 2int,
{
    lemma_primary_forward(t, i);
    lemma_primary_written(t, i);
    let (first, next) = primary_at(t, i)->Ok_0;
    lemma_calls_written(t, first, i, next);
}

/// Method calls are written as they were read, behind their receiver.
proof fn lemma_calls_written(t: Seq<Tok>, receiver: ExprView, start: int, i: int)
    requires
        ended(t),
        0 <= i < t.len(),
        row_between(t, start, i, expr_toks(receiver)),
        calls_at(t, receiver, i) is Ok,
    ensures
        row_between(
            t,
            start,
            calls_at(t, receiver, i)->Ok_0.1,
            expr_toks(calls_at(t, receiver, i)->Ok_0.0),
        ),
    decreases t.len() - i, 0int,
{
    if is_at(t, i, Tok::Dot) {
        let (method, open) = ident_at(t, i + 1)->Ok_0;
        lemma_call_args_forward(t, open);
        let (args, next) = call_args_at(t, open)->Ok_0;
        let head = seq![Tok::Dot, Tok::Ident(method)];
        let call = ExprView::MethodCall { receiver: Box::new(receiver), method, args };
        lemma_row_two(t, i, Tok::Dot, Tok::Ident(method));
        lemma_row_join(t, start, i, open, expr_toks(receiver), head);
        lemma_call_args_written(t, open);
        lemma_row_join(t, start, open, next, expr_toks(receiver) + head, call_toks(args));
        lemma_calls_written(t, call, start, next);
    }
}

/// The arguments of a call are written as they were read.
proof fn lemma_call_args_written(t: Seq<Tok>, i: int)
    requires
        ended(t),
        0 <= i < t.len(),
        call_args_at(t, i) is Ok,
    ensures
        row_between(t, i, call_args_at(t, i)->Ok_0.1, call_toks(call_args_at(t, i)->Ok_0.0)),
    decreases t.len() - i, 5int,
{
    lemma_args_onward(t, i + 1);
    let (args, end) = call_args_at(t, i)->Ok_0;
    let close = args_at(t, i + 1)->Ok_0.1;
    let open = seq![Tok::LParen];
    lemma_row_one(t, i, Tok::LParen);
    lemma_row_one(t, close, Tok::RParen);
    if is_at(t, i + 1, Tok::RParen) {
        assert(row_between(t, i + 1, close, exprs_toks(args, 0)));
    } else {
        assert(args.skip(0) =~= args);
        lemma_arg_list_written(t, i + 1, args, 0);
    }
    lemma_row_join(t, i, i + 1, close, open, exprs_toks(args, 0));
    lemma_row_join(t, i, close, end, open + exprs_toks(args, 0), seq![Tok::RParen]);
}

/// The expressions of a list from `k` on are written as they were read.
proof fn lemma_arg_list_written(t: Seq<Tok>, i: int, args: Seq<ExprView>, k: int)
    requires
        ended(t),
        0 <= i < t.len(),
        0 <= k <= args.len(),
        arg_list_at(t, i) matches Ok((found, close)) && found == args.skip(k) && is_at(
            t,
            close,
            Tok::RParen,
        ),
    ensures
        k < args.len(),
        row_between(t, i, arg_list_at(t, i)->Ok_0.1, exprs_toks(args, k)),
    decreases t.len() - i, 3int,
{
    lemma_expr_forward(t, i);
    lemma_expr_written(t, i);
    let close = arg_list_at(t, i)->Ok_0.1;
    let (first, next) = expr_at(t, i)->Ok_0;
    let more = is_at(t, next, Tok::Comma);
    let rest = if more {
        arg_list_at(t, next + 1)->Ok_0.0
    } else {
        Seq::empty()
    };
    lemma_skip_one(args, k, first, rest);
    let row = expr_toks(first);
    if more {
        lemma_arg_list_written(t, next + 1, args, k + 1);
        lemma_row_one(t, next, Tok::Comma);
        lemma_row_join(t, i, next, next + 1, row, comma_if(more));
        lemma_row_join(t, i, next + 1, close, row + comma_if(more), exprs_toks(args, k + 1));
    } else {
        lemma_row_join(t, i, next, next, row, comma_if(more));
        lemma_row_join(t, i, next, next, row + comma_if(more), exprs_toks(args, k + 1));
    }
}

/// The fields of a struct literal are written as they were read.
proof fn lemma_inits_written(t: Seq<Tok>, i: int)
    requires
        ended(t),
        0 <= i < t.len(),
        inits_at(t, i) matches Ok((_, close)) && is_at(t, close, Tok::RBrace),
    ensures
        row_between(t, i, inits_at(t, i)->Ok_0.1, inits_toks(inits_at(t, i)->Ok_0.0, 0)),
    decreases t.len() - i, 5int,
{
    if !is_at(t, i, Tok::RBrace) {
        let fields = inits_at(t, i)->Ok_0.0;
        assert(fields.skip(0) =~= fields);
        lemma_init_list_written(t, i, fields, 0);
    }
}

/// The fields of a struct literal from `k` on are written as they were read.
proof fn lemma_init_list_written(
    t: Seq<Tok>,
    i: int,
    fields: Seq<(Seq<char>, ExprView)>,
    k: int,
)
    requires
        ended(t),
        0 <= i < t.len(),
        0 <= k <= fields.len(),
        init_list_at(t, i) matches Ok((found, close)) && found == fields.skip(k) && is_at(
            t,
            close,
            Tok::RBrace,
        ),
    ensures
        k < fields.len(),
        row_between(t, i, init_list_at(t, i)->Ok_0.1, inits_toks(fields, k)),
    decreases t.len() - i, 4int,
{
    lemma_init_forward(t, i);
    let close = init_list_at(t, i)->Ok_0.1;
    let ((name, value), next) = init_at(t, i)->Ok_0;
    lemma_expr_written(t, i + 2);
    let more = is_at(t, next, Tok::Comma);
    let rest = if more {
        init_list_at(t, next + 1)->Ok_0.0
    } else {
        Seq::empty()
    };
    lemma_skip_one(fields, k, (name, value), rest);
    let head = seq![Tok::Ident(name), Tok::Colon];
    let row = head + expr_toks(value);
    lemma_row_two(t, i, Tok::Ident(name), Tok::Colon);
    lemma_row_join(t, i, i + 2, next, head, expr_toks(value));
    if more {
        lemma_init_list_written(t, next + 1, fields, k + 1);
        lemma_row_one(t, next, Tok::Comma);
        lemma_row_join(t, i, next, next + 1, row, comma_if(more));
        lemma_row_join(t, i, next + 1, close, row + comma_if(more), inits_toks(fields, k + 1));
    } else {
        lemma_row_join(t, i, next, next, row, comma_if(more));
        lemma_row_join(t, i, next, next, row + comma_if(more), inits_toks(fields, k + 1));
    }
}

/// The name of a field type that was read is the token it was read from.
proof fn lemma_field_written(t: Seq<Tok>, i: int)
    requires
        ended(t),
        0 <= i < t.len(),
        field_at(t, i) is Ok,
    ensures
        row_between(t, i, field_at(t, i)->Ok_0.1, field_toks(field_at(t, i)->Ok_0.0)),
{
}

/// The fields of a struct definition are written as they were read. The result says whether a comma
/// stands behind the last one.
proof fn lemma_fields_written(t: Seq<Tok>, i: int, fields: Seq<FieldView>, k: int) -> (trailing:
    bool)
    requires
        ended(t),
        0 <= i < t.len(),
        0 <= k <= fields.len(),
        fields_at(t, i) matches Ok((found, close)) && found == fields.skip(k) && is_at(
            t,
            close,
            Tok::RBrace,
        ),
    ensures
        row_between(t, i, fields_at(t, i)->Ok_0.1, fields_toks(fields, trailing, k)),
    decreases t.len() - i,
{
    lemma_fields_onward(t, i);
    let close = fields_at(t, i)->Ok_0.1;
    if is_at(t, i, Tok::RBrace) {
        assert(fields.skip(k).len() == 0);
        true
    } else {
        let (first, next) = field_at(t, i)->Ok_0;
        lemma_field_written(t, i);
        let more = is_at(t, next, Tok::Comma);
        let rest = if more {
            fields_at(t, next + 1)->Ok_0.0
        } else {
            Seq::empty()
        };
        lemma_skip_one(fields, k, first, rest);
        let row = field_toks(first);
        if more {
            let trailing = lemma_fields_written(t, next + 1, fields, k + 1);
            let trailing = if k + 1 < fields.len() {
                trailing
            } else {
                true
            };
            lemma_row_one(t, next, Tok::Comma);
            lemma_row_join(t, i, next, next + 1, row, comma_if(true));
            lemma_row_join(
                t,
                i,
                next + 1,
                close,
                row + comma_if(true),
                fields_toks(fields, trailing, k + 1),
            );
            trailing
        } else {
            lemma_row_join(t, i, next, next, row, comma_if(false));
            lemma_row_join(
                t,
                i,
                next,
                next,
                row + comma_if(false),
                fields_toks(fields, false, k + 1),
            );
            false
        }
    }
}

/// The parameters behind the first one are written as without it.
proof fn lemma_params_behind(first: ParamTree, rest: Seq<ParamTree>, k: int)
    requires
        0 <= k <= rest.len(),
    ensures
        params_toks(seq![first] + rest, k + 1) == params_toks(rest, k),
    decreases rest.len() - k,
{
    let all = seq![first] + rest;
    if k < rest.len() {
        lemma_params_behind(first, rest, k + 1);
        assert(all[k + 1] == rest[k]);
    }
}

/// A list of parameters is written as it was read.
proof fn lemma_param_list_written(t: Seq<Tok>, i: int) -> (params: Seq<ParamTree>)
    requires
        ended(t),
        0 <= i < t.len(),
        param_list_at(t, i) matches Ok((_, close)) && is_at(t, close, Tok::RParen),
    ensures
        params.len() > 0,
        forall|k: int| 0 <= k < params.len() ==> unambiguous((#[trigger] params[k]).ty),
        params_of(params) == param_list_at(t, i)->Ok_0.0,
        row_between(t, i, param_list_at(t, i)->Ok_0.1, params_toks(params, 0)),
    decreases t.len() - i,
{
    lemma_params_onward(t, i);
    let (found, close) = param_list_at(t, i)->Ok_0;
    let (view, next) = param_at(t, i)->Ok_0;
    let ty = lemma_type_written(t, i + 2);
    let first = ParamTree { name: view.name, ty };
    let more = is_at(t, next, Tok::Comma);
    let rest = if more {
        lemma_param_list_written(t, next + 1)
    } else {
        Seq::empty()
    };
    let params = seq![first] + rest;
    lemma_params_behind(first, rest, 0);
    assert forall|k: int| 0 <= k < params.len() implies unambiguous((#[trigger] params[k]).ty) by {
        if k > 0 {
            assert(params[k] == rest[k - 1]);
        }
    }
    assert(param_of(first) == view);
    assert(params_of(params) =~= seq![view] + params_of(rest));
    if !more {
        assert(params_of(rest) =~= Seq::empty());
    }
    let head = seq![Tok::Ident(view.name), Tok::Colon];
    let row = head + type_toks(ty);
    lemma_row_two(t, i, Tok::Ident(view.name), Tok::Colon);
    lemma_row_join(t, i, i + 2, next, head, type_toks(ty));
    if more {
        lemma_row_one(t, next, Tok::Comma);
        lemma_row_join(t, i, next, next + 1, row, comma_if(more));
        lemma_row_join(t, i, next + 1, close, row + comma_if(more), params_toks(rest, 0));
    } else {
        lemma_row_join(t, i, next, next, row, comma_if(more));
        lemma_row_join(t, i, next, next, row + comma_if(more), params_toks(rest, 0));
    }
    params
}

/// A `let` statement is written as it was read.
proof fn lemma_let_written(t: Seq<Tok>, i: int)
    requires
        ended(t),
        is_at(t, i, Tok::Ident("let"@)),
        let_at(t, i) is Ok,
    ensures
        row_between(t, i, let_at(t, i)->Ok_0.1, stmt_toks(let_at(t, i)->Ok_0.0)),
        let_at(t, i)->Ok_0.0 is Let,
{
    lemma_let_forward(t, i);
    lemma_expr_forward(t, i + 3);
    let end = let_at(t, i)->Ok_0.1;
    let name = ident_at(t, i + 1)->Ok_0.0;
    let (expr, semicolon) = expr_at(t, i + 3)->Ok_0;
    let head = seq![Tok::Ident("let"@), Tok::Ident(name), Tok::Equals];
    assert(row_between(t, i, i + 3, head));
    lemma_expr_written(t, i + 3);
    lemma_row_join(t, i, i + 3, semicolon, head, expr_toks(expr));
    lemma_row_one(t, semicolon, Tok::Semicolon);
    lemma_row_join(t, i, semicolon, end, head + expr_toks(expr), seq![Tok::Semicolon]);
}

/// Whether a function body that reads only one way is written from `i` up to `end`, from statement
/// `k` on.
pub open spec fn body_written(t: Seq<Tok>, i: int, end: int, body: FnBodyView, k: int) -> bool {
    &&& row_between(t, i, end, body_toks(body, k))
    &&& forall|j: int|
        k <= j < body.stmts.len() ==> (#[trigger] body.stmts[j] matches StmtView::ExprStmt(e)
            ==> no_let(e))
    &&& body.ret matches Some(e) ==> no_let(e)
}

/// A function body is written as it was read, from statement `k` on.
proof fn lemma_body_written(t: Seq<Tok>, i: int, body: FnBodyView, k: int)
    requires
        ended(t),
        0 <= i < t.len(),
        0 <= k <= body.stmts.len(),
        body_at(t, i) matches Ok((found, _)) && found.stmts == body.stmts.skip(k) && found.ret
            == body.ret,
    ensures
        body_written(t, i, body_at(t, i)->Ok_0.1, body, k),
    decreases t.len() - i, 0int,
{
    lemma_body_onward(t, i);
    let (found, end) = body_at(t, i)->Ok_0;
    if is_at(t, i, Tok::RBrace) {
        assert(body.stmts.skip(k).len() == 0);
        lemma_row_one(t, i, Tok::RBrace);
    } else if is_at(t, i, Tok::Ident("let"@)) {
        lemma_let_forward(t, i);
        lemma_let_written(t, i);
        let (stmt, next) = let_at(t, i)->Ok_0;
        let rest = body_at(t, next)->Ok_0.0;
        lemma_stmt_in_front(t, i, body, k, stmt, next, rest, end);
    } else {
        lemma_expr_forward(t, i);
        lemma_expr_written(t, i);
        let (expr, next) = expr_at(t, i)->Ok_0;
        assert(expr_toks(expr)[0] == t[i + 0]);
        if is_at(t, next, Tok::Semicolon) {
            lemma_row_one(t, next, Tok::Semicolon);
            lemma_row_join(t, i, next, next + 1, expr_toks(expr), seq![Tok::Semicolon]);
            let rest = body_at(t, next + 1)->Ok_0.0;
            let stmt = StmtView::ExprStmt(expr);
            lemma_stmt_in_front(t, i, body, k, stmt, next + 1, rest, end);
        } else {
            assert(body.stmts.skip(k).len() == 0);
            lemma_row_one(t, next, Tok::RBrace);
            lemma_row_join(t, i, next, end, expr_toks(expr), seq![Tok::RBrace]);
        }
    }
}

/// A function body that begins with a statement is written as it was read.
proof fn lemma_stmt_in_front(
    t: Seq<Tok>,
    i: int,
    body: FnBodyView,
    k: int,
    stmt: StmtView,
    next: int,
    rest: FnBodyView,
    end: int,
)
    requires
        ended(t),
        0 <= i < next < t.len(),
        0 <= k <= body.stmts.len(),
        body_at(t, next) == Ok::<(FnBodyView, int), (Seq<char>, int)>((rest, end)),
        body.stmts.skip(k) == seq![stmt] + rest.stmts,
        body.ret == rest.ret,
        row_between(t, i, next, stmt_toks(stmt)),
        stmt matches StmtView::ExprStmt(e) ==> no_let(e),
    ensures
        body_written(t, i, end, body, k),
    decreases t.len() - next, 1int,
{
    lemma_skip_one(body.stmts, k, stmt, rest.stmts);
    lemma_body_written(t, next, body, k + 1);
    lemma_body_join(t, i, next, end, body, k);
}

/// A statement in front of the rest of a function body.
proof fn lemma_body_join(t: Seq<Tok>, i: int, next: int, end: int, body: FnBodyView, k: int)
    requires
        0 <= k < body.stmts.len(),
        row_between(t, i, next, stmt_toks(body.stmts[k])),
        body.stmts[k] matches StmtView::ExprStmt(e) ==> no_let(e),
        body_written(t, next, end, body, k + 1),
    ensures
        body_written(t, i, end, body, k),
{
    lemma_row_join(t, i, next, end, stmt_toks(body.stmts[k]), body_toks(body, k + 1));
}

/// The signature of a function definition is written as it was read, up to the brace that opens its
/// body. The body of the result is `body`.
proof fn lemma_signature_written(t: Seq<Tok>, i: int, brace: int, body: FnBodyView) -> (f: FnTree)
    requires
        ended(t),
        is_at(t, i, Tok::Ident("fn"@)),
        i + 2 < t.len(),
        ident_at(t, i + 1) is Ok,
        signature_params_at(t, i + 2) matches Ok((_, arrow)) && return_type_at(
            t,
            arrow,
        ) matches Ok((_, end)) && end == brace,
        is_at(t, brace, Tok::LBrace),
    ensures
        f.name == ident_at(t, i + 1)->Ok_0.0,
        params_of(f.params) == signature_params_at(t, i + 2)->Ok_0.0,
        function_of(f).return_ty == return_type_at(
            t,
            signature_params_at(t, i + 2)->Ok_0.1,
        )->Ok_0.0,
        f.body == body,
        forall|k: int| 0 <= k < f.params.len() ==> unambiguous((#[trigger] f.params[k]).ty),
        f.return_ty matches Some(tree) ==> unambiguous(tree),
        row_between(t, i, brace + 1, signature_toks(f)),
{
    let name = ident_at(t, i + 1)->Ok_0.0;
    let head = seq![Tok::Ident("fn"@), Tok::Ident(name), Tok::LParen];
    assert(row_between(t, i, i + 3, head));
    lemma_params_onward(t, i + 3);
    let close = params_at(t, i + 3)->Ok_0.1;
    let params = if is_at(t, i + 3, Tok::RParen) {
        Seq::empty()
    } else {
        lemma_param_list_written(t, i + 3)
    };
    if is_at(t, i + 3, Tok::RParen) {
        assert(params_of(params) =~= Seq::empty());
    }
    lemma_row_join(t, i, i + 3, close, head, params_toks(params, 0));
    let with_params = head + params_toks(params, 0);
    lemma_row_one(t, close, Tok::RParen);
    lemma_row_join(t, i, close, close + 1, with_params, seq![Tok::RParen]);
    let with_close = with_params + seq![Tok::RParen];
    let arrow = close + 1;
    let return_ty = if is_at(t, arrow, Tok::Arrow) {
        Some(lemma_type_written(t, arrow + 1))
    } else {
        None
    };
    let row = return_type_toks(return_ty);
    if let Some(tree) = return_ty {
        lemma_row_one(t, arrow, Tok::Arrow);
        lemma_row_join(t, arrow, arrow + 1, brace, seq![Tok::Arrow], type_toks(tree));
    }
    lemma_row_join(t, i, arrow, brace, with_close, row);
    lemma_row_one(t, brace, Tok::LBrace);
    lemma_row_join(t, i, brace, brace + 1, with_close + row, seq![Tok::LBrace]);
    FnTree { name, params, return_ty, body }
}

/// A function definition is written as it was read.
proof fn lemma_fn_written(t: Seq<Tok>, i: int) -> (f: FnTree)
    requires
        ended(t),
        is_at(t, i, Tok::Ident("fn"@)),
        fn_at(t, i) is Ok,
    ensures
        readable_fn(f),
        function_of(f) == fn_at(t, i)->Ok_0.0,
        row_between(t, i, fn_at(t, i)->Ok_0.1, fn_toks(f)),
{
    lemma_item_forward(t, i);
    let (view, end) = fn_at(t, i)->Ok_0;
    lemma_params_onward(t, i + 3);
    let arrow = signature_params_at(t, i + 2)->Ok_0.1;
    if is_at(t, arrow, Tok::Arrow) {
        lemma_type_forward(t, arrow + 1);
    }
    let brace = return_type_at(t, arrow)->Ok_0.1;
    let body = body_at(t, brace + 1)->Ok_0.0;
    let f = lemma_signature_written(t, i, brace, body);
    assert(body.stmts.skip(0) =~= body.stmts);
    lemma_body_written(t, brace + 1, body, 0);
    lemma_row_join(t, i, brace + 1, end, signature_toks(f), body_toks(body, 0));
    assert(function_of(f) =~= view);
    f
}

/// A struct definition is written as it was read. The result says whether a comma stands behind its
/// last field.
proof fn lemma_struct_written(t: Seq<Tok>, i: int) -> (trailing: bool)
    requires
        ended(t),
        is_at(t, i, Tok::Ident("struct"@)),
        struct_at(t, i) is Ok,
    ensures
        row_between(
            t,
            i,
            struct_at(t, i)->Ok_0.1,
            item_toks(ItemTree::Struct { def: struct_at(t, i)->Ok_0.0, trailing }),
        ),
{
    let (def, end) = struct_at(t, i)->Ok_0;
    let head = seq![Tok::Ident("struct"@), Tok::Ident(def.name), Tok::LBrace];
    assert(row_between(t, i, i + 3, head));
    lemma_fields_onward(t, i + 3);
    let close = fields_at(t, i + 3)->Ok_0.1;
    assert(def.fields.skip(0) =~= def.fields);
    let trailing = lemma_fields_written(t, i + 3, def.fields, 0);
    let fields = fields_toks(def.fields, trailing, 0);
    lemma_row_join(t, i, i + 3, close, head, fields);
    lemma_row_one(t, close, Tok::RBrace);
    lemma_row_join(t, i, close, end, head + fields, seq![Tok::RBrace]);
    trailing
}

/// A definition is written as it was read.
proof fn lemma_item_written(t: Seq<Tok>, i: int) -> (item: ItemTree)
    requires
        ended(t),
        0 <= i < t.len(),
        item_at(t, i) is Ok,
    ensures
        readable(item),
        item_of(item) == item_at(t, i)->Ok_0.0,
        row_between(t, i, item_at(t, i)->Ok_0.1, item_toks(item)),
{
    if is_at(t, i, Tok::Ident("struct"@)) {
        let trailing = lemma_struct_written(t, i);
        ItemTree::Struct { def: struct_at(t, i)->Ok_0.0, trailing }
    } else {
        let f = lemma_fn_written(t, i);
        ItemTree::Function(f)
    }
}

/// The definitions behind the first one are written as without it.
proof fn lemma_items_behind(first: ItemTree, rest: Seq<ItemTree>, k: int)
    requires
        0 <= k <= rest.len(),
    ensures
        program_toks(seq![first] + rest, k + 1) == program_toks(rest, k),
    decreases rest.len() - k,
{
    let all = seq![first] + rest;
    if k < rest.len() {
        lemma_items_behind(first, rest, k + 1);
        assert(all[k + 1] == rest[k]);
    }
}

/// The definitions of a program are written as they were read.
proof fn lemma_items_written(t: Seq<Tok>, i: int) -> (items: Seq<ItemTree>)
    requires
        ended(t),
        0 <= i < t.len(),
        items_at(t, i) is Ok,
    ensures
        forall|k: int| 0 <= k < items.len() ==> readable(#[trigger] items[k]),
        items_of(items) == items_at(t, i)->Ok_0.0,
        row_between(t, i, t.len() as int, program_toks(items, 0)),
    decreases t.len() - i,
{
    if is_at(t, i, Tok::Eof) {
        let items = Seq::<ItemTree>::empty();
        assert(items_of(items) =~= Seq::empty());
        lemma_row_one(t, i, Tok::Eof);
        items
    } else {
        lemma_item_forward(t, i);
        let (view, next) = item_at(t, i)->Ok_0;
        let first = lemma_item_written(t, i);
        let rest = lemma_items_written(t, next);
        let items = seq![first] + rest;
        lemma_items_behind(first, rest, 0);
        assert(items_of(items) =~= seq![view] + items_of(rest));
        assert forall|k: int| 0 <= k < items.len() implies readable(#[trigger] items[k]) by {
            if k > 0 {
                assert(items[k] == rest[k - 1]);
            }
        }
        lemma_row_join(t, i, next, t.len() as int, item_toks(first), program_toks(rest, 0));
        items
    }
}

/// The parser accepts nothing but the grammar: a row of tokens that it accepts is a program as it
/// is written, and what it gives is what that program means. The result is the program.
pub proof fn law_accepted_programs_are_written(t: Seq<Tok>) -> (items: Seq<ItemTree>)
    requires
        ended(t),
        program(t) is Ok,
    ensures
        forall|k: int| 0 <= k < items.len() ==> readable(#[trigger] items[k]),
        program_toks(items, 0) == t,
        program(t)->Ok_0 == registry_of(items_of(items)),
{
    let items = lemma_items_written(t, 0);
    let row = program_toks(items, 0);
    assert(row =~= t) by {
        assert forall|k: int| 0 <= k < t.len() implies row[k] == t[k] by {
            assert(t[0 + k] == row[k]);
        }
    }
    items
}

} // verus!
