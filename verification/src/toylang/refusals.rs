//! Why function bodies are refused: what is said to be wrong is wrong.
use vstd::prelude::*;

use crate::mir::{Body, Local, MirTy, RvalueView, StatementView, MAX_INDEX};
use crate::text::differ_in;
use crate::toylang::ast::{expr_shown, ExprView, FnBodyView, StmtView};
use crate::toylang::lower::{
    arg_locals, entry, fresh, is_lowering, lower_body, lower_expr, lower_fields, lower_message,
    lower_statement, lower_statements, LowerError, LowerErrorView, LowerView,
};
use crate::toylang::scope::{
    blocks_of, blocks_of_body, blocks_of_fields, blocks_of_stmts, expr_of, lemma_counts,
    lemma_counts_of_fields, lemma_counts_of_stmts, lemma_entry_scope, lemma_expr_succeeds,
    lemma_fresh_succeeds, lemma_stmts_succeed, locals_of, locals_of_body, locals_of_fields,
    locals_of_stmts, names_after, param_scope, roomy,
};

verus! {

/// Whether `part` stands in an expression: it is the expression, or stands in a field of a struct
/// literal or in the first argument of a method call.
pub open spec fn within(part: ExprView, e: ExprView) -> bool
    decreases e,
{
    ||| part == e
    ||| match e {
        ExprView::StructLit { fields, .. } => exists|k: int|
            0 <= k < fields.len() && within(part, (#[trigger] fields[k]).1),
        ExprView::MethodCall { args, .. } => args.len() > 0 && within(part, args[0]),
        _ => false,
    }
}

/// Whether an expression is a call other than `Vec::new`, `push` and `len`.
pub open spec fn unknown_call(e: ExprView) -> bool {
    match e {
        ExprView::StaticCall { ty, method, .. } => ty != "Vec"@ || method != "new"@,
        ExprView::MethodCall { method, .. } => method != "push"@ && method != "len"@,
        _ => false,
    }
}

/// Whether an expression calls a method on a variable that is not bound.
pub open spec fn calls_on_unbound(
    names: Set<Seq<char>>,
    e: ExprView,
    called: Seq<char>,
    name: Seq<char>,
) -> bool {
    e matches ExprView::MethodCall { receiver, method, .. } && method == called && *receiver
        == ExprView::Var(name) && !names.contains(name)
}

/// Whether an expression calls a method on something that is no variable.
pub open spec fn calls_on_no_variable(e: ExprView, called: Seq<char>) -> bool {
    e matches ExprView::MethodCall { receiver, method, .. } && method == called && *receiver !is Var
}

/// Whether an expression is wrong, where the names `names` are bound, in the way that an error says.
pub open spec fn at_fault(names: Set<Seq<char>>, e: ExprView, err: LowerErrorView) -> bool {
    match err {
        LowerErrorView::UndefinedVariable(name) => e == ExprView::Var(name) && !names.contains(name),
        LowerErrorView::UnrecognizedExpr(other) => e == other && unknown_call(e),
        LowerErrorView::UnhandledExpr(other) => e == other && unknown_call(e),
        LowerErrorView::PushReceiverNotFound(name) => calls_on_unbound(names, e, "push"@, name),
        LowerErrorView::PushReceiverNotVariable => calls_on_no_variable(e, "push"@),
        LowerErrorView::PushWithoutArgument => e matches ExprView::MethodCall { method, args, .. }
            && method == "push"@ && args.len() == 0,
        LowerErrorView::LenReceiverNotFound(name) => calls_on_unbound(names, e, "len"@, name),
        LowerErrorView::LenReceiverNotVariable => calls_on_no_variable(e, "len"@),
        LowerErrorView::TooManyLocals => false,
        LowerErrorView::TooManyBlocks => false,
    }
}

/// Whether an error says rightly what is wrong with an expression that would need so many locals
/// and blocks in all.
pub open spec fn blames(
    names: Set<Seq<char>>,
    e: ExprView,
    locals: int,
    blocks: int,
    err: LowerErrorView,
) -> bool {
    match err {
        LowerErrorView::TooManyLocals => locals > MAX_INDEX + 1,
        LowerErrorView::TooManyBlocks => blocks > MAX_INDEX,
        _ => exists|part: ExprView| within(part, e) && #[trigger] at_fault(names, part, err),
    }
}

proof fn lemma_fresh_blames(s: LowerView, e: ExprView)
    requires
        roomy(s.locals.len() as int, s.blocks.len() as int),
    ensures
        fresh(s, e) matches Err(err) ==> blames(
            s.names.dom(),
            e,
            s.locals.len() as int + 1,
            s.blocks.len() as int,
            err,
        ),
{
    if let Err(err) = fresh(s, e) {
        assert(within(e, e));
        assert(err is TooManyLocals || at_fault(s.names.dom(), e, err));
    }
}

proof fn lemma_expr_blames(s: LowerView, e: ExprView, dest: Local)
    requires
        roomy(s.locals.len() as int, s.blocks.len() as int),
    ensures
        lower_expr(s, e, dest) matches Err(err) ==> blames(
            s.names.dom(),
            e,
            s.locals.len() + locals_of(e),
            s.blocks.len() + blocks_of(e),
            err,
        ),
    decreases e, 1int,
{
    if let Err(err) = lower_expr(s, e, dest) {
        let names = s.names.dom();
        assert(within(e, e));
        match e {
            ExprView::StructLit { name: _, fields } => {
                lemma_fields_blame(s, fields, 0);
                if !(err is TooManyLocals || err is TooManyBlocks) {
                    let (k, part) = choose|k: int, part: ExprView|
                        0 <= k < fields.len() && within(part, (#[trigger] fields[k]).1)
                            && #[trigger] at_fault(names, part, err);
                    assert(within(part, e));
                    assert(at_fault(names, part, err));
                }
            },
            ExprView::MethodCall { receiver, method, args } => {
                if method == "push"@ && args.len() > 0 && (*receiver is Var)
                    && s.names.contains_key((*receiver)->Var_0) {
                    lemma_push_blames(s, e, dest);
                } else {
                    assert(err is TooManyLocals || err is TooManyBlocks || at_fault(names, e, err));
                }
            },
            _ => {
                assert(err is TooManyBlocks || at_fault(names, e, err));
            },
        }
    }
}

proof fn lemma_push_blames(s: LowerView, e: ExprView, dest: Local)
    requires
        roomy(s.locals.len() as int, s.blocks.len() as int),
        e matches ExprView::MethodCall { receiver, method, args } && method == "push"@ && args.len()
            > 0 && (*receiver matches ExprView::Var(name) && s.names.contains_key(name)),
    ensures
        lower_expr(s, e, dest) matches Err(err) ==> blames(
            s.names.dom(),
            e,
            s.locals.len() + locals_of(e),
            s.blocks.len() + blocks_of(e),
            err,
        ),
    decreases e, 0int,
{
    if let ExprView::MethodCall { receiver, method, args } = e {
        let name = (*receiver)->Var_0;
        lemma_counts(args[0]);
        if let Ok((s1, borrow)) = s.add_local(MirTy::MutRefVec) {
            let s2 = s1.emit(StatementView::StorageLive(borrow)).emit(
                StatementView::Assign(borrow, RvalueView::RefMut(s.names[name])),
            );
            lemma_fresh_blames(s2, args[0]);
            lemma_fresh_succeeds(s2, args[0]);
            if let Ok((s3, arg)) = fresh(s2, args[0]) {
                lemma_expr_blames(s3, args[0], arg);
                lemma_expr_succeeds(s3, args[0], arg);
            }
            if let Err(err) = lower_expr(s, e, dest) {
                if !(err is TooManyLocals || err is TooManyBlocks) {
                    let part = choose|part: ExprView|
                        within(part, args[0]) && #[trigger] at_fault(s.names.dom(), part, err);
                    assert(within(part, e) && at_fault(s.names.dom(), part, err));
                }
            }
        }
    }
}

proof fn lemma_fields_blame(s: LowerView, fields: Seq<(Seq<char>, ExprView)>, i: int)
    requires
        roomy(s.locals.len() as int, s.blocks.len() as int),
        0 <= i <= fields.len(),
    ensures
        lower_fields(s, fields, i) matches Err(err) ==> match err {
            LowerErrorView::TooManyLocals => s.locals.len() + locals_of_fields(fields, i)
                > MAX_INDEX + 1,
            LowerErrorView::TooManyBlocks => s.blocks.len() + blocks_of_fields(fields, i)
                > MAX_INDEX,
            _ => exists|k: int, part: ExprView|
                i <= k < fields.len() && within(part, (#[trigger] fields[k]).1)
                    && #[trigger] at_fault(s.names.dom(), part, err),
        },
    decreases fields, fields.len() - i,
{
    if i < fields.len() {
        let e = fields[i].1;
        lemma_counts(e);
        lemma_counts_of_fields(fields, i + 1);
        lemma_fresh_blames(s, e);
        lemma_fresh_succeeds(s, e);
        if let Ok((s1, local)) = fresh(s, e) {
            lemma_expr_blames(s1, e, local);
            lemma_expr_succeeds(s1, e, local);
            if let Ok(s2) = lower_expr(s1, e, local) {
                lemma_fields_blame(s2, fields, i + 1);
            }
        }
        if let Err(err) = lower_fields(s, fields, i) {
            if !(err is TooManyLocals || err is TooManyBlocks) {
                if exists|part: ExprView| within(part, e) && #[trigger] at_fault(
                    s.names.dom(),
                    part,
                    err,
                ) {
                    let part = choose|part: ExprView|
                        within(part, e) && #[trigger] at_fault(s.names.dom(), part, err);
                    assert(within(part, fields[i].1) && at_fault(s.names.dom(), part, err));
                }
            }
        }
    }
}

/// Where fewer names are bound, what is wrong stays wrong.
proof fn lemma_at_fault_with_fewer(
    names: Set<Seq<char>>,
    name: Seq<char>,
    part: ExprView,
    err: LowerErrorView,
)
    requires
        at_fault(names.insert(name), part, err),
    ensures
        at_fault(names, part, err),
{
}

proof fn lemma_stmt_blames(s: LowerView, stmt: StmtView)
    requires
        roomy(s.locals.len() as int, s.blocks.len() as int),
    ensures
        lower_statement(s, stmt) matches Err(err) ==> blames(
            s.names.dom(),
            expr_of(stmt),
            s.locals.len() + 1 + locals_of(expr_of(stmt)),
            s.blocks.len() + blocks_of(expr_of(stmt)),
            err,
        ),
{
    let e = expr_of(stmt);
    lemma_counts(e);
    lemma_fresh_blames(s, e);
    lemma_fresh_succeeds(s, e);
    if let Ok((s1, local)) = fresh(s, e) {
        match stmt {
            StmtView::Let { name, expr } => {
                let s2 = s1.bind(name, local);
                assert(s2.names.dom() =~= s.names.dom().insert(name));
                lemma_expr_blames(s2, expr, local);
                if let Err(err) = lower_expr(s2, expr, local) {
                    if !(err is TooManyLocals || err is TooManyBlocks) {
                        let part = choose|part: ExprView|
                            within(part, e) && #[trigger] at_fault(s2.names.dom(), part, err);
                        lemma_at_fault_with_fewer(s.names.dom(), name, part, err);
                        assert(within(part, e) && at_fault(s.names.dom(), part, err));
                    }
                }
            },
            StmtView::ExprStmt(expr) => lemma_expr_blames(s1, expr, local),
        }
    }
}

/// Whether an error says rightly what is wrong with one of the first `n` of a row of statements.
pub open spec fn blames_stmt(
    names: Set<Seq<char>>,
    stmts: Seq<StmtView>,
    k: int,
    part: ExprView,
    err: LowerErrorView,
) -> bool {
    &&& 0 <= k < stmts.len()
    &&& within(part, expr_of(stmts[k]))
    &&& at_fault(names_after(names, stmts.take(k)), part, err)
}

proof fn lemma_stmts_blame(s: LowerView, stmts: Seq<StmtView>)
    requires
        roomy(s.locals.len() as int, s.blocks.len() as int),
    ensures
        lower_statements(s, stmts) matches Err(err) ==> match err {
            LowerErrorView::TooManyLocals => s.locals.len() + locals_of_stmts(stmts) > MAX_INDEX + 1,
            LowerErrorView::TooManyBlocks => s.blocks.len() + blocks_of_stmts(stmts) > MAX_INDEX,
            _ => exists|k: int, part: ExprView| #[trigger]
                blames_stmt(s.names.dom(), stmts, k, part, err),
        },
    decreases stmts.len(),
{
    if stmts.len() > 0 {
        let fewer = stmts.drop_last();
        let names = s.names.dom();
        lemma_stmts_blame(s, fewer);
        lemma_stmts_succeed(s, fewer);
        lemma_counts(expr_of(stmts.last()));
        match lower_statements(s, fewer) {
            Ok(s1) => {
                lemma_stmt_blames(s1, stmts.last());
                if let Err(err) = lower_statement(s1, stmts.last()) {
                    if !(err is TooManyLocals || err is TooManyBlocks) {
                        let part = choose|part: ExprView|
                            within(part, expr_of(stmts.last())) && #[trigger] at_fault(
                                s1.names.dom(),
                                part,
                                err,
                            );
                        assert(stmts.take(stmts.len() - 1) =~= fewer);
                        assert(blames_stmt(names, stmts, stmts.len() - 1, part, err));
                    }
                }
            },
            Err(err) => {
                if !(err is TooManyLocals || err is TooManyBlocks) {
                    let (k, part) = choose|k: int, part: ExprView| #[trigger]
                        blames_stmt(names, fewer, k, part, err);
                    assert(stmts.take(k) =~= fewer.take(k));
                    assert(blames_stmt(names, stmts, k, part, err));
                }
            },
        }
    }
}

/// An error with which a function body is refused says what is wrong with it. Too many locals or
/// blocks is said only of a body that needs more of them than there are indices. Any other error
/// tells of a part of some statement or of the value that is wrong in just that way, with the
/// parameters and the names of the `let` statements before it bound.
pub proof fn law_errors_tell_what_is_wrong(params: Seq<Seq<char>>, inputs: int, body: FnBodyView)
    requires
        inputs >= 0,
    ensures
        lower_body(params, inputs, body) matches Err(err) ==> {
            let n = arg_locals(params, inputs);
            let names = param_scope(params, n);
            match err {
                LowerErrorView::TooManyLocals => n + 1 + locals_of_body(body) > MAX_INDEX + 1,
                LowerErrorView::TooManyBlocks => blocks_of_body(body) > MAX_INDEX,
                _ => {
                    ||| exists|k: int, part: ExprView| #[trigger]
                        blames_stmt(names, body.stmts, k, part, err)
                    ||| body.ret matches Some(e) && exists|part: ExprView|
                        within(part, e) && #[trigger] at_fault(
                            names_after(names, body.stmts),
                            part,
                            err,
                        )
                },
            }
        },
{
    let n = arg_locals(params, inputs);
    let start = entry(params, n);
    lemma_entry_scope(params, n);
    lemma_counts_of_stmts(body.stmts);
    if let Some(e) = body.ret {
        lemma_counts(e);
    }
    if n <= MAX_INDEX {
        lemma_stmts_succeed(start, body.stmts);
        lemma_stmts_blame(start, body.stmts);
        if let Ok(s) = lower_statements(start, body.stmts) {
            if let Some(e) = body.ret {
                lemma_expr_blames(s, e, 0);
                lemma_expr_succeeds(s, e, 0);
            }
        }
    }
}

/// What is said of a variable holds its name, what is said of an expression holds how it is written,
/// and nothing else in it depends on the variable or the expression.
pub proof fn law_messages_hold_what_is_wrong(
    a: Seq<char>,
    b: Seq<char>,
    e: ExprView,
    f: ExprView,
)
    ensures
        differ_in(
            lower_message(LowerErrorView::UndefinedVariable(a)),
            a,
            lower_message(LowerErrorView::UndefinedVariable(b)),
            b,
        ),
        differ_in(
            lower_message(LowerErrorView::PushReceiverNotFound(a)),
            a,
            lower_message(LowerErrorView::PushReceiverNotFound(b)),
            b,
        ),
        differ_in(
            lower_message(LowerErrorView::LenReceiverNotFound(a)),
            a,
            lower_message(LowerErrorView::LenReceiverNotFound(b)),
            b,
        ),
        differ_in(
            lower_message(LowerErrorView::UnrecognizedExpr(e)),
            expr_shown(e),
            lower_message(LowerErrorView::UnrecognizedExpr(f)),
            expr_shown(f),
        ),
        differ_in(
            lower_message(LowerErrorView::UnhandledExpr(e)),
            expr_shown(e),
            lower_message(LowerErrorView::UnhandledExpr(f)),
            expr_shown(f),
        ),
{
    let unknown = "[toylang] infer_ty: unrecognized expression "@;
    assert(unknown + expr_shown(e) =~= unknown + expr_shown(e) + Seq::empty());
    assert(unknown + expr_shown(f) =~= unknown + expr_shown(f) + Seq::empty());
    let unhandled = "[toylang] lower_expr_into: unhandled expr "@;
    assert(unhandled + expr_shown(e) =~= unhandled + expr_shown(e) + Seq::empty());
    assert(unhandled + expr_shown(f) =~= unhandled + expr_shown(f) + Seq::empty());
    let quote = "'"@;
    let missing = "' not found"@;
    assert(lower_message(LowerErrorView::UndefinedVariable(a)) == "[toylang] undefined variable '"@
        + a + quote);
    assert(lower_message(LowerErrorView::UndefinedVariable(b)) == "[toylang] undefined variable '"@
        + b + quote);
    assert(lower_message(LowerErrorView::PushReceiverNotFound(a)) == "[toylang] push receiver '"@ + a
        + missing);
    assert(lower_message(LowerErrorView::PushReceiverNotFound(b)) == "[toylang] push receiver '"@ + b
        + missing);
    assert(lower_message(LowerErrorView::LenReceiverNotFound(a)) == "[toylang] len receiver '"@ + a
        + missing);
    assert(lower_message(LowerErrorView::LenReceiverNotFound(b)) == "[toylang] len receiver '"@ + b
        + missing);
}

/// Whatever error is returned for a function body tells what is wrong with the body.
pub proof fn law_returned_errors_tell_what_is_wrong(
    r: Result<Body, LowerError<'_>>,
    params: Seq<Seq<char>>,
    inputs: int,
    body: FnBodyView,
)
    requires
        is_lowering(r, params, inputs, body),
        inputs >= 0,
    ensures
        r matches Err(e) ==> {
            let n = arg_locals(params, inputs);
            let names = param_scope(params, n);
            match e@ {
                LowerErrorView::TooManyLocals => n + 1 + locals_of_body(body) > MAX_INDEX + 1,
                LowerErrorView::TooManyBlocks => blocks_of_body(body) > MAX_INDEX,
                err => {
                    ||| exists|k: int, part: ExprView| #[trigger]
                        blames_stmt(names, body.stmts, k, part, err)
                    ||| body.ret matches Some(value) && exists|part: ExprView|
                        within(part, value) && #[trigger] at_fault(
                            names_after(names, body.stmts),
                            part,
                            err,
                        )
                },
            }
        },
{
    law_errors_tell_what_is_wrong(params, inputs, body);
}

} // verus!
