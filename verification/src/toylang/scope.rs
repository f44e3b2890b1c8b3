//! Which function bodies can be lowered.
use vstd::prelude::*;

use crate::mir::{Callee, Local, MirTy, Operand, RvalueView, StatementView, MAX_INDEX};
use crate::toylang::ast::{ExprView, FnBodyView, StmtView};
use crate::toylang::lower::{
    arg_locals, entry, fresh, lemma_kill, lower_body, lower_expr, lower_fields, lower_statement,
    lower_statements, LowerView,
};

verus! {

/// Whether an expression means something where the names `names` are bound. Variables must be
/// bound; of the calls only `Vec::new`, `push` with an argument and `len` are known, and the
/// receiver of a method is a variable.
pub open spec fn in_scope(names: Set<Seq<char>>, e: ExprView) -> bool
    decreases e,
{
    match e {
        ExprView::IntLit(_) => true,
        ExprView::Var(name) => names.contains(name),
        ExprView::StructLit { fields, .. } => forall|k: int|
            0 <= k < fields.len() ==> in_scope(names, (#[trigger] fields[k]).1),
        ExprView::StaticCall { ty, method, .. } => ty == "Vec"@ && method == "new"@,
        ExprView::MethodCall { receiver, method, args } => {
            &&& *receiver matches ExprView::Var(name) && names.contains(name)
            &&& if method == "push"@ {
                args.len() > 0 && in_scope(names, args[0])
            } else {
                method == "len"@
            }
        },
    }
}

/// How many locals an expression takes.
pub open spec fn locals_of(e: ExprView) -> int
    decreases e, 0int,
{
    match e {
        ExprView::StructLit { fields, .. } => locals_of_fields(fields, 0),
        ExprView::MethodCall { method, args, .. } => if method == "push"@ {
            if args.len() > 0 {
                2 + locals_of(args[0])
            } else {
                1
            }
        } else {
            0
        },
        _ => 0,
    }
}

/// How many locals the fields of a struct literal take, from field `i` on: one for each value, and
/// what the values take.
pub open spec fn locals_of_fields(fields: Seq<(Seq<char>, ExprView)>, i: int) -> int
    decreases fields, fields.len() - i,
{
    if 0 <= i < fields.len() {
        1 + locals_of(fields[i].1) + locals_of_fields(fields, i + 1)
    } else {
        0
    }
}

/// How many blocks an expression ends: one for each call.
pub open spec fn blocks_of(e: ExprView) -> int
    decreases e, 0int,
{
    match e {
        ExprView::StructLit { fields, .. } => blocks_of_fields(fields, 0),
        ExprView::StaticCall { .. } => 1,
        ExprView::MethodCall { method, args, .. } => if method == "push"@ && args.len() > 0 {
            1 + blocks_of(args[0])
        } else {
            1
        },
        _ => 0,
    }
}

/// How many blocks the fields of a struct literal end, from field `i` on.
pub open spec fn blocks_of_fields(fields: Seq<(Seq<char>, ExprView)>, i: int) -> int
    decreases fields, fields.len() - i,
{
    if 0 <= i < fields.len() {
        blocks_of(fields[i].1) + blocks_of_fields(fields, i + 1)
    } else {
        0
    }
}

/// Whether there are no more locals and blocks than there are indices.
pub open spec fn roomy(locals: int, blocks: int) -> bool {
    locals <= MAX_INDEX + 1 && blocks <= MAX_INDEX
}

/// The type of an expression is known if the expression means something.
pub proof fn lemma_fresh_succeeds(s: LowerView, e: ExprView)
    requires
        roomy(s.locals.len() as int, s.blocks.len() as int),
    ensures
        in_scope(s.names.dom(), e) && s.locals.len() <= MAX_INDEX ==> fresh(s, e) is Ok,
        fresh(s, e) is Ok ==> s.locals.len() <= MAX_INDEX,
        fresh(s, e) matches Ok((s1, _)) ==> {
            &&& s1.names == s.names
            &&& s1.locals.len() == s.locals.len() + 1
            &&& s1.blocks == s.blocks
        },
        e matches ExprView::Var(name) ==> (fresh(s, e) is Ok ==> s.names.contains_key(name)),
{
}

/// An expression takes no negative number of locals and blocks.
pub proof fn lemma_counts(e: ExprView)
    ensures
        locals_of(e) >= 0,
        blocks_of(e) >= 0,
    decreases e, 0int,
{
    match e {
        ExprView::StructLit { fields, .. } => lemma_counts_of_fields(fields, 0),
        ExprView::MethodCall { args, .. } => if args.len() > 0 {
            lemma_counts(args[0]);
        },
        _ => {},
    }
}

pub proof fn lemma_counts_of_fields(fields: Seq<(Seq<char>, ExprView)>, i: int)
    requires
        0 <= i <= fields.len(),
    ensures
        locals_of_fields(fields, i) >= 0,
        blocks_of_fields(fields, i) >= 0,
    decreases fields, fields.len() - i,
{
    if i < fields.len() {
        lemma_counts(fields[i].1);
        lemma_counts_of_fields(fields, i + 1);
    }
}

/// Whether a lowering has kept the names and has taken so many locals and blocks.
pub open spec fn took(s: LowerView, after: LowerView, locals: int, blocks: int) -> bool {
    &&& after.names == s.names
    &&& after.locals.len() == s.locals.len() + locals
    &&& after.blocks.len() == s.blocks.len() + blocks
}

/// An expression is lowered exactly if it means something and there is room.
pub proof fn lemma_expr_succeeds(s: LowerView, e: ExprView, dest: Local)
    requires
        roomy(s.locals.len() as int, s.blocks.len() as int),
    ensures
        lower_expr(s, e, dest) is Ok <==> in_scope(s.names.dom(), e) && roomy(
            s.locals.len() + locals_of(e),
            s.blocks.len() + blocks_of(e),
        ),
        lower_expr(s, e, dest) matches Ok(after) ==> took(s, after, locals_of(e), blocks_of(e)),
    decreases e, 1int,
{
    match e {
        ExprView::StructLit { name: _, fields } => {
            lemma_fields_succeed(s, fields, 0);
            if let Ok((s1, temps)) = lower_fields(s, fields, 0) {
                lemma_kill(
                    s1.emit(
                        StatementView::Assign(
                            dest,
                            RvalueView::Aggregate(temps.map_values(|l: Local| Operand::Move(l))),
                        ),
                    ),
                    temps,
                );
            }
        },
        ExprView::MethodCall { receiver, method, args } => if method == "push"@ {
            lemma_push_succeeds(s, e, dest);
        },
        _ => {},
    }
}

proof fn lemma_push_succeeds(s: LowerView, e: ExprView, dest: Local)
    requires
        roomy(s.locals.len() as int, s.blocks.len() as int),
        e matches ExprView::MethodCall { method, .. } && method == "push"@,
    ensures
        lower_expr(s, e, dest) is Ok <==> in_scope(s.names.dom(), e) && roomy(
            s.locals.len() + locals_of(e),
            s.blocks.len() + blocks_of(e),
        ),
        lower_expr(s, e, dest) matches Ok(after) ==> took(s, after, locals_of(e), blocks_of(e)),
    decreases e, 0int,
{
    if let ExprView::MethodCall { receiver, method, args } = e {
        if let ExprView::Var(name) = *receiver {
            if args.len() > 0 {
                lemma_counts(args[0]);
                if let Ok((s1, borrow)) = s.add_local(MirTy::MutRefVec) {
                    let s2 = s1.emit(StatementView::StorageLive(borrow)).emit(
                        StatementView::Assign(borrow, RvalueView::RefMut(s.names[name])),
                    );
                    lemma_fresh_succeeds(s2, args[0]);
                    if let Ok((s3, arg)) = fresh(s2, args[0]) {
                        lemma_expr_succeeds(s3, args[0], arg);
                        if let Ok(s4) = lower_expr(s3, args[0], arg) {
                            if let Ok(s5) = s4.call(
                                Callee::VecPush,
                                seq![Operand::Move(borrow), Operand::Move(arg)],
                                dest,
                            ) {
                                lemma_kill(s5, seq![arg, borrow]);
                            }
                        }
                    }
                }
            }
        }
    }
}

pub proof fn lemma_fields_succeed(s: LowerView, fields: Seq<(Seq<char>, ExprView)>, i: int)
    requires
        0 <= i <= fields.len(),
        roomy(s.locals.len() as int, s.blocks.len() as int),
    ensures
        lower_fields(s, fields, i) is Ok <==> (forall|k: int|
            i <= k < fields.len() ==> in_scope(s.names.dom(), (#[trigger] fields[k]).1)) && roomy(
            s.locals.len() + locals_of_fields(fields, i),
            s.blocks.len() + blocks_of_fields(fields, i),
        ),
        lower_fields(s, fields, i) matches Ok((after, _)) ==> took(
            s,
            after,
            locals_of_fields(fields, i),
            blocks_of_fields(fields, i),
        ),
    decreases fields, fields.len() - i,
{
    if i < fields.len() {
        let e = fields[i].1;
        lemma_counts(e);
        lemma_counts_of_fields(fields, i + 1);
        lemma_fresh_succeeds(s, e);
        if let Ok((s1, local)) = fresh(s, e) {
            lemma_expr_succeeds(s1, e, local);
            if let Ok(s2) = lower_expr(s1, e, local) {
                lemma_fields_succeed(s2, fields, i + 1);
            }
        }
    }
}

/// The names that are bound behind a row of statements.
pub open spec fn names_after(names: Set<Seq<char>>, stmts: Seq<StmtView>) -> Set<Seq<char>>
    decreases stmts.len(),
{
    if stmts.len() == 0 {
        names
    } else {
        match stmts.last() {
            StmtView::Let { name, .. } => names_after(names, stmts.drop_last()).insert(name),
            StmtView::ExprStmt(_) => names_after(names, stmts.drop_last()),
        }
    }
}

/// Whether a statement means something. The name of a `let` is bound inside the expression
/// already, but an expression that is a variable on its own must have been bound before.
pub open spec fn stmt_in_scope(names: Set<Seq<char>>, stmt: StmtView) -> bool {
    match stmt {
        StmtView::Let { name, expr } => match expr {
            ExprView::Var(_) => in_scope(names, expr),
            _ => in_scope(names.insert(name), expr),
        },
        StmtView::ExprStmt(expr) => in_scope(names, expr),
    }
}

/// Whether each statement of a row means something behind the ones before it.
pub open spec fn stmts_in_scope(names: Set<Seq<char>>, stmts: Seq<StmtView>) -> bool
    decreases stmts.len(),
{
    stmts.len() > 0 ==> {
        &&& stmts_in_scope(names, stmts.drop_last())
        &&& stmt_in_scope(names_after(names, stmts.drop_last()), stmts.last())
    }
}

/// The expression of a statement.
pub open spec fn expr_of(stmt: StmtView) -> ExprView {
    match stmt {
        StmtView::Let { expr, .. } => expr,
        StmtView::ExprStmt(expr) => expr,
    }
}

/// How many locals a row of statements takes: one for each value, and what the values take.
pub open spec fn locals_of_stmts(stmts: Seq<StmtView>) -> int
    decreases stmts.len(),
{
    if stmts.len() == 0 {
        0
    } else {
        locals_of_stmts(stmts.drop_last()) + 1 + locals_of(expr_of(stmts.last()))
    }
}

/// How many blocks a row of statements ends.
pub open spec fn blocks_of_stmts(stmts: Seq<StmtView>) -> int
    decreases stmts.len(),
{
    if stmts.len() == 0 {
        0
    } else {
        blocks_of_stmts(stmts.drop_last()) + blocks_of(expr_of(stmts.last()))
    }
}

/// A statement is lowered exactly if it means something and there is room.
proof fn lemma_stmt_succeeds(s: LowerView, stmt: StmtView)
    requires
        roomy(s.locals.len() as int, s.blocks.len() as int),
    ensures
        lower_statement(s, stmt) is Ok <==> stmt_in_scope(s.names.dom(), stmt) && roomy(
            s.locals.len() + 1 + locals_of(expr_of(stmt)),
            s.blocks.len() + blocks_of(expr_of(stmt)),
        ),
        lower_statement(s, stmt) matches Ok(after) ==> {
            &&& after.names.dom() == names_after(s.names.dom(), seq![stmt])
            &&& after.locals.len() == s.locals.len() + 1 + locals_of(expr_of(stmt))
            &&& after.blocks.len() == s.blocks.len() + blocks_of(expr_of(stmt))
        },
{
    lemma_counts(expr_of(stmt));
    lemma_fresh_succeeds(s, expr_of(stmt));
    reveal_with_fuel(names_after, 2);
    assert(seq![stmt].drop_last() =~= Seq::empty());
    match stmt {
        StmtView::Let { name, expr } => {
            assert(s.locals.len() <= MAX_INDEX && stmt_in_scope(s.names.dom(), stmt) ==> fresh(
                s,
                expr,
            ) is Ok);
            if let Ok((s1, local)) = fresh(s, expr) {
                let s2 = s1.bind(name, local);
                assert(s2.names.dom() =~= s.names.dom().insert(name));
                lemma_expr_succeeds(s2, expr, local);
            }
        },
        StmtView::ExprStmt(expr) => {
            if let Ok((s1, local)) = fresh(s, expr) {
                lemma_expr_succeeds(s1, expr, local);
            }
        },
    }
}

/// A row of statements is lowered exactly if each means something and there is room.
pub proof fn lemma_stmts_succeed(s: LowerView, stmts: Seq<StmtView>)
    requires
        roomy(s.locals.len() as int, s.blocks.len() as int),
    ensures
        locals_of_stmts(stmts) >= 0,
        blocks_of_stmts(stmts) >= 0,
        lower_statements(s, stmts) is Ok <==> stmts_in_scope(s.names.dom(), stmts) && roomy(
            s.locals.len() + locals_of_stmts(stmts),
            s.blocks.len() + blocks_of_stmts(stmts),
        ),
        lower_statements(s, stmts) matches Ok(after) ==> {
            &&& after.names.dom() == names_after(s.names.dom(), stmts)
            &&& after.locals.len() == s.locals.len() + locals_of_stmts(stmts)
            &&& after.blocks.len() == s.blocks.len() + blocks_of_stmts(stmts)
        },
    decreases stmts.len(),
{
    if stmts.len() > 0 {
        lemma_stmts_succeed(s, stmts.drop_last());
        lemma_counts(expr_of(stmts.last()));
        if let Ok(s1) = lower_statements(s, stmts.drop_last()) {
            lemma_stmt_succeeds(s1, stmts.last());
            reveal_with_fuel(names_after, 2);
            assert(seq![stmts.last()].drop_last() =~= Seq::empty());
        }
    }
}

/// The names of the first `n` parameters.
pub open spec fn param_scope(params: Seq<Seq<char>>, n: int) -> Set<Seq<char>> {
    params.take(n).to_set()
}

pub proof fn lemma_entry_scope(params: Seq<Seq<char>>, n: int)
    requires
        0 <= n <= params.len(),
    ensures
        entry(params, n).names.dom() == param_scope(params, n),
        entry(params, n).locals.len() == n + 1,
        entry(params, n).blocks.len() == 0,
    decreases n,
{
    if n == 0 {
        assert(entry(params, n).names.dom() =~= param_scope(params, n));
    } else {
        lemma_entry_scope(params, n - 1);
        let longer = params.take(n);
        let shorter = params.take(n - 1);
        assert forall|name: Seq<char>| #[trigger] entry(params, n).names.dom().contains(name)
            <==> longer.to_set().contains(name) by {
            if shorter.contains(name) {
                let k = shorter.index_of(name);
                assert(longer[k] == name);
            }
            if name == params[n - 1] {
                assert(longer[n - 1] == name);
            }
            if longer.contains(name) && name != params[n - 1] {
                let k = longer.index_of(name);
                assert(shorter[k] == name);
            }
        }
        assert(entry(params, n).names.dom() =~= param_scope(params, n));
    }
}

/// How many locals and blocks a body takes beyond its arguments.
pub open spec fn locals_of_body(body: FnBodyView) -> int {
    locals_of_stmts(body.stmts) + match body.ret {
        Some(e) => locals_of(e),
        None => 0,
    }
}

/// How many blocks a body has.
pub open spec fn blocks_of_body(body: FnBodyView) -> int {
    blocks_of_stmts(body.stmts) + (match body.ret {
        Some(e) => blocks_of(e),
        None => 0,
    }) + 1
}

/// Whether a function body means something where the names `names` are bound.
pub open spec fn body_in_scope(names: Set<Seq<char>>, body: FnBodyView) -> bool {
    &&& stmts_in_scope(names, body.stmts)
    &&& body.ret matches Some(e) ==> in_scope(names_after(names, body.stmts), e)
}

/// A function body is lowered exactly if each of its statements and its value mean something with
/// the parameters bound, and there is room. It then has so many locals and so many blocks.
pub proof fn law_lowering_succeeds(params: Seq<Seq<char>>, inputs: int, body: FnBodyView)
    requires
        inputs >= 0,
    ensures
        ({
            let n = arg_locals(params, inputs);
            &&& lower_body(params, inputs, body) is Ok <==> body_in_scope(
                param_scope(params, n),
                body,
            ) && roomy(n + 1 + locals_of_body(body), blocks_of_body(body))
            &&& lower_body(params, inputs, body) matches Ok(b) ==> {
                &&& b.locals.len() == n + 1 + locals_of_body(body)
                &&& b.blocks.len() == blocks_of_body(body)
            }
        }),
{
    let n = arg_locals(params, inputs);
    lemma_entry_scope(params, n);
    let start = entry(params, n);
    if let Some(e) = body.ret {
        lemma_counts(e);
    }
    if n <= MAX_INDEX {
        lemma_stmts_succeed(start, body.stmts);
        if let Ok(s) = lower_statements(start, body.stmts) {
            if let Some(e) = body.ret {
                lemma_expr_succeeds(s, e, 0);
            }
        }
    } else {
        lemma_counts_of_stmts(body.stmts);
    }
}

pub proof fn lemma_counts_of_stmts(stmts: Seq<StmtView>)
    ensures
        locals_of_stmts(stmts) >= 0,
        blocks_of_stmts(stmts) >= 0,
    decreases stmts.len(),
{
    if stmts.len() > 0 {
        lemma_counts_of_stmts(stmts.drop_last());
        lemma_counts(expr_of(stmts.last()));
    }
}

} // verus!
