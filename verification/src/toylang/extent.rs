//! How many statements a lowered body has: those that its expressions need, and no others.
use vstd::prelude::*;

use crate::mir::{
    BlockView, Callee, Local, MirTy, Operand, RvalueView, StatementView, TerminatorView,
};
use crate::toylang::ast::{ExprView, FnBodyView, StmtView};
use crate::toylang::lower::{
    arg_locals, deaths, entry, fresh, lemma_kill, lower_body, lower_expr, lower_fields,
    lower_statements, LowerView,
};
use crate::toylang::validity::lemma_expr_extends;

verus! {

/// How many statements an expression takes: one for a literal or a variable; for a struct literal
/// the assignment, and for each field its value and the beginning and the end of its storage; for
/// `push` the borrow and the value of the argument, each with the beginning and the end of its
/// storage. Calls are no statements.
pub open spec fn statements_of(e: ExprView) -> int
    decreases e, 0int,
{
    match e {
        ExprView::IntLit(_) => 1,
        ExprView::Var(_) => 1,
        ExprView::StructLit { fields, .. } => 1 + statements_of_fields(fields, 0),
        ExprView::StaticCall { .. } => 0,
        ExprView::MethodCall { method, args, .. } => if method == "push"@ && args.len() > 0 {
            5 + statements_of(args[0])
        } else {
            0
        },
    }
}

/// How many statements the fields of a struct literal take, from field `i` on.
pub open spec fn statements_of_fields(fields: Seq<(Seq<char>, ExprView)>, i: int) -> int
    decreases fields, fields.len() - i,
{
    if 0 <= i < fields.len() {
        2 + statements_of(fields[i].1) + statements_of_fields(fields, i + 1)
    } else {
        0
    }
}

/// How many statements a row of Toylang statements takes: its values, and for each the beginning of
/// its storage. Only the storage of an expression statement ends.
pub open spec fn statements_of_stmts(stmts: Seq<StmtView>) -> int
    decreases stmts.len(),
{
    if stmts.len() == 0 {
        0
    } else {
        statements_of_stmts(stmts.drop_last()) + match stmts.last() {
            StmtView::Let { expr, .. } => 1 + statements_of(expr),
            StmtView::ExprStmt(expr) => 2 + statements_of(expr),
        }
    }
}

/// How many statements a row of blocks has.
pub open spec fn statement_count(blocks: Seq<BlockView>) -> int
    decreases blocks.len(),
{
    if blocks.len() == 0 {
        0
    } else {
        statement_count(blocks.drop_last()) + blocks.last().statements.len()
    }
}

/// How many statements a body under construction has.
pub open spec fn extent(s: LowerView) -> int {
    statement_count(s.blocks) + s.current.len()
}

proof fn lemma_call_extent(s: LowerView, func: Callee, args: Seq<Operand>, dest: Local)
    ensures
        s.call(func, args, dest) matches Ok(after) ==> extent(after) == extent(s),
{
    if let Ok(after) = s.call(func, args, dest) {
        assert(after.blocks.drop_last() =~= s.blocks);
    }
}

proof fn lemma_kill_extent(s: LowerView, locals: Seq<Local>)
    ensures
        extent(s.kill(locals)) == extent(s) + locals.len(),
{
    lemma_kill(s, locals);
    assert(deaths(locals).len() == locals.len());
}

proof fn lemma_expr_extent(s: LowerView, e: ExprView, dest: Local)
    ensures
        lower_expr(s, e, dest) matches Ok(after) ==> extent(after) == extent(s) + statements_of(e),
    decreases e, 1int,
{
    match e {
        ExprView::StructLit { name: _, fields } => {
            lemma_fields_extent(s, fields, 0);
            if let Ok((s1, temps)) = lower_fields(s, fields, 0) {
                let operands = temps.map_values(|l: Local| Operand::Move(l));
                let s2 = s1.emit(StatementView::Assign(dest, RvalueView::Aggregate(operands)));
                lemma_kill_extent(s2, temps);
            }
        },
        ExprView::StaticCall { .. } => lemma_call_extent(s, Callee::VecNew, Seq::empty(), dest),
        ExprView::MethodCall { receiver, method, args } => {
            if let ExprView::Var(name) = *receiver {
                if method == "push"@ {
                    if args.len() > 0 && s.names.contains_key(name) {
                        lemma_push_extent(s, e, dest);
                    }
                } else {
                    lemma_call_extent(s, Callee::VecLen, seq![Operand::Copy(s.names[name])], dest);
                }
            }
        },
        _ => {},
    }
}

proof fn lemma_push_extent(s: LowerView, e: ExprView, dest: Local)
    requires
        e matches ExprView::MethodCall { receiver, method, args } && method == "push"@ && args.len()
            > 0 && (*receiver matches ExprView::Var(name) && s.names.contains_key(name)),
    ensures
        lower_expr(s, e, dest) matches Ok(after) ==> extent(after) == extent(s) + statements_of(e),
    decreases e, 0int,
{
    if let ExprView::MethodCall { receiver, method, args } = e {
        let name = (*receiver)->Var_0;
        if let Ok((s1, borrow)) = s.add_local(MirTy::MutRefVec) {
            let s2 = s1.emit(StatementView::StorageLive(borrow)).emit(
                StatementView::Assign(borrow, RvalueView::RefMut(s.names[name])),
            );
            if let Ok((s3, arg)) = fresh(s2, args[0]) {
                assert(extent(s3) == extent(s) + 3);
                lemma_expr_extent(s3, args[0], arg);
                if let Ok(s4) = lower_expr(s3, args[0], arg) {
                    let operands = seq![Operand::Move(borrow), Operand::Move(arg)];
                    lemma_call_extent(s4, Callee::VecPush, operands, dest);
                    if let Ok(s5) = s4.call(Callee::VecPush, operands, dest) {
                        lemma_kill_extent(s5, seq![arg, borrow]);
                    }
                }
            }
        }
    }
}

proof fn lemma_fields_extent(s: LowerView, fields: Seq<(Seq<char>, ExprView)>, i: int)
    requires
        0 <= i <= fields.len(),
    ensures
        lower_fields(s, fields, i) matches Ok((after, temps)) ==> extent(after) + temps.len()
            == extent(s) + statements_of_fields(fields, i),
    decreases fields, fields.len() - i,
{
    if i < fields.len() {
        let e = fields[i].1;
        if let Ok((s1, local)) = fresh(s, e) {
            lemma_expr_extent(s1, e, local);
            if let Ok(s2) = lower_expr(s1, e, local) {
                lemma_fields_extent(s2, fields, i + 1);
            }
        }
    }
}

proof fn lemma_stmts_extent(s: LowerView, stmts: Seq<StmtView>)
    ensures
        lower_statements(s, stmts) matches Ok(after) ==> extent(after) == extent(s)
            + statements_of_stmts(stmts),
    decreases stmts.len(),
{
    if stmts.len() > 0 {
        lemma_stmts_extent(s, stmts.drop_last());
        if let Ok(s1) = lower_statements(s, stmts.drop_last()) {
            match stmts.last() {
                StmtView::Let { name, expr } => {
                    if let Ok((s2, local)) = fresh(s1, expr) {
                        lemma_expr_extent(s2.bind(name, local), expr, local);
                    }
                },
                StmtView::ExprStmt(expr) => {
                    if let Ok((s2, local)) = fresh(s1, expr) {
                        lemma_expr_extent(s2, expr, local);
                    }
                },
            }
        }
    }
}

proof fn lemma_entry_extent(params: Seq<Seq<char>>, n: int)
    ensures
        extent(entry(params, n)) == 0,
    decreases n,
{
    if n > 0 {
        lemma_entry_extent(params, n - 1);
    }
}

/// A lowered body has the statements that its expressions need, and no others.
pub proof fn law_no_idle_statements(params: Seq<Seq<char>>, inputs: int, body: FnBodyView)
    ensures
        lower_body(params, inputs, body) matches Ok(b) ==> statement_count(b.blocks)
            == statements_of_stmts(body.stmts) + match body.ret {
            Some(e) => statements_of(e),
            None => 0,
        },
{
    let n = arg_locals(params, inputs);
    if let Ok(b) = lower_body(params, inputs, body) {
        lemma_entry_extent(params, n);
        lemma_stmts_extent(entry(params, n), body.stmts);
        let s = lower_statements(entry(params, n), body.stmts)->Ok_0;
        let s1 = match body.ret {
            Some(e) => {
                lemma_expr_extent(s, e, 0);
                lower_expr(s, e, 0)->Ok_0
            },
            None => s,
        };
        assert(b.blocks.drop_last() =~= s1.blocks);
    }
}

proof fn lemma_temps_increase(s: LowerView, fields: Seq<(Seq<char>, ExprView)>, i: int)
    requires
        0 <= i <= fields.len(),
    ensures
        lower_fields(s, fields, i) matches Ok((_, temps)) ==> {
            &&& temps.len() == fields.len() - i
            &&& forall|k: int| 0 <= k < temps.len() ==> s.locals.len() <= #[trigger] temps[k]
            &&& forall|j: int, k: int| 0 <= j < k < temps.len() ==> temps[j] < temps[k]
        },
    decreases fields, fields.len() - i,
{
    if i < fields.len() {
        let e = fields[i].1;
        if let Ok((s1, local)) = fresh(s, e) {
            lemma_expr_extends(s1, e, local);
            if let Ok(s2) = lower_expr(s1, e, local) {
                lemma_temps_increase(s2, fields, i + 1);
                if let Ok((_, rest)) = lower_fields(s2, fields, i + 1) {
                    let temps = seq![local] + rest;
                    assert forall|k: int| 0 <= k < temps.len() implies s.locals.len()
                        <= #[trigger] temps[k] by {
                        if k > 0 {
                            assert(temps[k] == rest[k - 1]);
                        }
                    }
                    assert forall|j: int, k: int| 0 <= j < k < temps.len() implies temps[j]
                        < temps[k] by {
                        assert(temps[k] == rest[k - 1]);
                        if j > 0 {
                            assert(temps[j] == rest[j - 1]);
                        }
                    }
                }
            }
        }
    }
}

/// Whether the statements behind place `at` give back the storage of the locals that the assignment
/// at `at` moves out, in the order in which it reads them, which is the order in which they came.
pub open spec fn gives_back_in_order(stmts: Seq<StatementView>, at: int, dest: Local) -> bool {
    0 <= at < stmts.len() && (stmts[at] matches StatementView::Assign(
        d,
        RvalueView::Aggregate(operands),
    ) && {
        &&& d == dest
        &&& stmts.len() == at + 1 + operands.len()
        &&& forall|k: int|
            0 <= k < operands.len() ==> (#[trigger] operands[k] matches Operand::Move(l)
                && stmts[at + 1 + k] == StatementView::StorageDead(l))
        &&& forall|j: int, k: int|
            0 <= j < k < operands.len() ==> ((#[trigger] operands[j])->Move_0 < (
            #[trigger] operands[k])->Move_0)
    })
}

/// The lowering of a struct literal ends with the assignment of the struct and, right behind it, the
/// end of the storage of its fields, in the order of the fields.
pub proof fn law_fields_end_in_order(
    s: LowerView,
    name: Seq<char>,
    fields: Seq<(Seq<char>, ExprView)>,
    dest: Local,
)
    ensures
        lower_expr(s, ExprView::StructLit { name, fields }, dest) matches Ok(after)
            ==> gives_back_in_order(
            after.current,
            after.current.len() - fields.len() - 1,
            dest,
        ),
{
    lemma_temps_increase(s, fields, 0);
    if let Ok((s1, temps)) = lower_fields(s, fields, 0) {
        let operands = temps.map_values(|l: Local| Operand::Move(l));
        let assign = StatementView::Assign(dest, RvalueView::Aggregate(operands));
        let s2 = s1.emit(assign);
        lemma_kill(s2, temps);
        let after = s2.kill(temps);
        let at = s1.current.len() as int;
        assert(after.current[at] == assign);
        assert forall|k: int| 0 <= k < operands.len() implies (
        #[trigger] operands[k] matches Operand::Move(l) && after.current[at + 1 + k]
            == StatementView::StorageDead(l)) by {
            assert(after.current[at + 1 + k] == deaths(temps)[k]);
        }
    }
}

/// The lowering of a `push` ends its block with the call, and the next block begins with the end of
/// the storage of the argument and then of the borrow.
pub proof fn law_push_ends_behind_the_call(
    s: LowerView,
    name: Seq<char>,
    args: Seq<ExprView>,
    dest: Local,
)
    ensures
        lower_expr(
            s,
            ExprView::MethodCall {
                receiver: Box::new(ExprView::Var(name)),
                method: "push"@,
                args,
            },
            dest,
        ) matches Ok(after) ==> after.blocks.len() > 0
            && (after.blocks.last().terminator matches TerminatorView::Call {
            func,
            args: operands,
            destination,
            ..
        } && {
            &&& func == Callee::VecPush
            &&& destination == dest
            &&& operands.len() == 2
            &&& operands[0] matches Operand::Move(borrow) && operands[1] matches Operand::Move(arg)
                && after.current == seq![
                StatementView::StorageDead(arg),
                StatementView::StorageDead(borrow),
            ]
        }),
{
    if let Ok((s1, borrow)) = s.add_local(MirTy::MutRefVec) {
        let s2 = s1.emit(StatementView::StorageLive(borrow)).emit(
            StatementView::Assign(borrow, RvalueView::RefMut(s.names[name])),
        );
        if let Ok((s3, arg)) = fresh(s2, args[0]) {
            if let Ok(s4) = lower_expr(s3, args[0], arg) {
                let operands = seq![Operand::Move(borrow), Operand::Move(arg)];
                if let Ok(s5) = s4.call(Callee::VecPush, operands, dest) {
                    let temps = seq![arg, borrow];
                    lemma_kill(s5, temps);
                    assert(s5.current + deaths(temps) =~= seq![
                        StatementView::StorageDead(arg),
                        StatementView::StorageDead(borrow),
                    ]);
                }
            }
        }
    }
}

} // verus!
