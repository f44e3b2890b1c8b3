//! That lowered bodies put into each local only values of its type, and hand calls what they take.
use vstd::prelude::*;

use crate::mir::{
    BlockView, Callee, Local, MirTy, Operand, RvalueView, StatementView, TerminatorView, MAX_INDEX,
};
use crate::toylang::ast::{ExprView, FnBodyView, StmtView};
use crate::toylang::lower::{
    arg_locals, entry, fresh, infer, lemma_kill, lower_body, lower_expr, lower_fields,
    lower_statements, LowerView,
};
use crate::toylang::validity::{extends, lemma_expr_extends};

verus! {

/// Whether a local can take a value of a type. What the place of the return value takes is up to
/// the signature.
pub open spec fn fits_into(locals: Seq<MirTy>, dest: Local, ty: MirTy) -> bool {
    dest < locals.len() && (dest == 0 || locals[dest as int] == ty)
}

/// Whether an operand moves a local out.
pub open spec fn moves(operand: Operand, locals: Seq<MirTy>) -> bool {
    operand matches Operand::Move(l) && l < locals.len()
}

/// Whether a statement assigns a value of the type of its local. Constants are `i32`; a variable is
/// moved, never copied; a mutable borrow is one of a vector; and a struct is made of values that
/// are moved into it.
pub open spec fn typed_statement(stmt: StatementView, locals: Seq<MirTy>) -> bool {
    match stmt {
        StatementView::StorageLive(_) => true,
        StatementView::StorageDead(_) => true,
        StatementView::Assign(dest, rvalue) => match rvalue {
            RvalueView::Use(Operand::ConstI32(_)) => fits_into(locals, dest, MirTy::I32),
            RvalueView::Use(Operand::Move(l)) => l < locals.len() && fits_into(
                locals,
                dest,
                locals[l as int],
            ),
            RvalueView::Use(Operand::Copy(_)) => false,
            RvalueView::RefMut(l) => l < locals.len() && dest != 0 && fits_into(
                locals,
                dest,
                MirTy::MutRefVec,
            ),
            RvalueView::Aggregate(operands) => {
                &&& fits_into(locals, dest, MirTy::Elem)
                &&& forall|k: int|
                    0 <= k < operands.len() ==> moves(#[trigger] operands[k], locals)
            },
        },
    }
}

/// Whether a row of statements assigns values of the types of the locals.
pub open spec fn typed_statements(stmts: Seq<StatementView>, locals: Seq<MirTy>) -> bool {
    forall|k: int| 0 <= k < stmts.len() ==> typed_statement(#[trigger] stmts[k], locals)
}

/// Whether a call has the arguments that the callee takes. `Vec::new` takes none, `Vec::push` takes
/// a mutable borrow and an element, both moved, and `Vec::len` takes a copy of the receiver.
pub open spec fn typed_terminator(terminator: TerminatorView, locals: Seq<MirTy>) -> bool {
    match terminator {
        TerminatorView::Return => true,
        TerminatorView::Call { func, args, .. } => match func {
            Callee::VecNew => args.len() == 0,
            Callee::VecPush => {
                &&& args.len() == 2
                &&& args[0] matches Operand::Move(l) && l < locals.len() && locals[l as int]
                    == MirTy::MutRefVec
                &&& moves(args[1], locals)
            },
            Callee::VecLen => args.len() == 1 && (args[0] matches Operand::Copy(l) && l
                < locals.len()),
            Callee::Foreign(_) => false,
        },
    }
}

/// Whether a block deals with values of the types of the locals.
pub open spec fn typed_block(block: BlockView, locals: Seq<MirTy>) -> bool {
    typed_statements(block.statements, locals) && typed_terminator(block.terminator, locals)
}

/// Whether a body under construction deals with values of the types of the locals.
pub open spec fn typed(s: LowerView) -> bool {
    &&& s.locals.len() > 0
    &&& typed_statements(s.current, s.locals)
    &&& forall|i: int| 0 <= i < s.blocks.len() ==> typed_block(#[trigger] s.blocks[i], s.locals)
    &&& forall|name: Seq<char>| #[trigger]
        s.names.contains_key(name) ==> s.names[name] < s.locals.len()
}

proof fn lemma_statement_grows(stmt: StatementView, locals: Seq<MirTy>, more: Seq<MirTy>)
    requires
        typed_statement(stmt, locals),
        locals.len() <= more.len(),
        forall|k: int| 0 <= k < locals.len() ==> #[trigger] more[k] == locals[k],
    ensures
        typed_statement(stmt, more),
{
    if let StatementView::Assign(dest, RvalueView::Aggregate(operands)) = stmt {
        assert forall|k: int| 0 <= k < operands.len() implies moves(
            #[trigger] operands[k],
            more,
        ) by {
            assert(moves(operands[k], locals));
        }
    }
}

proof fn lemma_block_grows(block: BlockView, locals: Seq<MirTy>, more: Seq<MirTy>)
    requires
        typed_block(block, locals),
        locals.len() <= more.len(),
        forall|k: int| 0 <= k < locals.len() ==> #[trigger] more[k] == locals[k],
    ensures
        typed_block(block, more),
{
    lemma_statements_grow(block.statements, locals, more);
}

proof fn lemma_statements_grow(stmts: Seq<StatementView>, locals: Seq<MirTy>, more: Seq<MirTy>)
    requires
        typed_statements(stmts, locals),
        locals.len() <= more.len(),
        forall|k: int| 0 <= k < locals.len() ==> #[trigger] more[k] == locals[k],
    ensures
        typed_statements(stmts, more),
{
    assert forall|k: int| 0 <= k < stmts.len() implies typed_statement(
        #[trigger] stmts[k],
        more,
    ) by {
        lemma_statement_grows(stmts[k], locals, more);
    }
}

proof fn lemma_add_typed(s: LowerView, ty: MirTy)
    requires
        typed(s),
    ensures
        s.add_local(ty) matches Ok((s1, l)) ==> {
            &&& typed(s1)
            &&& extends(s, s1)
            &&& l < s1.locals.len()
            &&& s1.locals[l as int] == ty
            &&& l != 0
        },
{
    if let Ok((s1, l)) = s.add_local(ty) {
        lemma_statements_grow(s.current, s.locals, s1.locals);
        assert forall|i: int| 0 <= i < s1.blocks.len() implies typed_block(
            #[trigger] s1.blocks[i],
            s1.locals,
        ) by {
            lemma_block_grows(s.blocks[i], s.locals, s1.locals);
        }
    }
}

proof fn lemma_emit_typed(s: LowerView, stmt: StatementView)
    requires
        typed(s),
        typed_statement(stmt, s.locals),
    ensures
        typed(s.emit(stmt)),
{
}

proof fn lemma_kill_typed(s: LowerView, locals: Seq<Local>)
    requires
        typed(s),
    ensures
        typed(s.kill(locals)),
{
    lemma_kill(s, locals);
}

proof fn lemma_call_typed(s: LowerView, func: Callee, args: Seq<Operand>, dest: Local)
    requires
        typed(s),
        typed_terminator(
            TerminatorView::Call { func, args, destination: dest, target: s.blocks.len() as int + 1 },
            s.locals,
        ),
    ensures
        s.call(func, args, dest) matches Ok(after) ==> typed(after),
{
}

/// The type of the value of an expression.
pub open spec fn type_of(s: LowerView, e: ExprView) -> MirTy {
    match e {
        ExprView::IntLit(_) => MirTy::I32,
        ExprView::Var(name) => s.locals[s.names[name] as int],
        ExprView::StructLit { .. } => MirTy::Elem,
        ExprView::StaticCall { .. } => MirTy::VecOfElem,
        ExprView::MethodCall { method, .. } => if method == "push"@ {
            MirTy::Unit
        } else {
            MirTy::Usize
        },
    }
}

proof fn lemma_fresh_typed(s: LowerView, e: ExprView)
    requires
        typed(s),
    ensures
        fresh(s, e) matches Ok((s1, l)) ==> {
            &&& typed(s1)
            &&& s1.names == s.names
            &&& extends(s, s1)
            &&& l == s.locals.len()
            &&& fits_into(s1.locals, l, type_of(s, e))
            &&& e matches ExprView::Var(name) ==> s.names.contains_key(name)
        },
{
    if let Ok(ty) = infer(s, e) {
        lemma_add_typed(s, ty);
        if let Ok((s1, l)) = s.add_local(ty) {
            lemma_emit_typed(s1, StatementView::StorageLive(l));
        }
    }
}

proof fn lemma_expr_typed(s: LowerView, e: ExprView, dest: Local)
    requires
        typed(s),
        fits_into(s.locals, dest, type_of(s, e)),
    ensures
        lower_expr(s, e, dest) matches Ok(after) ==> typed(after) && after.names == s.names,
    decreases e, 1int,
{
    match e {
        ExprView::StructLit { name: _, fields } => lemma_record_typed(s, e, dest),
        ExprView::MethodCall { receiver, method, args } => {
            if let ExprView::Var(name) = *receiver {
                if s.names.contains_key(name) {
                    if method == "push"@ {
                        if args.len() > 0 {
                            lemma_push_typed(s, e, dest);
                        }
                    } else {
                        lemma_call_typed(
                            s,
                            Callee::VecLen,
                            seq![Operand::Copy(s.names[name])],
                            dest,
                        );
                    }
                }
            }
        },
        _ => {},
    }
}

proof fn lemma_record_typed(s: LowerView, e: ExprView, dest: Local)
    requires
        typed(s),
        e is StructLit,
        fits_into(s.locals, dest, MirTy::Elem),
    ensures
        lower_expr(s, e, dest) matches Ok(after) ==> typed(after) && after.names == s.names,
    decreases e, 0int,
{
    if let ExprView::StructLit { name: _, fields } = e {
        lemma_fields_typed(s, fields, 0);
        if let Ok((s1, temps)) = lower_fields(s, fields, 0) {
            let operands = temps.map_values(|l: Local| Operand::Move(l));
            assert forall|k: int| 0 <= k < operands.len() implies moves(
                #[trigger] operands[k],
                s1.locals,
            ) by {
                assert(temps[k] < s1.locals.len());
            }
            let assign = StatementView::Assign(dest, RvalueView::Aggregate(operands));
            assert(fits_into(s1.locals, dest, MirTy::Elem)) by {
                assert(s1.locals[dest as int] == s.locals[dest as int]);
            }
            lemma_emit_typed(s1, assign);
            lemma_kill_typed(s1.emit(assign), temps);
            lemma_kill(s1.emit(assign), temps);
        }
    }
}

proof fn lemma_fields_typed(s: LowerView, fields: Seq<(Seq<char>, ExprView)>, i: int)
    requires
        typed(s),
        0 <= i <= fields.len(),
    ensures
        lower_fields(s, fields, i) matches Ok((after, temps)) ==> {
            &&& typed(after)
            &&& after.names == s.names
            &&& extends(s, after)
            &&& forall|k: int| 0 <= k < temps.len() ==> #[trigger] temps[k] < after.locals.len()
        },
    decreases fields, fields.len() - i,
{
    if i < fields.len() {
        let e = fields[i].1;
        lemma_fresh_typed(s, e);
        if let Ok((s1, local)) = fresh(s, e) {
            assert(type_of(s1, e) == type_of(s, e));
            lemma_expr_typed(s1, e, local);
            lemma_expr_extends(s1, e, local);
            if let Ok(s2) = lower_expr(s1, e, local) {
                lemma_fields_typed(s2, fields, i + 1);
                if let Ok((s3, rest)) = lower_fields(s2, fields, i + 1) {
                    let temps = seq![local] + rest;
                    assert forall|k: int| 0 <= k < temps.len() implies #[trigger] temps[k]
                        < s3.locals.len() by {
                        if k > 0 {
                            assert(temps[k] == rest[k - 1]);
                        }
                    }
                    assert forall|k: int| 0 <= k < s.locals.len() implies #[trigger] s3.locals[k]
                        == s.locals[k] by {
                        assert(s2.locals[k] == s1.locals[k]);
                    }
                }
            }
        }
    }
}

proof fn lemma_push_typed(s: LowerView, e: ExprView, dest: Local)
    requires
        typed(s),
        e matches ExprView::MethodCall { receiver, method, args } && method == "push"@ && args.len()
            > 0 && (*receiver matches ExprView::Var(name) && s.names.contains_key(name)),
    ensures
        lower_expr(s, e, dest) matches Ok(after) ==> typed(after) && after.names == s.names,
    decreases e, 0int,
{
    if let ExprView::MethodCall { receiver, method, args } = e {
        let name = (*receiver)->Var_0;
        lemma_add_typed(s, MirTy::MutRefVec);
        if let Ok((s0, borrow)) = s.add_local(MirTy::MutRefVec) {
            let live = StatementView::StorageLive(borrow);
            let lend = StatementView::Assign(borrow, RvalueView::RefMut(s.names[name]));
            lemma_emit_typed(s0, live);
            lemma_emit_typed(s0.emit(live), lend);
            let s2 = s0.emit(live).emit(lend);
            lemma_fresh_typed(s2, args[0]);
            if let Ok((s3, arg)) = fresh(s2, args[0]) {
                assert(type_of(s3, args[0]) == type_of(s2, args[0]));
                lemma_expr_typed(s3, args[0], arg);
                lemma_expr_extends(s3, args[0], arg);
                if let Ok(s4) = lower_expr(s3, args[0], arg) {
                    let operands = seq![Operand::Move(borrow), Operand::Move(arg)];
                    assert(s4.locals[borrow as int] == s3.locals[borrow as int]);
                    lemma_call_typed(s4, Callee::VecPush, operands, dest);
                    if let Ok(s5) = s4.call(Callee::VecPush, operands, dest) {
                        lemma_kill_typed(s5, seq![arg, borrow]);
                        lemma_kill(s5, seq![arg, borrow]);
                    }
                }
            }
        }
    }
}

proof fn lemma_stmts_typed(s: LowerView, stmts: Seq<StmtView>)
    requires
        typed(s),
    ensures
        lower_statements(s, stmts) matches Ok(after) ==> typed(after),
    decreases stmts.len(),
{
    if stmts.len() > 0 {
        lemma_stmts_typed(s, stmts.drop_last());
        if let Ok(s1) = lower_statements(s, stmts.drop_last()) {
            match stmts.last() {
                StmtView::Let { name, expr } => {
                    lemma_fresh_typed(s1, expr);
                    if let Ok((s2, local)) = fresh(s1, expr) {
                        let s3 = s2.bind(name, local);
                        assert(typed(s3));
                        assert(fits_into(s3.locals, local, type_of(s3, expr)));
                        lemma_expr_typed(s3, expr, local);
                    }
                },
                StmtView::ExprStmt(expr) => {
                    lemma_fresh_typed(s1, expr);
                    if let Ok((s2, local)) = fresh(s1, expr) {
                        assert(type_of(s2, expr) == type_of(s1, expr));
                        lemma_expr_typed(s2, expr, local);
                        if let Ok(s3) = lower_expr(s2, expr, local) {
                            lemma_emit_typed(s3, StatementView::StorageDead(local));
                        }
                    }
                },
            }
        }
    }
}

proof fn lemma_entry_typed(params: Seq<Seq<char>>, n: int)
    requires
        0 <= n <= MAX_INDEX,
    ensures
        typed(entry(params, n)),
        entry(params, n).locals.len() == n + 1,
        entry(params, n).blocks.len() == 0,
        entry(params, n).current.len() == 0,
    decreases n,
{
    if n > 0 {
        lemma_entry_typed(params, n - 1);
    }
}

/// A lowered body puts into each local only values of its type, and hands each call the arguments
/// that the callee takes. Variables are moved; only the receiver of `len` is copied.
pub proof fn law_values_fit_their_locals(
    params: Seq<Seq<char>>,
    inputs: int,
    body: FnBodyView,
    i: int,
)
    requires
        inputs >= 0,
    ensures
        lower_body(params, inputs, body) matches Ok(b) ==> (0 <= i < b.blocks.len() ==> typed_block(
            b.blocks[i],
            b.locals,
        )),
{
    let n = arg_locals(params, inputs);
    if let Ok(b) = lower_body(params, inputs, body) {
        lemma_entry_typed(params, n);
        lemma_stmts_typed(entry(params, n), body.stmts);
        let s = lower_statements(entry(params, n), body.stmts)->Ok_0;
        let s1 = match body.ret {
            Some(e) => {
                lemma_expr_typed(s, e, 0);
                lower_expr(s, e, 0)->Ok_0
            },
            None => s,
        };
        assert(b.blocks =~= s1.blocks.push(
            BlockView { statements: s1.current, terminator: TerminatorView::Return },
        ));
    }
}

} // verus!
