//! What a function body means, and that its lowering does that when it runs.
use vstd::prelude::*;

use crate::execution::{
    after_blocks, after_call, after_statement, after_statements, appended, arguments, content,
    finish, lemma_finish_in_row, length, operand_value, returned, Store, Value,
};
use crate::mir::{
    BlockView, Body, Callee, Local, MirTy, Operand, RvalueView, StatementView, MAX_INDEX,
};
use crate::toylang::ast::{ExprView, FnBodyView, StmtView};
use crate::toylang::lower::{
    arg_locals, entry, fresh, is_lowering, lemma_kill, lower_body, lower_expr, lower_fields,
    lower_statement, lower_statements, LowerError, LowerView,
};
use crate::toylang::scope::{
    blocks_of_body, body_in_scope, law_lowering_succeeds, locals_of_body, param_scope, roomy,
};
use crate::toylang::validity::law_blocks_in_row;

verus! {

/// What the names in scope stand for.
pub type Env = Map<Seq<char>, Value>;

/// The value of an expression, and what the names stand for behind it.
///
/// - The value of an integer literal is cut to 32 bits.
/// - A variable has the value that its name stands for.
/// - A struct literal holds the values of its fields in their order.
/// - `Vec::new()` is an empty vector. `push` appends the value of its argument to the vector of its
///   receiver, and `len` is the length of the vector of its receiver.
pub open spec fn eval(env: Env, e: ExprView) -> (Env, Value)
    decreases e, 0int,
{
    match e {
        ExprView::IntLit(n) => (env, Value::Int(n as i32)),
        ExprView::Var(name) => (env, env[name]),
        ExprView::StructLit { fields, .. } => {
            let (end, values) = eval_fields(env, fields, 0);
            (end, Value::Record(values))
        },
        ExprView::StaticCall { .. } => (env, Value::Vector(Seq::empty())),
        ExprView::MethodCall { receiver, method, args } => match *receiver {
            ExprView::Var(name) => if method == "push"@ && args.len() > 0 {
                let (end, item) = eval(env, args[0]);
                (end.insert(name, appended(end[name], item)), Value::Unit)
            } else {
                (env, length(env[name]))
            },
            _ => (env, Value::Undefined),
        },
    }
}

/// The values of the fields of a struct literal from field `i` on, one after the other.
pub open spec fn eval_fields(env: Env, fields: Seq<(Seq<char>, ExprView)>, i: int) -> (
    Env,
    Seq<Value>,
)
    decreases fields, fields.len() - i,
{
    if 0 <= i < fields.len() {
        let (next, value) = eval(env, fields[i].1);
        let (end, values) = eval_fields(next, fields, i + 1);
        (end, seq![value] + values)
    } else {
        (env, Seq::empty())
    }
}

/// What the names stand for behind a statement. A `let` lets its name stand for the value of its
/// expression. Inside the expression the name stands for the new variable already, which holds no
/// value yet.
pub open spec fn eval_stmt(env: Env, stmt: StmtView) -> Env {
    match stmt {
        StmtView::Let { name, expr } => {
            let (end, value) = eval(env.insert(name, Value::Undefined), expr);
            end.insert(name, value)
        },
        StmtView::ExprStmt(expr) => eval(env, expr).0,
    }
}

/// What the names stand for behind a row of statements.
pub open spec fn eval_stmts(env: Env, stmts: Seq<StmtView>) -> Env
    decreases stmts.len(),
{
    if stmts.len() == 0 {
        env
    } else {
        eval_stmt(eval_stmts(env, stmts.drop_last()), stmts.last())
    }
}

/// The value of a function body, and what the names stand for at its end. A body without a
/// trailing expression gives no value.
pub open spec fn eval_body(env: Env, body: FnBodyView) -> (Env, Value) {
    let end = eval_stmts(env, body.stmts);
    match body.ret {
        Some(e) => eval(end, e),
        None => (end, Value::Undefined),
    }
}

/// Whether parameter `k` of a row has a name that no later one has.
pub open spec fn last_of_name(params: Seq<Seq<char>>, n: int, k: int) -> bool {
    &&& 0 <= k < n <= params.len()
    &&& forall|j: int| k < j < n ==> #[trigger] params[j] != params[k]
}

/// How many of the `inputs` parameters of a signature have a name.
pub open spec fn named_inputs(params: Seq<Seq<char>>, inputs: int) -> int {
    if inputs < params.len() {
        inputs
    } else {
        params.len() as int
    }
}

/// Whether the names of the first `n` parameters stand for the arguments. Of two parameters with
/// one name the later one has it.
pub open spec fn binds(env: Env, params: Seq<Seq<char>>, n: int, args: Seq<Value>) -> bool {
    forall|k: int| #[trigger] last_of_name(params, n, k) ==> env[params[k]] == args[k]
}

/// What a body under construction has done so far.
pub open spec fn so_far(s: LowerView, st: Store) -> Store {
    after_statements(after_blocks(st, s.blocks), s.current)
}

/// Each name stands for a local of its own, which is not the place of the return value.
pub open spec fn own_locals(s: LowerView) -> bool {
    &&& s.locals.len() > 0
    &&& forall|name: Seq<char>| #[trigger]
        s.names.contains_key(name) ==> 0 < s.names[name] < s.locals.len()
    &&& forall|a: Seq<char>, b: Seq<char>|
        #![trigger s.names.contains_key(a), s.names.contains_key(b)]
        s.names.contains_key(a) && s.names.contains_key(b) && s.names[a] == s.names[b] ==> a == b
}

/// The locals that the names stand for hold what the names stand for, but for the local `dest`.
pub open spec fn mirrors_but(names: Map<Seq<char>, Local>, st: Store, env: Env, dest: int) -> bool {
    forall|name: Seq<char>| #[trigger]
        names.contains_key(name) ==> names[name] == dest || content(st, names[name]) == env[name]
}

/// The locals that the names stand for hold what the names stand for.
pub open spec fn mirrors(names: Map<Seq<char>, Local>, st: Store, env: Env) -> bool {
    mirrors_but(names, st, env, -1)
}

/// Whether no name stands for a local.
pub open spec fn unnamed(names: Map<Seq<char>, Local>, l: Local) -> bool {
    forall|name: Seq<char>| #[trigger] names.contains_key(name) ==> names[name] != l
}

/// The locals below `bound` that no name stands for hold what they held, but for `dest`.
pub open spec fn keeps(
    names: Map<Seq<char>, Local>,
    before: Store,
    after: Store,
    bound: int,
    dest: Local,
) -> bool {
    forall|l: Local| #[trigger]
        unnamed(names, l) && l < bound && l != dest ==> content(after, l) == content(before, l)
}

proof fn lemma_emit_runs(s: LowerView, st: Store, stmt: StatementView)
    ensures
        so_far(s.emit(stmt), st) == after_statement(so_far(s, st), stmt),
{
    assert(s.emit(stmt).current.drop_last() =~= s.current);
}

proof fn lemma_call_runs(s: LowerView, st: Store, func: Callee, args: Seq<Operand>, dest: Local)
    ensures
        s.call(func, args, dest) matches Ok(after) ==> so_far(after, st) == after_call(
            so_far(s, st),
            func,
            args,
            dest,
        ),
{
    if let Ok(after) = s.call(func, args, dest) {
        assert(after.blocks.drop_last() =~= s.blocks);
    }
}

proof fn lemma_kill_runs(s: LowerView, st: Store, locals: Seq<Local>)
    ensures
        forall|l: Local|
            !locals.contains(l) ==> #[trigger] content(so_far(s.kill(locals), st), l) == content(
                so_far(s, st),
                l,
            ),
    decreases locals.len(),
{
    if locals.len() > 0 {
        let shorter = locals.drop_last();
        lemma_kill_runs(s, st, shorter);
        lemma_emit_runs(s.kill(shorter), st, StatementView::StorageDead(locals.last()));
        assert forall|l: Local| !locals.contains(l) implies #[trigger] content(
            so_far(s.kill(locals), st),
            l,
        ) == content(so_far(s, st), l) by {
            assert(l != locals[locals.len() - 1]);
            if shorter.contains(l) {
                let k = shorter.index_of(l);
                assert(locals[k] == l);
            }
            assert(content(so_far(s.kill(shorter), st), l) == content(so_far(s, st), l));
        }
    }
}

/// A fresh local holds no value, and the others hold what they held.
proof fn lemma_fresh_runs(s: LowerView, st: Store, e: ExprView)
    ensures
        fresh(s, e) matches Ok((s1, l)) ==> {
            &&& so_far(s1, st) == so_far(s, st).insert(l, Value::Undefined)
            &&& l == s.locals.len()
            &&& s1.names == s.names
            &&& s1.locals.len() == s.locals.len() + 1
        },
{
    if let Ok((s1, l)) = fresh(s, e) {
        let s0 = LowerView { locals: s1.locals, ..s };
        lemma_emit_runs(s0, st, StatementView::StorageLive(l));
        assert(s1 == s0.emit(StatementView::StorageLive(l)));
    }
}

/// What running the lowering of an expression does.
pub open spec fn runs(s: LowerView, st: Store, env: Env, e: ExprView, dest: Local) -> bool {
    lower_expr(s, e, dest) matches Ok(after) ==> {
        let (end, value) = eval(env, e);
        &&& after.names == s.names
        &&& after.locals.len() >= s.locals.len()
        &&& content(so_far(after, st), dest) == value
        &&& mirrors_but(s.names, so_far(after, st), end, dest as int)
        &&& keeps(s.names, so_far(s, st), so_far(after, st), s.locals.len() as int, dest)
    }
}

/// Running the lowering of an expression puts its value into `dest` and changes the locals of the
/// names as evaluating the expression changes what the names stand for.
proof fn lemma_expr_runs(s: LowerView, st: Store, env: Env, e: ExprView, dest: Local)
    requires
        own_locals(s),
        dest < s.locals.len(),
        mirrors(s.names, so_far(s, st), env),
    ensures
        runs(s, st, env, e, dest),
    decreases e, 1int,
{
    match e {
        ExprView::IntLit(n) => {
            lemma_emit_runs(
                s,
                st,
                StatementView::Assign(dest, RvalueView::Use(Operand::ConstI32(n as i32))),
            );
        },
        ExprView::Var(name) => {
            if s.names.contains_key(name) {
                lemma_emit_runs(
                    s,
                    st,
                    StatementView::Assign(dest, RvalueView::Use(Operand::Move(s.names[name]))),
                );
            }
        },
        ExprView::StructLit { name: _, fields } => lemma_record_runs(s, st, env, e, dest),
        ExprView::StaticCall { .. } => lemma_call_runs(s, st, Callee::VecNew, Seq::empty(), dest),
        ExprView::MethodCall { receiver, method, args } => {
            if let ExprView::Var(name) = *receiver {
                if s.names.contains_key(name) {
                    if method == "push"@ {
                        if args.len() > 0 {
                            lemma_push_runs(s, st, env, e, dest);
                        }
                    } else {
                        lemma_call_runs(
                            s,
                            st,
                            Callee::VecLen,
                            seq![Operand::Copy(s.names[name])],
                            dest,
                        );
                    }
                }
            }
        },
    }
}

proof fn lemma_record_runs(s: LowerView, st: Store, env: Env, e: ExprView, dest: Local)
    requires
        own_locals(s),
        dest < s.locals.len(),
        mirrors(s.names, so_far(s, st), env),
        e is StructLit,
    ensures
        runs(s, st, env, e, dest),
    decreases e, 0int,
{
    if let ExprView::StructLit { name: _, fields } = e {
        lemma_fields_run(s, st, env, fields, 0);
        if let Ok((s1, temps)) = lower_fields(s, fields, 0) {
            let (end, values) = eval_fields(env, fields, 0);
            let operands = temps.map_values(|l: Local| Operand::Move(l));
            let assign = StatementView::Assign(dest, RvalueView::Aggregate(operands));
            let s2 = s1.emit(assign);
            let st1 = so_far(s1, st);
            lemma_emit_runs(s1, st, assign);
            assert(operands.map_values(|operand: Operand| operand_value(st1, operand)) =~= values) by {
                assert forall|k: int| 0 <= k < values.len() implies operand_value(
                    st1,
                    #[trigger] operands[k],
                ) == values[k] by {
                    assert(content(st1, temps[k]) == values[k]);
                }
            }
            lemma_kill(s2, temps);
            lemma_kill_runs(s2, st, temps);
            let after = s2.kill(temps);
            let st2 = so_far(after, st);
            assert forall|l: Local| l < s.locals.len() implies !temps.contains(l) by {
                if temps.contains(l) {
                    let k = temps.index_of(l);
                    assert(temps[k] == l);
                }
            }
            assert(content(st2, dest) == Value::Record(values));
            assert forall|name: Seq<char>| #[trigger] s.names.contains_key(name) implies s.names[name]
                == dest || content(st2, s.names[name]) == end[name] by {}
        }
    }
}

proof fn lemma_fields_run(
    s: LowerView,
    st: Store,
    env: Env,
    fields: Seq<(Seq<char>, ExprView)>,
    i: int,
)
    requires
        own_locals(s),
        mirrors(s.names, so_far(s, st), env),
        0 <= i <= fields.len(),
    ensures
        lower_fields(s, fields, i) matches Ok((after, temps)) ==> {
            let (end, values) = eval_fields(env, fields, i);
            &&& after.names == s.names
            &&& after.locals.len() >= s.locals.len()
            &&& mirrors(s.names, so_far(after, st), end)
            &&& temps.len() == values.len()
            &&& forall|k: int|
                0 <= k < temps.len() ==> s.locals.len() <= #[trigger] temps[k]
                    && content(so_far(after, st), temps[k]) == values[k]
            &&& forall|l: Local| #[trigger]
                unnamed(s.names, l) && l < s.locals.len() ==> content(so_far(after, st), l)
                    == content(so_far(s, st), l)
        },
    decreases fields, fields.len() - i,
{
    if i < fields.len() {
        let e = fields[i].1;
        lemma_fresh_runs(s, st, e);
        if let Ok((s1, local)) = fresh(s, e) {
            lemma_expr_runs(s1, st, env, e, local);
            let (next, value) = eval(env, e);
            if let Ok(s2) = lower_expr(s1, e, local) {
                lemma_fields_run(s2, st, next, fields, i + 1);
                if let Ok((s3, rest)) = lower_fields(s2, fields, i + 1) {
                    let (end, values) = eval_fields(next, fields, i + 1);
                    let temps = seq![local] + rest;
                    assert(unnamed(s.names, local));
                    assert forall|k: int| 0 <= k < temps.len() implies s.locals.len()
                        <= #[trigger] temps[k] && content(so_far(s3, st), temps[k]) == (seq![value]
                        + values)[k] by {
                        if k > 0 {
                            assert(temps[k] == rest[k - 1]);
                        }
                    }
                }
            }
        }
    }
}

proof fn lemma_push_runs(s: LowerView, st: Store, env: Env, e: ExprView, dest: Local)
    requires
        own_locals(s),
        dest < s.locals.len(),
        mirrors(s.names, so_far(s, st), env),
        e matches ExprView::MethodCall { receiver, method, args } && method == "push"@ && args.len()
            > 0 && (*receiver matches ExprView::Var(name) && s.names.contains_key(name)),
    ensures
        runs(s, st, env, e, dest),
    decreases e, 0int,
{
    if let ExprView::MethodCall { receiver, method, args } = e {
        let name = (*receiver)->Var_0;
        let vector = s.names[name];
        if let Ok((s0, borrow)) = s.add_local(MirTy::MutRefVec) {
            let live = StatementView::StorageLive(borrow);
            let lend = StatementView::Assign(borrow, RvalueView::RefMut(vector));
            let s2 = s0.emit(live).emit(lend);
            assert(so_far(s0, st) == so_far(s, st));
            lemma_emit_runs(s0, st, live);
            lemma_emit_runs(s0.emit(live), st, lend);
            lemma_fresh_runs(s2, st, args[0]);
            if let Ok((s3, arg)) = fresh(s2, args[0]) {
                lemma_expr_runs(s3, st, env, args[0], arg);
                let (next, item) = eval(env, args[0]);
                if let Ok(s4) = lower_expr(s3, args[0], arg) {
                    let operands = seq![Operand::Move(borrow), Operand::Move(arg)];
                    lemma_call_runs(s4, st, Callee::VecPush, operands, dest);
                    if let Ok(s5) = s4.call(Callee::VecPush, operands, dest) {
                        let temps = seq![arg, borrow];
                        let st4 = so_far(s4, st);
                        assert(unnamed(s.names, borrow));
                        assert(content(st4, borrow) == Value::Borrow(vector));
                        assert(content(st4, arg) == item);
                        assert(content(st4, vector) == next[name]);
                        lemma_kill(s5, temps);
                        lemma_kill_runs(s5, st, temps);
                        assert forall|l: Local| l < s.locals.len() implies !temps.contains(l) by {
                            if temps.contains(l) {
                                let k = temps.index_of(l);
                                assert(temps[k] == l);
                            }
                        }
                    }
                }
            }
        }
    }
}

/// Running the lowering of a statement changes the locals of the names as evaluating the statement
/// changes what the names stand for.
proof fn lemma_statement_runs(s: LowerView, st: Store, env: Env, stmt: StmtView)
    requires
        own_locals(s),
        mirrors(s.names, so_far(s, st), env),
    ensures
        lower_statement(s, stmt) matches Ok(after) ==> {
            &&& own_locals(after)
            &&& after.locals.len() >= s.locals.len()
            &&& mirrors(after.names, so_far(after, st), eval_stmt(env, stmt))
            &&& content(so_far(after, st), 0) == content(so_far(s, st), 0)
            &&& match stmt {
                StmtView::Let { name, .. } => after.names == s.names.insert(
                    name,
                    s.locals.len() as Local,
                ),
                StmtView::ExprStmt(_) => after.names == s.names,
            }
        },
{
    match stmt {
        StmtView::Let { name, expr } => {
            lemma_fresh_runs(s, st, expr);
            if let Ok((s1, local)) = fresh(s, expr) {
                let s2 = s1.bind(name, local);
                let inside = env.insert(name, Value::Undefined);
                assert(so_far(s2, st) == so_far(s1, st));
                assert(mirrors(s2.names, so_far(s2, st), inside));
                assert(unnamed(s2.names, 0));
                lemma_expr_runs(s2, st, inside, expr, local);
            }
        },
        StmtView::ExprStmt(expr) => {
            lemma_fresh_runs(s, st, expr);
            if let Ok((s1, local)) = fresh(s, expr) {
                assert(unnamed(s.names, 0));
                lemma_expr_runs(s1, st, env, expr, local);
                if let Ok(s2) = lower_expr(s1, expr, local) {
                    lemma_emit_runs(s2, st, StatementView::StorageDead(local));
                }
            }
        },
    }
}

/// Whether a row of statements binds a name anew.
pub open spec fn rebinds(stmts: Seq<StmtView>, name: Seq<char>) -> bool {
    exists|k: int|
        0 <= k < stmts.len() && (#[trigger] stmts[k] matches StmtView::Let { name: n, .. } && n
            == name)
}

proof fn lemma_statements_run(s: LowerView, st: Store, env: Env, stmts: Seq<StmtView>)
    requires
        own_locals(s),
        mirrors(s.names, so_far(s, st), env),
    ensures
        lower_statements(s, stmts) matches Ok(after) ==> {
            &&& own_locals(after)
            &&& mirrors(after.names, so_far(after, st), eval_stmts(env, stmts))
            &&& content(so_far(after, st), 0) == content(so_far(s, st), 0)
            &&& forall|name: Seq<char>| #[trigger]
                s.names.contains_key(name) && !rebinds(stmts, name) ==> after.names.contains_key(
                    name,
                ) && after.names[name] == s.names[name]
        },
    decreases stmts.len(),
{
    if stmts.len() > 0 {
        let fewer = stmts.drop_last();
        lemma_statements_run(s, st, env, fewer);
        if let Ok(s1) = lower_statements(s, fewer) {
            lemma_statement_runs(s1, st, eval_stmts(env, fewer), stmts.last());
            if let Ok(after) = lower_statement(s1, stmts.last()) {
                assert forall|name: Seq<char>| #[trigger] s.names.contains_key(name) && !rebinds(
                    stmts,
                    name,
                ) implies after.names.contains_key(name) && after.names[name] == s.names[name] by {
                    assert(!rebinds(fewer, name)) by {
                        if rebinds(fewer, name) {
                            let k = choose|k: int|
                                0 <= k < fewer.len() && (
                                #[trigger] fewer[k] matches StmtView::Let { name: n, .. } && n
                                    == name);
                            assert(stmts[k] == fewer[k]);
                        }
                    }
                    assert(stmts[stmts.len() - 1] == stmts.last());
                }
            }
        }
    }
}

/// Before its first statement each name of a body stands for the argument of the last parameter
/// with that name.
pub proof fn lemma_entry_binds(params: Seq<Seq<char>>, n: int)
    requires
        0 <= n <= params.len(),
        n <= MAX_INDEX,
    ensures
        own_locals(entry(params, n)),
        entry(params, n).locals.len() == n + 1,
        entry(params, n).blocks == Seq::<BlockView>::empty(),
        entry(params, n).current == Seq::<StatementView>::empty(),
        forall|k: int| #[trigger]
            last_of_name(params, n, k) ==> entry(params, n).names.contains_key(params[k])
                && entry(params, n).names[params[k]] == k + 1,
        forall|name: Seq<char>| #[trigger]
            entry(params, n).names.contains_key(name) ==> {
                let k = entry(params, n).names[name] - 1;
                last_of_name(params, n, k) && params[k] == name
            },
    decreases n,
{
    if n > 0 {
        lemma_entry_binds(params, n - 1);
        let s = entry(params, n - 1);
        let after = entry(params, n);
        let last = params[n - 1];
        assert forall|k: int| #[trigger] last_of_name(params, n, k) implies after.names.contains_key(
            params[k],
        ) && after.names[params[k]] == k + 1 by {
            if k < n - 1 {
                assert(params[n - 1] != params[k]);
                assert(last_of_name(params, n - 1, k));
            }
        }
        assert forall|name: Seq<char>| #[trigger] after.names.contains_key(name) implies {
            let k = after.names[name] - 1;
            last_of_name(params, n, k) && params[k] == name
        } by {
            if name == last {
                assert(last_of_name(params, n, n - 1));
            } else {
                assert(s.names.contains_key(name));
                let k = s.names[name] - 1;
                assert(last_of_name(params, n - 1, k));
            }
        }
    }
}

/// A lowered body does what the function body means. When it runs with arguments that the names of
/// the parameters stand for, it returns, and the value that it returns is that of the function
/// body. A parameter whose name no `let` binds anew then holds what the name stands for at the end.
pub proof fn law_lowered_bodies_compute(
    params: Seq<Seq<char>>,
    inputs: int,
    body: FnBodyView,
    args: Seq<Value>,
    env: Env,
)
    requires
        inputs >= 0,
        args.len() >= named_inputs(params, inputs),
        binds(env, params, named_inputs(params, inputs), args),
    ensures
        lower_body(params, inputs, body) matches Ok(b) ==> {
            let n = named_inputs(params, inputs);
            let (end, value) = eval_body(env, body);
            finish(b, args) matches Some(st) && {
                &&& content(st, 0) == value
                &&& forall|k: int| #[trigger]
                    last_of_name(params, n, k) && !rebinds(body.stmts, params[k]) ==> content(
                        st,
                        (k + 1) as Local,
                    ) == end[params[k]]
            }
        },
{
    let n = arg_locals(params, inputs);
    if let Ok(b) = lower_body(params, inputs, body) {
        let st = arguments(args);
        let s0 = entry(params, n);
        lemma_entry_binds(params, n);
        assert(so_far(s0, st) == st);
        assert(mirrors(s0.names, st, env)) by {
            assert forall|name: Seq<char>| #[trigger] s0.names.contains_key(name) implies content(
                st,
                s0.names[name],
            ) == env[name] by {
                let k = s0.names[name] - 1;
                assert(last_of_name(params, n, k));
            }
        }
        lemma_statements_run(s0, st, env, body.stmts);
        let s = lower_statements(s0, body.stmts)->Ok_0;
        let s1 = match body.ret {
            Some(e) => {
                lemma_expr_runs(s, st, eval_stmts(env, body.stmts), e, 0);
                lower_expr(s, e, 0)->Ok_0
            },
            None => s,
        };
        law_blocks_in_row(params, inputs, body);
        assert(b.blocks.drop_last() =~= s1.blocks);
        lemma_finish_in_row(b.blocks, 0, st);
        assert(b.blocks.take(0) =~= Seq::empty());
        let end = after_blocks(st, b.blocks);
        assert(end == so_far(s1, st));
        assert forall|k: int| #[trigger] last_of_name(params, n, k) && !rebinds(
            body.stmts,
            params[k],
        ) implies content(end, (k + 1) as Local) == eval_body(env, body).0[params[k]] by {
            assert(s0.names.contains_key(params[k]));
            assert(s.names.contains_key(params[k]));
        }
    }
}

/// Whatever is returned as the lowering of a function body: it is a body exactly if the function
/// body means something with the named parameters bound and there is room, and the body then
/// returns the value of the function body.
pub proof fn law_returned_bodies_compute(
    r: Result<Body, LowerError<'_>>,
    params: Seq<Seq<char>>,
    inputs: int,
    body: FnBodyView,
    args: Seq<Value>,
    env: Env,
)
    requires
        is_lowering(r, params, inputs, body),
        inputs >= 0,
        args.len() >= named_inputs(params, inputs),
        binds(env, params, named_inputs(params, inputs), args),
    ensures
        ({
            let n = named_inputs(params, inputs);
            &&& r is Ok <==> body_in_scope(param_scope(params, n), body) && roomy(
                n + 1 + locals_of_body(body),
                blocks_of_body(body),
            )
            &&& r matches Ok(b) ==> returned(b@, args) == Some(eval_body(env, body).1) && b@.arg_count
                == inputs
        }),
{
    law_lowering_succeeds(params, inputs, body);
    law_lowered_bodies_compute(params, inputs, body, args, env);
}

} // verus!
