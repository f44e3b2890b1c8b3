//! What holds of every lowered body: the blocks form a row, each local has storage while it is
//! used, and calls deliver values of the right type.
use vstd::prelude::*;

use crate::mir::{
    BlockView, Callee, Local, MirTy, Operand, RvalueView, StatementView, TerminatorView, MAX_INDEX,
};
use crate::toylang::ast::{ExprView, FnBodyView, StmtView};
use crate::toylang::lower::{
    arg_locals, entry, fresh, infer, lemma_kill, lower_body, lower_expr, lower_fields,
    lower_statement, lower_statements, LowerView,
};

verus! {

/// What a statement or a terminator does to a local.
pub enum Event {
    /// Its storage becomes live.
    Live(Local),
    /// Its storage is given back.
    Dead(Local),
    /// It is read, borrowed or written.
    Touch(Local),
}

/// What reading an operand does.
pub open spec fn operand_events(operand: Operand) -> Seq<Event> {
    match operand {
        Operand::Copy(l) => seq![Event::Touch(l)],
        Operand::Move(l) => seq![Event::Touch(l)],
        Operand::ConstI32(_) => Seq::empty(),
    }
}

/// What reading a row of operands does.
pub open spec fn operands_events(operands: Seq<Operand>) -> Seq<Event>
    decreases operands.len(),
{
    if operands.len() == 0 {
        Seq::empty()
    } else {
        operands_events(operands.drop_last()) + operand_events(operands.last())
    }
}

/// What a statement does.
pub open spec fn statement_events(stmt: StatementView) -> Seq<Event> {
    match stmt {
        StatementView::StorageLive(l) => seq![Event::Live(l)],
        StatementView::StorageDead(l) => seq![Event::Dead(l)],
        StatementView::Assign(dest, rvalue) => (match rvalue {
            RvalueView::Use(operand) => operand_events(operand),
            RvalueView::RefMut(l) => seq![Event::Touch(l)],
            RvalueView::Aggregate(operands) => operands_events(operands),
        }).push(Event::Touch(dest)),
    }
}

/// What a row of statements does.
pub open spec fn statements_events(stmts: Seq<StatementView>) -> Seq<Event>
    decreases stmts.len(),
{
    if stmts.len() == 0 {
        Seq::empty()
    } else {
        statements_events(stmts.drop_last()) + statement_events(stmts.last())
    }
}

/// What a terminator does. A return reads the return place.
pub open spec fn terminator_events(terminator: TerminatorView) -> Seq<Event> {
    match terminator {
        TerminatorView::Return => seq![Event::Touch(0)],
        TerminatorView::Call { args, destination, .. } => operands_events(args).push(
            Event::Touch(destination),
        ),
    }
}

/// What a row of blocks does, from the first to the last.
pub open spec fn blocks_events(blocks: Seq<BlockView>) -> Seq<Event>
    decreases blocks.len(),
{
    if blocks.len() == 0 {
        Seq::empty()
    } else {
        blocks_events(blocks.drop_last()) + statements_events(blocks.last().statements)
            + terminator_events(blocks.last().terminator)
    }
}

/// Which locals have storage at a point, and which have had it up to there.
#[verifier::ext_equal]
pub struct Storage {
    pub live: Set<Local>,
    pub seen: Set<Local>,
}

/// The storage before the first block: none beyond the return place and the arguments.
pub open spec fn no_storage() -> Storage {
    Storage { live: Set::empty(), seen: Set::empty() }
}

/// The storage after one event, unless the event must not happen here. Storage becomes live once
/// and not for the return place or one of the `args` arguments; only live storage is given back;
/// and a local is touched only while it has storage.
pub open spec fn step(st: Storage, args: int, event: Event) -> Option<Storage> {
    match event {
        Event::Live(l) => if l > args && !st.seen.contains(l) {
            Some(Storage { live: st.live.insert(l), seen: st.seen.insert(l) })
        } else {
            None
        },
        Event::Dead(l) => if st.live.contains(l) {
            Some(Storage { live: st.live.remove(l), seen: st.seen })
        } else {
            None
        },
        Event::Touch(l) => if l <= args || st.live.contains(l) {
            Some(st)
        } else {
            None
        },
    }
}

/// The storage after a row of events, unless one of them must not happen.
pub open spec fn run(st: Storage, args: int, events: Seq<Event>) -> Option<Storage>
    decreases events.len(),
{
    if events.len() == 0 {
        Some(st)
    } else {
        match run(st, args, events.drop_last()) {
            Some(before) => step(before, args, events.last()),
            None => None,
        }
    }
}

/// Running two rows of events one after the other.
pub proof fn lemma_run_concat(st: Storage, args: int, first: Seq<Event>, second: Seq<Event>)
    ensures
        run(st, args, first + second) == match run(st, args, first) {
            Some(between) => run(between, args, second),
            None => None,
        },
    decreases second.len(),
{
    if second.len() == 0 {
        assert(first + second =~= first);
    } else {
        lemma_run_concat(st, args, first, second.drop_last());
        assert((first + second).drop_last() =~= first + second.drop_last());
    }
}

/// What a body under construction does so far.
pub open spec fn trace(s: LowerView) -> Seq<Event> {
    blocks_events(s.blocks) + statements_events(s.current)
}

/// The storage that a body under construction has so far.
pub open spec fn storage(s: LowerView, args: int) -> Option<Storage> {
    run(no_storage(), args, trace(s))
}

/// Whether a local may be touched.
pub open spec fn usable(st: Storage, args: int, l: Local) -> bool {
    l <= args || st.live.contains(l)
}

/// A body under construction is in order: nothing has happened that must not, the locals beyond
/// the arguments are those that have had storage, the live ones are `live`, and each name stands
/// for a local that may be touched.
pub open spec fn in_order(s: LowerView, args: int, live: Set<Local>) -> bool {
    &&& 0 <= args < s.locals.len() <= MAX_INDEX + 1
    &&& storage(s, args) matches Some(st) && {
        &&& st.live == live
        &&& forall|l: Local| #[trigger] st.seen.contains(l) <==> args < l < s.locals.len()
        &&& forall|l: Local| #[trigger] live.contains(l) ==> st.seen.contains(l)
        &&& forall|name: Seq<char>| #[trigger]
            s.names.contains_key(name) ==> usable(st, args, s.names[name])
    }
}

/// One statement more, if what it does may happen.
proof fn lemma_emit(s: LowerView, args: int, stmt: StatementView)
    ensures
        storage(s.emit(stmt), args) == match storage(s, args) {
            Some(st) => run(st, args, statement_events(stmt)),
            None => None,
        },
{
    let after = s.emit(stmt);
    assert(after.current.drop_last() =~= s.current);
    assert(trace(after) =~= trace(s) + statement_events(stmt));
    lemma_run_concat(no_storage(), args, trace(s), statement_events(stmt));
}

/// One block more.
proof fn lemma_finalize(s: LowerView, args: int, terminator: TerminatorView)
    ensures
        s.finalize(terminator) matches Ok(after) ==> storage(after, args) == match storage(s, args) {
            Some(st) => run(st, args, terminator_events(terminator)),
            None => None,
        },
{
    if let Ok(after) = s.finalize(terminator) {
        assert(after.blocks.drop_last() =~= s.blocks);
        assert(trace(after) =~= trace(s) + terminator_events(terminator));
        lemma_run_concat(no_storage(), args, trace(s), terminator_events(terminator));
    }
}

/// Touching one local.
proof fn lemma_run_touch(st: Storage, args: int, before: Seq<Event>, l: Local)
    ensures
        run(st, args, before.push(Event::Touch(l))) == match run(st, args, before) {
            Some(between) => if usable(between, args, l) {
                Some(between)
            } else {
                None
            },
            None => None,
        },
{
    assert(before.push(Event::Touch(l)).drop_last() =~= before);
}

/// Doing nothing, and doing one thing.
proof fn lemma_run_one(st: Storage, args: int, event: Event)
    ensures
        run(st, args, Seq::empty()) == Some(st),
        run(st, args, seq![event]) == step(st, args, event),
{
    assert(seq![event].drop_last() =~= Seq::empty());
}

/// Reading operands whose locals may be touched.
proof fn lemma_run_operands(st: Storage, args: int, operands: Seq<Operand>)
    requires
        forall|k: int|
            0 <= k < operands.len() ==> match #[trigger] operands[k] {
                Operand::Copy(l) => usable(st, args, l),
                Operand::Move(l) => usable(st, args, l),
                Operand::ConstI32(_) => true,
            },
    ensures
        run(st, args, operands_events(operands)) == Some(st),
    decreases operands.len(),
{
    if operands.len() > 0 {
        let shorter = operands.drop_last();
        assert forall|k: int| 0 <= k < shorter.len() implies match #[trigger] shorter[k] {
            Operand::Copy(l) => usable(st, args, l),
            Operand::Move(l) => usable(st, args, l),
            Operand::ConstI32(_) => true,
        } by {
            assert(shorter[k] == operands[k]);
        }
        lemma_run_operands(st, args, shorter);
        let last = operands.last();
        assert(last == operands[operands.len() - 1]);
        lemma_run_concat(st, args, operands_events(shorter), operand_events(last));
        match last {
            Operand::Copy(l) => lemma_run_one(st, args, Event::Touch(l)),
            Operand::Move(l) => lemma_run_one(st, args, Event::Touch(l)),
            Operand::ConstI32(_) => lemma_run_one(st, args, Event::Touch(0)),
        }
    }
}

/// An assignment to a local that may be touched, of operands that may be read.
proof fn lemma_assign(s: LowerView, args: int, live: Set<Local>, dest: Local, rvalue: RvalueView)
    requires
        in_order(s, args, live),
        usable(storage(s, args)->0, args, dest),
        match rvalue {
            RvalueView::Use(Operand::Copy(l)) => usable(storage(s, args)->0, args, l),
            RvalueView::Use(Operand::Move(l)) => usable(storage(s, args)->0, args, l),
            RvalueView::Use(Operand::ConstI32(_)) => true,
            RvalueView::RefMut(l) => usable(storage(s, args)->0, args, l),
            RvalueView::Aggregate(operands) => forall|k: int|
                0 <= k < operands.len() ==> match #[trigger] operands[k] {
                    Operand::Copy(l) => usable(storage(s, args)->0, args, l),
                    Operand::Move(l) => usable(storage(s, args)->0, args, l),
                    Operand::ConstI32(_) => true,
                },
        },
    ensures
        in_order(s.emit(StatementView::Assign(dest, rvalue)), args, live),
        storage(s.emit(StatementView::Assign(dest, rvalue)), args) == storage(s, args),
{
    let st = storage(s, args)->0;
    let stmt = StatementView::Assign(dest, rvalue);
    lemma_emit(s, args, stmt);
    lemma_run_one(st, args, Event::Touch(0));
    match rvalue {
        RvalueView::Use(operand) => match operand {
            Operand::Copy(l) => lemma_run_one(st, args, Event::Touch(l)),
            Operand::Move(l) => lemma_run_one(st, args, Event::Touch(l)),
            Operand::ConstI32(_) => {},
        },
        RvalueView::RefMut(l) => lemma_run_one(st, args, Event::Touch(l)),
        RvalueView::Aggregate(operands) => lemma_run_operands(st, args, operands),
    }
    let reads = match rvalue {
        RvalueView::Use(operand) => operand_events(operand),
        RvalueView::RefMut(l) => seq![Event::Touch(l)],
        RvalueView::Aggregate(operands) => operands_events(operands),
    };
    lemma_run_touch(st, args, reads, dest);
}

/// A fresh local, its storage live.
proof fn lemma_add_live(s: LowerView, args: int, live: Set<Local>, ty: MirTy)
    requires
        in_order(s, args, live),
    ensures
        s.add_local(ty) matches Ok((s1, l)) ==> {
            &&& in_order(s1.emit(StatementView::StorageLive(l)), args, live.insert(l))
            &&& l == s.locals.len()
            &&& !live.contains(l)
            &&& l > args
        },
{
    if let Ok((s1, l)) = s.add_local(ty) {
        let s2 = s1.emit(StatementView::StorageLive(l));
        let st = storage(s, args)->0;
        assert(trace(s1) =~= trace(s));
        lemma_emit(s1, args, StatementView::StorageLive(l));
        lemma_run_one(st, args, Event::Live(l));
        assert(!st.seen.contains(l));
        let st2 = storage(s2, args)->0;
        assert(st2.live == live.insert(l));
        assert forall|name: Seq<char>| #[trigger] s2.names.contains_key(name) implies usable(
            st2,
            args,
            s2.names[name],
        ) by {
            assert(s.names.contains_key(name));
        }
    }
}

/// A fresh local for the value of an expression.
proof fn lemma_fresh(s: LowerView, args: int, live: Set<Local>, e: ExprView)
    requires
        in_order(s, args, live),
    ensures
        fresh(s, e) matches Ok((s1, l)) ==> {
            &&& in_order(s1, args, live.insert(l))
            &&& s1.names == s.names
            &&& s1.locals.len() == s.locals.len() + 1
            &&& l == s.locals.len()
            &&& !live.contains(l)
            &&& l > args
        },
{
    if let Ok(ty) = infer(s, e) {
        lemma_add_live(s, args, live, ty);
    }
}

/// Giving live storage back.
proof fn lemma_kill_storage(s: LowerView, args: int, locals: Seq<Local>)
    requires
        storage(s, args) is Some,
        locals.no_duplicates(),
        forall|k: int|
            0 <= k < locals.len() ==> storage(s, args)->0.live.contains(#[trigger] locals[k]),
    ensures
        storage(s.kill(locals), args) matches Some(st) && {
            &&& st.seen == storage(s, args)->0.seen
            &&& forall|l: Local| #[trigger]
                st.live.contains(l) <==> storage(s, args)->0.live.contains(l) && !locals.contains(l)
        },
    decreases locals.len(),
{
    if locals.len() > 0 {
        let shorter = locals.drop_last();
        let last = locals.last();
        assert forall|k: int| 0 <= k < shorter.len() implies storage(s, args)->0.live.contains(
            #[trigger] shorter[k],
        ) by {
            assert(shorter[k] == locals[k]);
        }
        lemma_kill_storage(s, args, shorter);
        let st = storage(s.kill(shorter), args)->0;
        assert(!shorter.contains(last));
        assert(last == locals[locals.len() - 1]);
        lemma_emit(s.kill(shorter), args, StatementView::StorageDead(last));
        lemma_run_one(st, args, Event::Dead(last));
        assert(locals =~= shorter.push(last));
        assert forall|l: Local| locals.contains(l) <==> shorter.contains(l) || l == last by {
            if shorter.contains(l) {
                let k = shorter.index_of(l);
                assert(locals[k] == l);
            }
            if locals.contains(l) && l != last {
                let k = locals.index_of(l);
                assert(shorter[k] == l);
            }
        }
    }
}

/// Giving back the storage of locals that no name stands for.
proof fn lemma_kill_in_order(s: LowerView, args: int, live: Set<Local>, locals: Seq<Local>)
    requires
        locals.no_duplicates(),
        forall|k: int| 0 <= k < locals.len() ==> !live.contains(#[trigger] locals[k]),
        in_order(s, args, live.union(locals.to_set())),
        forall|name: Seq<char>| #[trigger]
            s.names.contains_key(name) ==> s.names[name] <= args || live.contains(s.names[name]),
    ensures
        in_order(s.kill(locals), args, live),
{
    let all = live.union(locals.to_set());
    assert forall|k: int| 0 <= k < locals.len() implies all.contains(#[trigger] locals[k]) by {
        assert(locals.to_set().contains(locals[k]));
    }
    lemma_kill_storage(s, args, locals);
    lemma_kill(s, locals);
    let st = storage(s.kill(locals), args)->0;
    assert(st.live =~= live);
    assert forall|name: Seq<char>| #[trigger] s.kill(locals).names.contains_key(
        name,
    ) implies usable(st, args, s.kill(locals).names[name]) by {
        assert(s.names.contains_key(name));
    }
}

/// A call, of operands that may be read, to a destination that may be touched.
proof fn lemma_call(
    s: LowerView,
    args: int,
    live: Set<Local>,
    func: Callee,
    operands: Seq<Operand>,
    dest: Local,
)
    requires
        in_order(s, args, live),
        usable(storage(s, args)->0, args, dest),
        forall|k: int|
            0 <= k < operands.len() ==> match #[trigger] operands[k] {
                Operand::Copy(l) => usable(storage(s, args)->0, args, l),
                Operand::Move(l) => usable(storage(s, args)->0, args, l),
                Operand::ConstI32(_) => true,
            },
    ensures
        s.call(func, operands, dest) matches Ok(after) ==> in_order(after, args, live)
            && after.names == s.names && after.locals == s.locals,
{
    let st = storage(s, args)->0;
    if let Ok(after) = s.call(func, operands, dest) {
        lemma_finalize(s, args, after.blocks.last().terminator);
        lemma_run_operands(st, args, operands);
        lemma_run_touch(st, args, operands_events(operands), dest);
    }
}

/// Lowering an expression keeps a body under construction in order, with the same live locals:
/// each temporary has been given back.
proof fn lemma_expr_in_order(s: LowerView, args: int, live: Set<Local>, e: ExprView, dest: Local)
    requires
        in_order(s, args, live),
        usable(storage(s, args)->0, args, dest),
    ensures
        lower_expr(s, e, dest) matches Ok(after) ==> {
            &&& in_order(after, args, live)
            &&& after.names == s.names
            &&& after.locals.len() >= s.locals.len()
        },
    decreases e, 1int,
{
    match e {
        ExprView::IntLit(n) => lemma_assign(
            s,
            args,
            live,
            dest,
            RvalueView::Use(Operand::ConstI32(n as i32)),
        ),
        ExprView::Var(name) => if s.names.contains_key(name) {
            lemma_assign(s, args, live, dest, RvalueView::Use(Operand::Move(s.names[name])));
        },
        ExprView::StructLit { name: _, fields } => if let Ok((s1, temps)) = lower_fields(
            s,
            fields,
            0,
        ) {
            lemma_fields_in_order(s, args, live, fields, 0);
            let all = live.union(temps.to_set());
            let operands = temps.map_values(|l: Local| Operand::Move(l));
            let st1 = storage(s1, args)->0;
            assert forall|k: int| 0 <= k < operands.len() implies match #[trigger] operands[k] {
                Operand::Copy(l) => usable(st1, args, l),
                Operand::Move(l) => usable(st1, args, l),
                Operand::ConstI32(_) => true,
            } by {
                assert(temps.to_set().contains(temps[k]));
            }
            lemma_assign(s1, args, all, dest, RvalueView::Aggregate(operands));
            let s2 = s1.emit(StatementView::Assign(dest, RvalueView::Aggregate(operands)));
            assert forall|name: Seq<char>| #[trigger] s2.names.contains_key(
                name,
            ) implies s2.names[name] <= args || live.contains(s2.names[name]) by {
                assert(s.names.contains_key(name));
            }
            lemma_kill_in_order(s2, args, live, temps);
            lemma_kill(s2, temps);
        },
        ExprView::StaticCall { .. } => lemma_call(
            s,
            args,
            live,
            Callee::VecNew,
            Seq::empty(),
            dest,
        ),
        ExprView::MethodCall { receiver, method, args: actual } => if method == "push"@ {
            lemma_push_in_order(s, args, live, e, dest);
        } else if method == "len"@ {
            if let ExprView::Var(name) = *receiver {
                if s.names.contains_key(name) {
                    lemma_call(
                        s,
                        args,
                        live,
                        Callee::VecLen,
                        seq![Operand::Copy(s.names[name])],
                        dest,
                    );
                }
            }
        },
    }
}

proof fn lemma_push_in_order(s: LowerView, args: int, live: Set<Local>, e: ExprView, dest: Local)
    requires
        in_order(s, args, live),
        usable(storage(s, args)->0, args, dest),
        e matches ExprView::MethodCall { method, .. } && method == "push"@,
    ensures
        lower_expr(s, e, dest) matches Ok(after) ==> {
            &&& in_order(after, args, live)
            &&& after.names == s.names
            &&& after.locals.len() >= s.locals.len()
        },
    decreases e, 0int,
{
    if let ExprView::MethodCall { receiver, method, args: actual } = e {
        if let ExprView::Var(name) = *receiver {
            if s.names.contains_key(name) && s.add_local(MirTy::MutRefVec) is Ok {
                let (s0, borrow) = s.add_local(MirTy::MutRefVec)->Ok_0;
                let live1 = live.insert(borrow);
                lemma_add_live(s, args, live, MirTy::MutRefVec);
                let s1 = s0.emit(StatementView::StorageLive(borrow));
                lemma_assign(s1, args, live1, borrow, RvalueView::RefMut(s.names[name]));
                let s2 = s1.emit(StatementView::Assign(borrow, RvalueView::RefMut(s.names[name])));
                if actual.len() > 0 {
                    if let Ok((s3, arg)) = fresh(s2, actual[0]) {
                        lemma_fresh(s2, args, live1, actual[0]);
                        let live2 = live1.insert(arg);
                        lemma_expr_in_order(s3, args, live2, actual[0], arg);
                        if let Ok(s4) = lower_expr(s3, actual[0], arg) {
                            lemma_call(
                                s4,
                                args,
                                live2,
                                Callee::VecPush,
                                seq![Operand::Move(borrow), Operand::Move(arg)],
                                dest,
                            );
                            if let Ok(s5) = s4.call(
                                Callee::VecPush,
                                seq![Operand::Move(borrow), Operand::Move(arg)],
                                dest,
                            ) {
                                let temps = seq![arg, borrow];
                                assert(temps[0] == arg && temps[1] == borrow);
                                assert(live.union(temps.to_set()) =~= live2) by {
                                    assert(temps.contains(arg) && temps.contains(borrow));
                                }
                                assert forall|name: Seq<char>| #[trigger] s5.names.contains_key(
                                    name,
                                ) implies s5.names[name] <= args || live.contains(
                                    s5.names[name],
                                ) by {
                                    assert(s.names.contains_key(name));
                                }
                                lemma_kill_in_order(s5, args, live, temps);
                                lemma_kill(s5, temps);
                            }
                        }
                    }
                }
            }
        }
    }
}

/// Lowering the fields of a struct literal keeps a body under construction in order, with one live
/// local more for each field.
proof fn lemma_fields_in_order(
    s: LowerView,
    args: int,
    live: Set<Local>,
    fields: Seq<(Seq<char>, ExprView)>,
    i: int,
)
    requires
        in_order(s, args, live),
        0 <= i <= fields.len(),
    ensures
        lower_fields(s, fields, i) matches Ok((after, temps)) ==> {
            &&& in_order(after, args, live.union(temps.to_set()))
            &&& after.names == s.names
            &&& after.locals.len() >= s.locals.len()
            &&& temps.no_duplicates()
            &&& forall|k: int|
                0 <= k < temps.len() ==> s.locals.len() <= #[trigger] temps[k]
                    && !live.contains(temps[k])
        },
    decreases fields, fields.len() - i,
{
    if i < fields.len() {
        let e = fields[i].1;
        lemma_fresh(s, args, live, e);
        if let Ok((s1, local)) = fresh(s, e) {
            let live1 = live.insert(local);
            lemma_expr_in_order(s1, args, live1, e, local);
            if let Ok(s2) = lower_expr(s1, e, local) {
                lemma_fields_in_order(s2, args, live1, fields, i + 1);
                if let Ok((s3, rest)) = lower_fields(s2, fields, i + 1) {
                    let temps = seq![local] + rest;
                    assert forall|k: int| 0 <= k < temps.len() implies s.locals.len()
                        <= #[trigger] temps[k] && !live.contains(temps[k]) by {
                        if k > 0 {
                            assert(temps[k] == rest[k - 1]);
                        }
                    }
                    assert(temps.no_duplicates()) by {
                        assert forall|j: int, k: int|
                            0 <= j < temps.len() && 0 <= k < temps.len() && j
                                != k implies temps[j] != temps[k] by {
                            if j > 0 {
                                assert(temps[j] == rest[j - 1]);
                            }
                            if k > 0 {
                                assert(temps[k] == rest[k - 1]);
                            }
                        }
                    }
                    assert(live.union(temps.to_set()) =~= live1.union(rest.to_set())) by {
                        assert forall|l: Local| temps.contains(l) <==> l == local || rest.contains(
                            l,
                        ) by {
                            if rest.contains(l) {
                                let k = rest.index_of(l);
                                assert(temps[k + 1] == l);
                            }
                            if temps.contains(l) && l != local {
                                let k = temps.index_of(l);
                                assert(rest[k - 1] == l);
                            }
                            assert(temps[0] == local);
                        }
                    }
                }
            }
        }
    } else {
        assert(live.union(Seq::<Local>::empty().to_set()) =~= live);
    }
}

/// How many `let` statements there are.
pub open spec fn lets(stmts: Seq<StmtView>) -> nat
    decreases stmts.len(),
{
    if stmts.len() == 0 {
        0
    } else {
        lets(stmts.drop_last()) + if stmts.last() is Let {
            1nat
        } else {
            0
        }
    }
}

/// Lowering a statement keeps a body under construction in order. A `let` leaves one live local
/// more.
proof fn lemma_statement_in_order(s: LowerView, args: int, live: Set<Local>, stmt: StmtView)
    requires
        in_order(s, args, live),
    ensures
        lower_statement(s, stmt) matches Ok(after) ==> match stmt {
            StmtView::Let { .. } => {
                &&& in_order(after, args, live.insert(s.locals.len() as Local))
                &&& !live.contains(s.locals.len() as Local)
            },
            StmtView::ExprStmt(_) => in_order(after, args, live),
        },
{
    match stmt {
        StmtView::Let { name, expr } => {
            lemma_fresh(s, args, live, expr);
            if let Ok((s1, local)) = fresh(s, expr) {
                let s2 = s1.bind(name, local);
                let st = storage(s1, args)->0;
                assert(trace(s2) == trace(s1));
                assert forall|n: Seq<char>| #[trigger] s2.names.contains_key(n) implies usable(
                    st,
                    args,
                    s2.names[n],
                ) by {
                    if n != name {
                        assert(s1.names.contains_key(n));
                    }
                }
                lemma_expr_in_order(s2, args, live.insert(local), expr, local);
            }
        },
        StmtView::ExprStmt(expr) => {
            lemma_fresh(s, args, live, expr);
            if let Ok((s1, local)) = fresh(s, expr) {
                lemma_expr_in_order(s1, args, live.insert(local), expr, local);
                if let Ok(s2) = lower_expr(s1, expr, local) {
                    let temps = seq![local];
                    assert(temps[0] == local);
                    assert(live.union(temps.to_set()) =~= live.insert(local)) by {
                        assert(temps.contains(local));
                    }
                    assert forall|name: Seq<char>| #[trigger] s2.names.contains_key(
                        name,
                    ) implies s2.names[name] <= args || live.contains(s2.names[name]) by {
                        assert(s.names.contains_key(name));
                    }
                    lemma_kill_in_order(s2, args, live, temps);
                    assert(temps.drop_last() =~= Seq::empty());
                    assert(s2.kill(temps.drop_last()) == s2);
                }
            }
        },
    }
}

/// Lowering the statements of a body keeps it in order, with one live local for each `let`.
proof fn lemma_statements_in_order(s: LowerView, args: int, stmts: Seq<StmtView>) -> (live: Set<
    Local,
>)
    requires
        in_order(s, args, Set::empty()),
    ensures
        lower_statements(s, stmts) matches Ok(after) ==> {
            &&& in_order(after, args, live)
            &&& live.finite()
            &&& live.len() == lets(stmts)
        },
    decreases stmts.len(),
{
    if stmts.len() == 0 {
        Set::empty()
    } else {
        let before = lemma_statements_in_order(s, args, stmts.drop_last());
        if let Ok(s1) = lower_statements(s, stmts.drop_last()) {
            lemma_statement_in_order(s1, args, before, stmts.last());
            if stmts.last() is Let {
                before.insert(s1.locals.len() as Local)
            } else {
                before
            }
        } else {
            before
        }
    }
}

proof fn lemma_entry(params: Seq<Seq<char>>, n: int)
    requires
        0 <= n <= MAX_INDEX,
    ensures
        entry(params, n).locals.len() == n + 1,
        entry(params, n).locals[0] == MirTy::Output,
        forall|k: int|
            0 <= k < n ==> #[trigger] entry(params, n).locals[k + 1] == MirTy::Input(k as usize),
        entry(params, n).blocks == Seq::<BlockView>::empty(),
        entry(params, n).current == Seq::<StatementView>::empty(),
        forall|name: Seq<char>| #[trigger]
            entry(params, n).names.contains_key(name) ==> 0 < entry(params, n).names[name] <= n,
    decreases n,
{
    if n > 0 {
        lemma_entry(params, n - 1);
        let s = entry(params, n - 1);
        let after = entry(params, n);
        assert forall|k: int| 0 <= k < n implies #[trigger] after.locals[k + 1] == MirTy::Input(
            k as usize,
        ) by {
            if k < n - 1 {
                assert(after.locals[k + 1] == s.locals[k + 1]);
            }
        }
        assert forall|name: Seq<char>| #[trigger] after.names.contains_key(name) implies 0
            < after.names[name] <= n by {
            if name != params[n - 1] {
                assert(s.names.contains_key(name));
            }
        }
    }
}

proof fn lemma_entry_in_order(params: Seq<Seq<char>>, n: int)
    requires
        0 <= n <= MAX_INDEX,
    ensures
        in_order(entry(params, n), n, Set::empty()),
{
    lemma_entry(params, n);
    let s = entry(params, n);
    assert(trace(s) =~= Seq::empty());
    assert(storage(s, n) == Some(no_storage()));
}

/// In a lowered body the storage of each local beyond the return place and the arguments becomes
/// live exactly once, before the local is touched, and the local is not touched after its storage
/// has been given back. What is never given back is one local for each `let` statement.
pub proof fn law_storage(params: Seq<Seq<char>>, inputs: int, body: FnBodyView)
    requires
        inputs >= 0,
    ensures
        lower_body(params, inputs, body) matches Ok(b) ==> {
            let n = arg_locals(params, inputs);
            run(no_storage(), n, blocks_events(b.blocks)) matches Some(st) && {
                &&& forall|l: Local| #[trigger] st.seen.contains(l) <==> n < l < b.locals.len()
                &&& forall|l: Local| #[trigger] st.live.contains(l) ==> st.seen.contains(l)
                &&& st.live.finite()
                &&& st.live.len() == lets(body.stmts)
            }
        },
{
    let n = arg_locals(params, inputs);
    if lower_body(params, inputs, body) is Ok {
        lemma_entry_in_order(params, n);
        let live = lemma_statements_in_order(entry(params, n), n, body.stmts);
        let s = lower_statements(entry(params, n), body.stmts)->Ok_0;
        let s1 = match body.ret {
            Some(e) => {
                lemma_expr_in_order(s, n, live, e, 0);
                lower_expr(s, e, 0)->Ok_0
            },
            None => s,
        };
        let s2 = s1.finalize(TerminatorView::Return)->Ok_0;
        lemma_finalize(s1, n, TerminatorView::Return);
        lemma_run_one(storage(s1, n)->0, n, Event::Touch(0));
        assert(trace(s2) =~= blocks_events(s2.blocks));
    }
}

/// The local that an event concerns.
pub open spec fn local_of(event: Event) -> Local {
    match event {
        Event::Live(l) => l,
        Event::Dead(l) => l,
        Event::Touch(l) => l,
    }
}

/// What is live has become live, and neither the return place nor an argument has.
pub open spec fn consistent(st: Storage, args: int) -> bool {
    &&& forall|l: Local| #[trigger] st.live.contains(l) ==> st.seen.contains(l)
    &&& forall|l: Local| #[trigger] st.seen.contains(l) ==> l > args
}

proof fn lemma_run_consistent(st: Storage, args: int, events: Seq<Event>)
    requires
        consistent(st, args),
    ensures
        run(st, args, events) matches Some(end) ==> consistent(end, args),
    decreases events.len(),
{
    if events.len() > 0 {
        lemma_run_consistent(st, args, events.drop_last());
        if let Some(before) = run(st, args, events.drop_last()) {
            if let Some(end) = step(before, args, events.last()) {
                assert forall|l: Local| #[trigger] end.live.contains(l) implies end.seen.contains(
                    l,
                ) by {
                    if before.live.contains(l) {
                        assert(before.seen.contains(l));
                    }
                }
            }
        }
    }
}

proof fn lemma_run_locals(st: Storage, args: int, events: Seq<Event>, k: int)
    requires
        run(st, args, events) is Some,
        0 <= k < events.len(),
        consistent(st, args),
    ensures
        local_of(events[k]) <= args || run(st, args, events)->0.seen.contains(local_of(events[k])),
    decreases events.len(),
{
    let shorter = events.drop_last();
    let before = run(st, args, shorter)->0;
    lemma_run_consistent(st, args, shorter);
    if k < shorter.len() {
        lemma_run_locals(st, args, shorter, k);
        assert(shorter[k] == events[k]);
    } else {
        assert(events[k] == events.last());
        let l = local_of(events[k]);
        if before.live.contains(l) {
            assert(before.seen.contains(l));
        }
    }
}

/// Storage that has been given back stays so.
proof fn lemma_dead_stays(st: Storage, args: int, events: Seq<Event>, l: Local)
    requires
        st.seen.contains(l),
        !st.live.contains(l),
        l > args,
    ensures
        run(st, args, events) matches Some(end) ==> {
            &&& end.seen.contains(l)
            &&& !end.live.contains(l)
            &&& !events.contains(Event::Touch(l))
        },
    decreases events.len(),
{
    if events.len() > 0 {
        let shorter = events.drop_last();
        lemma_dead_stays(st, args, shorter, l);
        if run(st, args, events) is Some && events.contains(Event::Touch(l)) {
            let k = events.index_of(Event::Touch(l));
            if k < shorter.len() {
                assert(shorter[k] == Event::Touch(l));
            }
        }
    }
}

/// After storage has been given back it is not live.
proof fn lemma_dead_after(st: Storage, args: int, events: Seq<Event>, l: Local)
    requires
        consistent(st, args),
        events.contains(Event::Dead(l)),
    ensures
        run(st, args, events) matches Some(end) ==> {
            &&& end.seen.contains(l)
            &&& !end.live.contains(l)
            &&& l > args
        },
    decreases events.len(),
{
    let shorter = events.drop_last();
    if let Some(before) = run(st, args, shorter) {
        lemma_run_consistent(st, args, shorter);
        if events.last() == Event::Dead(l) {
            if before.live.contains(l) {
                assert(before.seen.contains(l));
            }
        } else {
            let k = events.index_of(Event::Dead(l));
            assert(shorter[k] == Event::Dead(l));
            lemma_dead_after(st, args, shorter, l);
        }
    }
}

/// What the first blocks do may happen if what all blocks do may.
proof fn lemma_run_blocks(args: int, blocks: Seq<BlockView>, i: int)
    requires
        run(no_storage(), args, blocks_events(blocks)) is Some,
        0 <= i <= blocks.len(),
    ensures
        run(no_storage(), args, blocks_events(blocks.take(i))) is Some,
    decreases blocks.len() - i,
{
    if i == blocks.len() {
        assert(blocks.take(i) =~= blocks);
    } else {
        lemma_run_blocks(args, blocks, i + 1);
        let longer = blocks.take(i + 1);
        assert(longer.drop_last() =~= blocks.take(i));
        let stmts = statements_events(longer.last().statements);
        let leave = terminator_events(longer.last().terminator);
        assert(blocks_events(longer) =~= blocks_events(blocks.take(i)) + (stmts + leave));
        lemma_run_concat(no_storage(), args, blocks_events(blocks.take(i)), stmts + leave);
    }
}

proof fn lemma_statements_event(stmts: Seq<StatementView>, j: int, event: Event)
    requires
        0 <= j < stmts.len(),
        statement_events(stmts[j]).contains(event),
    ensures
        statements_events(stmts).contains(event),
    decreases stmts.len(),
{
    let shorter = statements_events(stmts.drop_last());
    let last = statement_events(stmts.last());
    if j < stmts.len() - 1 {
        lemma_statements_event(stmts.drop_last(), j, event);
        let k = shorter.index_of(event);
        assert((shorter + last)[k] == event);
    } else {
        let k = last.index_of(event);
        assert((shorter + last)[shorter.len() + k] == event);
    }
}

proof fn lemma_operands_event(operands: Seq<Operand>, j: int, event: Event)
    requires
        0 <= j < operands.len(),
        operand_events(operands[j]).contains(event),
    ensures
        operands_events(operands).contains(event),
    decreases operands.len(),
{
    let shorter = operands_events(operands.drop_last());
    let last = operand_events(operands.last());
    if j < operands.len() - 1 {
        lemma_operands_event(operands.drop_last(), j, event);
        let k = shorter.index_of(event);
        assert((shorter + last)[k] == event);
    } else {
        let k = last.index_of(event);
        assert((shorter + last)[shorter.len() + k] == event);
    }
}

/// Whether a terminator is a call that reads a local.
pub open spec fn call_reads(terminator: TerminatorView, l: Local) -> bool {
    match terminator {
        TerminatorView::Return => false,
        TerminatorView::Call { args, .. } => args.contains(Operand::Move(l)) || args.contains(
            Operand::Copy(l),
        ),
    }
}

/// The storage of a local that a call reads is not given back in the block that the call ends.
/// That is left to a later block.
pub proof fn law_arguments_outlive_calls(
    params: Seq<Seq<char>>,
    inputs: int,
    body: FnBodyView,
    i: int,
    l: Local,
)
    requires
        inputs >= 0,
    ensures
        lower_body(params, inputs, body) matches Ok(b) ==> (0 <= i < b.blocks.len() && call_reads(
            b.blocks[i].terminator,
            l,
        ) ==> !b.blocks[i].statements.contains(StatementView::StorageDead(l))),
{
    law_storage(params, inputs, body);
    let n = arg_locals(params, inputs);
    if let Ok(b) = lower_body(params, inputs, body) {
        let dead = StatementView::StorageDead(l);
        if 0 <= i < b.blocks.len() && call_reads(b.blocks[i].terminator, l)
            && b.blocks[i].statements.contains(dead) {
            let block = b.blocks[i];
            let longer = b.blocks.take(i + 1);
            assert(longer.drop_last() =~= b.blocks.take(i));
            assert(longer.last() == block);
            let stmts = statements_events(block.statements);
            let leave = terminator_events(block.terminator);
            let before = blocks_events(b.blocks.take(i));
            lemma_run_blocks(n, b.blocks, i + 1);
            lemma_run_concat(no_storage(), n, before + stmts, leave);
            lemma_run_concat(no_storage(), n, before, stmts);
            lemma_run_consistent(no_storage(), n, before);
            let st = run(no_storage(), n, before)->0;
            let j = block.statements.index_of(dead);
            assert(statement_events(block.statements[j])[0] == Event::Dead(l));
            lemma_statements_event(block.statements, j, Event::Dead(l));
            lemma_dead_after(st, n, stmts, l);
            lemma_dead_stays(run(st, n, stmts)->0, n, leave, l);
            let args = block.terminator->args;
            let k = if args.contains(Operand::Move(l)) {
                args.index_of(Operand::Move(l))
            } else {
                args.index_of(Operand::Copy(l))
            };
            assert(operand_events(args[k])[0] == Event::Touch(l));
            lemma_operands_event(args, k, Event::Touch(l));
            let reads = operands_events(args);
            assert(leave[reads.index_of(Event::Touch(l))] == Event::Touch(l));
        }
    }
}

/// A lowered body speaks only of locals that it has.
pub proof fn law_locals_exist(params: Seq<Seq<char>>, inputs: int, body: FnBodyView, k: int)
    requires
        inputs >= 0,
    ensures
        lower_body(params, inputs, body) matches Ok(b) ==> (0 <= k < blocks_events(b.blocks).len()
            ==> local_of(blocks_events(b.blocks)[k]) < b.locals.len()),
{
    law_storage(params, inputs, body);
    law_locals_typed(params, inputs, body);
    if let Ok(b) = lower_body(params, inputs, body) {
        if 0 <= k < blocks_events(b.blocks).len() {
            lemma_run_locals(no_storage(), arg_locals(params, inputs), blocks_events(b.blocks), k);
        }
    }
}

/// Lowering adds locals and leaves those that there were.
pub open spec fn extends(s: LowerView, after: LowerView) -> bool {
    &&& s.locals.len() <= after.locals.len()
    &&& forall|k: int| 0 <= k < s.locals.len() ==> #[trigger] after.locals[k] == s.locals[k]
}

/// Lowering an expression leaves the locals that there were.
pub proof fn lemma_expr_extends(s: LowerView, e: ExprView, dest: Local)
    ensures
        lower_expr(s, e, dest) matches Ok(after) ==> extends(s, after),
    decreases e, 0int,
{
    match e {
        ExprView::StructLit { name: _, fields } => if let Ok((s1, temps)) = lower_fields(
            s,
            fields,
            0,
        ) {
            lemma_fields_extend(s, fields, 0);
            lemma_kill(
                s1.emit(
                    StatementView::Assign(
                        dest,
                        RvalueView::Aggregate(temps.map_values(|l: Local| Operand::Move(l))),
                    ),
                ),
                temps,
            );
        },
        ExprView::MethodCall { receiver, method, args } => if args.len() > 0 {
            if let ExprView::Var(name) = *receiver {
                if s.add_local(MirTy::MutRefVec) is Ok {
                    let (s1, borrow) = s.add_local(MirTy::MutRefVec)->Ok_0;
                    let s2 = s1.emit(StatementView::StorageLive(borrow)).emit(
                        StatementView::Assign(borrow, RvalueView::RefMut(s.names[name])),
                    );
                    if let Ok((s3, arg)) = fresh(s2, args[0]) {
                        lemma_expr_extends(s3, args[0], arg);
                        if let Ok(s4) = lower_expr(s3, args[0], arg) {
                            if let Ok(s5) = s4.call(
                                Callee::VecPush,
                                seq![Operand::Move(borrow), Operand::Move(arg)],
                                dest,
                            ) {
                                lemma_kill(s5, seq![arg, borrow]);
                            }
                        }
                    }
                }
            }
        },
        _ => {},
    }
}

proof fn lemma_fields_extend(s: LowerView, fields: Seq<(Seq<char>, ExprView)>, i: int)
    requires
        0 <= i <= fields.len(),
    ensures
        lower_fields(s, fields, i) matches Ok((after, _)) ==> extends(s, after),
    decreases fields, fields.len() - i,
{
    if i < fields.len() {
        if let Ok((s1, local)) = fresh(s, fields[i].1) {
            lemma_expr_extends(s1, fields[i].1, local);
            if let Ok(s2) = lower_expr(s1, fields[i].1, local) {
                lemma_fields_extend(s2, fields, i + 1);
            }
        }
    }
}

proof fn lemma_statements_extend(s: LowerView, stmts: Seq<StmtView>)
    ensures
        lower_statements(s, stmts) matches Ok(after) ==> extends(s, after),
    decreases stmts.len(),
{
    if stmts.len() > 0 {
        lemma_statements_extend(s, stmts.drop_last());
        if let Ok(s1) = lower_statements(s, stmts.drop_last()) {
            match stmts.last() {
                StmtView::Let { name, expr } => if let Ok((s2, local)) = fresh(s1, expr) {
                    lemma_expr_extends(s2.bind(name, local), expr, local);
                },
                StmtView::ExprStmt(expr) => if let Ok((s2, local)) = fresh(s1, expr) {
                    lemma_expr_extends(s2, expr, local);
                },
            }
        }
    }
}

/// There are as many locals for arguments as there are parameters that have both a name and a type:
/// no more than names, no more than types, and as many as there are of one of them.
pub proof fn law_named_arguments(params: Seq<Seq<char>>, inputs: int)
    requires
        inputs >= 0,
    ensures
        0 <= arg_locals(params, inputs) <= params.len(),
        arg_locals(params, inputs) <= inputs,
        arg_locals(params, inputs) == params.len() || arg_locals(params, inputs) == inputs,
{
}

/// The first local of a lowered body has the return type of the signature, and the locals behind
/// it the types of the parameters, in their order. The body takes as many arguments as the
/// signature has parameters, and where each parameter has a name there is a local for each.
pub proof fn law_locals_typed(params: Seq<Seq<char>>, inputs: int, body: FnBodyView)
    requires
        inputs >= 0,
    ensures
        lower_body(params, inputs, body) matches Ok(b) ==> {
            let n = arg_locals(params, inputs);
            &&& n < b.locals.len()
            &&& b.locals[0] == MirTy::Output
            &&& forall|k: int| 0 <= k < n ==> #[trigger] b.locals[k + 1] == MirTy::Input(k as usize)
            &&& b.arg_count == inputs
            &&& params.len() >= inputs ==> n == b.arg_count
        },
{
    let n = arg_locals(params, inputs);
    if let Ok(b) = lower_body(params, inputs, body) {
        lemma_entry(params, n);
        let s0 = entry(params, n);
        lemma_statements_extend(s0, body.stmts);
        let s = lower_statements(s0, body.stmts)->Ok_0;
        if let Some(e) = body.ret {
            lemma_expr_extends(s, e, 0);
        }
        assert forall|k: int| 0 <= k < n implies #[trigger] b.locals[k + 1] == MirTy::Input(
            k as usize,
        ) by {
            assert(s0.locals[k + 1] == MirTy::Input(k as usize));
            assert(s.locals[k + 1] == s0.locals[k + 1]);
        }
        assert(s.locals[0] == s0.locals[0]);
    }
}

/// The type of what a callee returns.
pub open spec fn result_ty(func: Callee) -> MirTy {
    match func {
        Callee::VecNew => MirTy::VecOfElem,
        Callee::VecPush => MirTy::Unit,
        Callee::VecLen => MirTy::Usize,
        Callee::Foreign(_) => MirTy::Unit,
    }
}

/// Whether block `i` ends in a call that goes on in the next block and whose destination is the
/// return place or a local of the type of what the callee returns.
pub open spec fn calls_on(block: BlockView, i: int, locals: Seq<MirTy>) -> bool {
    block.terminator matches TerminatorView::Call { func, destination, target, .. } && {
        &&& target == i + 1
        &&& destination < locals.len()
        &&& destination == 0 || locals[destination as int] == result_ty(func)
    }
}

/// Whether each finished block of a body under construction ends in such a call.
pub open spec fn in_row(s: LowerView) -> bool {
    &&& s.locals.len() > 0
    &&& forall|i: int| 0 <= i < s.blocks.len() ==> calls_on(#[trigger] s.blocks[i], i, s.locals)
}

/// The type of what an expression that is lowered to a call delivers.
pub open spec fn call_ty(e: ExprView) -> Option<MirTy> {
    match e {
        ExprView::StaticCall { .. } => Some(MirTy::VecOfElem),
        ExprView::MethodCall { method, .. } => if method == "push"@ {
            Some(MirTy::Unit)
        } else {
            Some(MirTy::Usize)
        },
        _ => None,
    }
}

/// Whether a local can take what an expression delivers.
pub open spec fn takes(s: LowerView, e: ExprView, dest: Local) -> bool {
    &&& dest < s.locals.len()
    &&& dest == 0 || (call_ty(e) matches Some(ty) ==> s.locals[dest as int] == ty)
}

proof fn lemma_call_in_row(s: LowerView, func: Callee, operands: Seq<Operand>, dest: Local)
    requires
        in_row(s),
        dest < s.locals.len(),
        dest == 0 || s.locals[dest as int] == result_ty(func),
    ensures
        s.call(func, operands, dest) matches Ok(after) ==> in_row(after),
{
    if let Ok(after) = s.call(func, operands, dest) {
        assert forall|i: int| 0 <= i < after.blocks.len() implies calls_on(
            #[trigger] after.blocks[i],
            i,
            after.locals,
        ) by {
            if i < s.blocks.len() {
                assert(after.blocks[i] == s.blocks[i]);
            }
        }
    }
}

proof fn lemma_grow_in_row(s: LowerView, after: LowerView)
    requires
        in_row(s),
        extends(s, after),
        after.blocks == s.blocks,
    ensures
        in_row(after),
{
    assert forall|i: int| 0 <= i < after.blocks.len() implies calls_on(
        #[trigger] after.blocks[i],
        i,
        after.locals,
    ) by {
        assert(calls_on(s.blocks[i], i, s.locals));
    }
}

proof fn lemma_fresh_in_row(s: LowerView, e: ExprView)
    requires
        in_row(s),
    ensures
        fresh(s, e) matches Ok((s1, local)) ==> in_row(s1) && takes(s1, e, local) && extends(s, s1),
{
    if let Ok((s1, local)) = fresh(s, e) {
        lemma_grow_in_row(s, s1);
    }
}

/// Lowering an expression keeps the blocks in a row.
proof fn lemma_expr_in_row(s: LowerView, e: ExprView, dest: Local)
    requires
        in_row(s),
        takes(s, e, dest),
    ensures
        lower_expr(s, e, dest) matches Ok(after) ==> in_row(after),
    decreases e, 0int,
{
    match e {
        ExprView::StructLit { name: _, fields } => if let Ok((s1, temps)) = lower_fields(
            s,
            fields,
            0,
        ) {
            lemma_fields_in_row(s, fields, 0);
            let s2 = s1.emit(
                StatementView::Assign(
                    dest,
                    RvalueView::Aggregate(temps.map_values(|l: Local| Operand::Move(l))),
                ),
            );
            lemma_kill(s2, temps);
            lemma_grow_in_row(s1, s2.kill(temps));
        },
        ExprView::StaticCall { .. } => lemma_call_in_row(s, Callee::VecNew, Seq::empty(), dest),
        ExprView::MethodCall { receiver, method, args } => if let ExprView::Var(name) = *receiver {
            if method == "push"@ {
                if args.len() > 0 && s.add_local(MirTy::MutRefVec) is Ok {
                    let (s1, borrow) = s.add_local(MirTy::MutRefVec)->Ok_0;
                    let s2 = s1.emit(StatementView::StorageLive(borrow)).emit(
                        StatementView::Assign(borrow, RvalueView::RefMut(s.names[name])),
                    );
                    lemma_grow_in_row(s, s2);
                    lemma_fresh_in_row(s2, args[0]);
                    if let Ok((s3, arg)) = fresh(s2, args[0]) {
                        lemma_expr_in_row(s3, args[0], arg);
                        lemma_expr_extends(s3, args[0], arg);
                        if let Ok(s4) = lower_expr(s3, args[0], arg) {
                            let operands = seq![Operand::Move(borrow), Operand::Move(arg)];
                            assert(s4.locals[dest as int] == s.locals[dest as int]) by {
                                assert(s3.locals[dest as int] == s.locals[dest as int]);
                            }
                            lemma_call_in_row(s4, Callee::VecPush, operands, dest);
                            if let Ok(s5) = s4.call(Callee::VecPush, operands, dest) {
                                lemma_kill(s5, seq![arg, borrow]);
                                lemma_grow_in_row(s5, s5.kill(seq![arg, borrow]));
                            }
                        }
                    }
                }
            } else {
                lemma_call_in_row(s, Callee::VecLen, seq![Operand::Copy(s.names[name])], dest);
            }
        },
        ExprView::IntLit(_) => {},
        ExprView::Var(_) => {},
    }
}

proof fn lemma_fields_in_row(s: LowerView, fields: Seq<(Seq<char>, ExprView)>, i: int)
    requires
        in_row(s),
        0 <= i <= fields.len(),
    ensures
        lower_fields(s, fields, i) matches Ok((after, _)) ==> in_row(after),
    decreases fields, fields.len() - i,
{
    if i < fields.len() {
        lemma_fresh_in_row(s, fields[i].1);
        if let Ok((s1, local)) = fresh(s, fields[i].1) {
            lemma_expr_in_row(s1, fields[i].1, local);
            if let Ok(s2) = lower_expr(s1, fields[i].1, local) {
                lemma_fields_in_row(s2, fields, i + 1);
            }
        }
    }
}

proof fn lemma_statements_in_row(s: LowerView, stmts: Seq<StmtView>)
    requires
        in_row(s),
    ensures
        lower_statements(s, stmts) matches Ok(after) ==> in_row(after),
    decreases stmts.len(),
{
    if stmts.len() > 0 {
        lemma_statements_in_row(s, stmts.drop_last());
        if let Ok(s1) = lower_statements(s, stmts.drop_last()) {
            match stmts.last() {
                StmtView::Let { name, expr } => {
                    lemma_fresh_in_row(s1, expr);
                    if let Ok((s2, local)) = fresh(s1, expr) {
                        lemma_grow_in_row(s2, s2.bind(name, local));
                        lemma_expr_in_row(s2.bind(name, local), expr, local);
                    }
                },
                StmtView::ExprStmt(expr) => {
                    lemma_fresh_in_row(s1, expr);
                    if let Ok((s2, local)) = fresh(s1, expr) {
                        lemma_expr_in_row(s2, expr, local);
                        if let Ok(s3) = lower_expr(s2, expr, local) {
                            lemma_grow_in_row(s3, s3.emit(StatementView::StorageDead(local)));
                        }
                    }
                },
            }
        }
    }
}

/// The blocks of a lowered body stand in the order in which control passes them: each but the last
/// ends in a call that goes on in the next one, and the last one returns. A call delivers to the
/// return place or to a local of the type of what it returns.
pub proof fn law_blocks_in_row(params: Seq<Seq<char>>, inputs: int, body: FnBodyView)
    requires
        inputs >= 0,
    ensures
        lower_body(params, inputs, body) matches Ok(b) ==> {
            &&& b.blocks.len() > 0
            &&& b.blocks.last().terminator == TerminatorView::Return
            &&& forall|i: int|
                0 <= i < b.blocks.len() - 1 ==> calls_on(#[trigger] b.blocks[i], i, b.locals)
        },
{
    let n = arg_locals(params, inputs);
    if let Ok(b) = lower_body(params, inputs, body) {
        lemma_entry(params, n);
        let s0 = entry(params, n);
        lemma_statements_in_row(s0, body.stmts);
        lemma_statements_extend(s0, body.stmts);
        let s = lower_statements(s0, body.stmts)->Ok_0;
        let s1 = match body.ret {
            Some(e) => {
                lemma_expr_in_row(s, e, 0);
                lower_expr(s, e, 0)->Ok_0
            },
            None => s,
        };
        assert(b.blocks.drop_last() =~= s1.blocks);
        assert forall|i: int| 0 <= i < b.blocks.len() - 1 implies calls_on(
            #[trigger] b.blocks[i],
            i,
            b.locals,
        ) by {
            assert(b.blocks[i] == s1.blocks[i]);
        }
    }
}

} // verus!
