//! What a control-flow graph does when it runs.
//!
//! A vector is the row of its elements, and an argument that lends a value is the value it lends.
//! A move reads a local as a copy does.
use vstd::prelude::*;

use crate::mir::{
    BlockView, BodyView, Callee, Local, Operand, RvalueView, StatementView, TerminatorView,
};

verus! {

/// What a local can hold.
pub enum Value {
    /// No value has been put there.
    Undefined,
    /// `()`
    Unit,
    /// An `i32`.
    Int(i32),
    /// A `usize`.
    Count(nat),
    /// A value of the Toylang struct, by its fields.
    Record(Seq<Value>),
    /// A vector, by its elements.
    Vector(Seq<Value>),
    /// A mutable borrow of a local.
    Borrow(Local),
}

/// The length of a vector.
pub open spec fn length(v: Value) -> Value {
    match v {
        Value::Vector(items) => Value::Count(items.len()),
        _ => Value::Undefined,
    }
}

/// A vector with one element more at its end.
pub open spec fn appended(v: Value, item: Value) -> Value {
    match v {
        Value::Vector(items) => Value::Vector(items.push(item)),
        _ => Value::Undefined,
    }
}

/// What the locals hold. A local without storage is not there.
pub type Store = Map<Local, Value>;

/// What a local holds.
pub open spec fn content(st: Store, l: Local) -> Value {
    if st.contains_key(l) {
        st[l]
    } else {
        Value::Undefined
    }
}

/// The value of an operand.
pub open spec fn operand_value(st: Store, operand: Operand) -> Value {
    match operand {
        Operand::Copy(l) => content(st, l),
        Operand::Move(l) => content(st, l),
        Operand::ConstI32(n) => Value::Int(n),
    }
}

/// The value of the right-hand side of an assignment.
pub open spec fn rvalue_value(st: Store, rvalue: RvalueView) -> Value {
    match rvalue {
        RvalueView::Use(operand) => operand_value(st, operand),
        RvalueView::RefMut(l) => Value::Borrow(l),
        RvalueView::Aggregate(operands) => Value::Record(
            operands.map_values(|operand: Operand| operand_value(st, operand)),
        ),
    }
}

/// The locals behind a statement.
pub open spec fn after_statement(st: Store, stmt: StatementView) -> Store {
    match stmt {
        StatementView::StorageLive(l) => st.insert(l, Value::Undefined),
        StatementView::StorageDead(l) => st.remove(l),
        StatementView::Assign(dest, rvalue) => st.insert(dest, rvalue_value(st, rvalue)),
    }
}

/// The locals behind a row of statements.
pub open spec fn after_statements(st: Store, stmts: Seq<StatementView>) -> Store
    decreases stmts.len(),
{
    if stmts.len() == 0 {
        st
    } else {
        after_statement(after_statements(st, stmts.drop_last()), stmts.last())
    }
}

/// The locals behind a call. `Vec::push` changes the vector that its first argument borrows; a
/// foreign function changes no local.
pub open spec fn after_call(st: Store, func: Callee, args: Seq<Operand>, dest: Local) -> Store {
    match func {
        Callee::VecNew => st.insert(dest, Value::Vector(Seq::empty())),
        Callee::VecPush => match operand_value(st, args[0]) {
            Value::Borrow(l) => st.insert(
                l,
                appended(content(st, l), operand_value(st, args[1])),
            ).insert(dest, Value::Unit),
            _ => st.insert(dest, Value::Undefined),
        },
        Callee::VecLen => st.insert(dest, length(operand_value(st, args[0]))),
        Callee::Foreign(_) => st.insert(dest, Value::Unit),
    }
}

/// The locals at the return, if control enters block `i`. Control that leaves the row of blocks or
/// goes back in it reaches no return.
pub open spec fn finish_from(blocks: Seq<BlockView>, i: int, st: Store) -> Option<Store>
    decreases blocks.len() - i,
{
    if 0 <= i < blocks.len() {
        let end = after_statements(st, blocks[i].statements);
        match blocks[i].terminator {
            TerminatorView::Return => Some(end),
            TerminatorView::Call { func, args, destination, target } => if i < target < blocks.len() {
                finish_from(blocks, target, after_call(end, func, args, destination))
            } else {
                None
            },
        }
    } else {
        None
    }
}

/// The locals at the start: the arguments, behind the place of the return value.
pub open spec fn arguments(args: Seq<Value>) -> Store {
    Map::new(|l: Local| 1 <= l <= args.len(), |l: Local| args[l - 1])
}

/// The locals at the return of a body that runs with the arguments `args`.
pub open spec fn finish(b: BodyView, args: Seq<Value>) -> Option<Store> {
    finish_from(b.blocks, 0, arguments(args))
}

/// The value that a body returns for the arguments `args`.
pub open spec fn returned(b: BodyView, args: Seq<Value>) -> Option<Value> {
    match finish(b, args) {
        Some(st) => Some(content(st, 0)),
        None => None,
    }
}

/// The locals behind a row of blocks, each of which goes on in the next one.
pub open spec fn after_blocks(st: Store, blocks: Seq<BlockView>) -> Store
    decreases blocks.len(),
{
    if blocks.len() == 0 {
        st
    } else {
        let end = after_statements(
            after_blocks(st, blocks.drop_last()),
            blocks.last().statements,
        );
        match blocks.last().terminator {
            TerminatorView::Return => end,
            TerminatorView::Call { func, args, destination, .. } => after_call(
                end,
                func,
                args,
                destination,
            ),
        }
    }
}

/// A body whose blocks each go on in the next one, and whose last one returns, passes its blocks
/// in their order.
pub proof fn lemma_finish_in_row(blocks: Seq<BlockView>, i: int, st: Store)
    requires
        0 <= i < blocks.len(),
        blocks.last().terminator == TerminatorView::Return,
        forall|k: int|
            0 <= k < blocks.len() - 1 ==> (
            (#[trigger] blocks[k]).terminator matches TerminatorView::Call { target, .. } && target
                == k + 1),
    ensures
        finish_from(blocks, i, after_blocks(st, blocks.take(i))) == Some(after_blocks(st, blocks)),
    decreases blocks.len() - i,
{
    let longer = blocks.take(i + 1);
    assert(longer.drop_last() =~= blocks.take(i));
    assert(longer.last() == blocks[i]);
    if i == blocks.len() - 1 {
        assert(longer =~= blocks);
    } else {
        assert(blocks[i].terminator is Call);
        lemma_finish_in_row(blocks, i + 1, st);
    }
}

} // verus!
