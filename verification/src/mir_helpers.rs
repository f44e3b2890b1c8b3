//! Function bodies that are not lowered from a Toylang function.
use vstd::prelude::*;

use crate::execution::{
    after_blocks, after_call, after_statement, after_statements, appended, arguments, content,
    finish, finish_from, lemma_finish_in_row, length, operand_value, returned, Store, Value,
};
use crate::mir::{
    BasicBlockData, BlockView, Body, BodySource, BodyView, Callee, Local, MirTy, Operand, Rvalue,
    RvalueView, Statement, StatementView, Terminator, TerminatorView, MAX_INDEX,
};
use crate::text::{concat2, find, find_name, views};
use crate::toylang::ast::{ExprView, FnBodyView};
use crate::toylang::lower::{entry, lower_body};
use crate::toylang::validity::{
    blocks_events, calls_on, lemma_run_concat, no_storage, operands_events, run, statements_events,
    terminator_events, Event, Storage,
};

verus! {

/// The types of the locals of a function with `inputs` parameters that has no others: the return
/// place and the arguments.
pub open spec fn signature_locals(output: MirTy, inputs: int) -> Seq<MirTy> {
    Seq::new(
        (inputs + 1) as nat,
        |i: int|
            if i == 0 {
                output
            } else {
                MirTy::Input((i - 1) as usize)
            },
    )
}

/// The body of a function with `inputs` parameters that returns a constant:
///
/// ```text
/// bb0: _0 = const VALUE_i32;
///      return;
/// ```
pub open spec fn const_i32_body(inputs: int, value: i32) -> BodyView {
    BodyView {
        source: BodySource::Item,
        blocks: seq![
            BlockView {
                statements: seq![
                    StatementView::Assign(0, RvalueView::Use(Operand::ConstI32(value))),
                ],
                terminator: TerminatorView::Return,
            },
        ],
        locals: signature_locals(MirTy::I32, inputs),
        arg_count: inputs,
        lists_set: false,
    }
}

/// Builds the body of a function with `inputs` parameters that returns a constant.
pub fn build_const_i32_body(inputs: usize, value: i32) -> (r: Body)
    requires
        inputs <= MAX_INDEX,
    ensures
        r@ == const_i32_body(inputs as int, value),
{
    let mut locals: Vec<MirTy> = vec![MirTy::I32];
    let mut i: usize = 0;
    while i < inputs
        invariant
            i <= inputs <= MAX_INDEX,
            locals@ =~= signature_locals(MirTy::I32, i as int),
        decreases inputs - i,
    {
        locals.push(MirTy::Input(i));
        i = i + 1;
    }
    let r = Body {
        source: BodySource::Item,
        blocks: vec![
            BasicBlockData {
                statements: vec![Statement::Assign(0, Rvalue::Use(Operand::ConstI32(value)))],
                terminator: Terminator::Return,
            },
        ],
        locals,
        arg_count: inputs,
        lists_set: false,
    };
    assert(r@ =~~= const_i32_body(inputs as int, value));
    r
}

/// The name of the foreign function that drops the values of a struct.
pub open spec fn drop_name(struct_name: Seq<char>) -> Seq<char> {
    "__toylang_drop_"@ + struct_name
}

/// The name of the foreign function that drops the values of a struct.
pub fn drop_fn_name(struct_name: &str) -> (r: String)
    ensures
        r@ == drop_name(struct_name@),
{
    concat2("__toylang_drop_", struct_name)
}

/// Where the first of the foreign items with a name stands.
pub fn find_extern_fn(foreign: &Vec<String>, name: &str) -> (r: Option<usize>)
    ensures
        r == find(views(foreign@), name@),
{
    find_name(foreign, name)
}

/// The drop glue of a struct. It hands the pointer on to the foreign function that drops the
/// struct's values, and does nothing where there is no such function:
///
/// ```text
/// bb0: _0 = __toylang_drop_T(copy _1) -> bb1;
/// bb1: return;
/// ```
pub open spec fn drop_call_body(drop_fn: Option<usize>) -> BodyView {
    let end = BlockView { statements: Seq::empty(), terminator: TerminatorView::Return };
    BodyView {
        source: BodySource::DropGlue,
        blocks: match drop_fn {
            Some(i) => seq![
                BlockView {
                    statements: Seq::empty(),
                    terminator: TerminatorView::Call {
                        func: Callee::Foreign(i),
                        args: seq![Operand::Copy(1)],
                        destination: 0,
                        target: 1,
                    },
                },
                end,
            ],
            None => seq![end],
        },
        locals: seq![MirTy::Unit, MirTy::MutPtrElem],
        arg_count: 1,
        lists_set: true,
    }
}

/// Builds the drop glue of a struct. `foreign` holds the names of the foreign items; the first one
/// that bears the name of the struct's drop function is called.
pub fn build_drop_call_body(struct_name: &str, foreign: &Vec<String>) -> (r: Body)
    ensures
        r@ == drop_call_body(find(views(foreign@), drop_name(struct_name@))),
{
    let name: String = drop_fn_name(struct_name);
    let drop_fn: Option<usize> = find_extern_fn(foreign, name.as_str());
    let mut blocks: Vec<BasicBlockData> = Vec::new();
    if let Some(i) = drop_fn {
        blocks.push(
            BasicBlockData {
                statements: Vec::new(),
                terminator: Terminator::Call {
                    func: Callee::Foreign(i),
                    args: vec![Operand::Copy(1)],
                    destination: 0,
                    target: 1,
                },
            },
        );
    }
    blocks.push(BasicBlockData { statements: Vec::new(), terminator: Terminator::Return });
    let r = Body {
        source: BodySource::DropGlue,
        blocks,
        locals: vec![MirTy::Unit, MirTy::MutPtrElem],
        arg_count: 1,
        lists_set: true,
    };
    assert(r@ =~~= drop_call_body(drop_fn));
    r
}

/// A local assigned a value of the struct with two constant fields, once it has storage.
pub open spec fn point_statements(point: Local, x: i32, y: i32) -> Seq<StatementView> {
    seq![
        StatementView::StorageLive(point),
        StatementView::Assign(
            point,
            RvalueView::Aggregate(seq![Operand::ConstI32(x), Operand::ConstI32(y)]),
        ),
    ]
}

/// A local assigned a mutable borrow of the return place, once it has storage.
pub open spec fn borrow_statements(borrow: Local) -> Seq<StatementView> {
    seq![
        StatementView::StorageLive(borrow),
        StatementView::Assign(borrow, RvalueView::RefMut(0)),
    ]
}

/// A call of `Vec::push` through a borrow.
pub open spec fn push_call(borrow: Local, point: Local, done: Local, target: int) -> TerminatorView {
    TerminatorView::Call {
        func: Callee::VecPush,
        args: seq![Operand::Move(borrow), Operand::Move(point)],
        destination: done,
        target,
    }
}

/// The storage of three locals given back.
pub open spec fn dead_statements(first: Local, second: Local, third: Local) -> Seq<StatementView> {
    seq![
        StatementView::StorageDead(first),
        StatementView::StorageDead(second),
        StatementView::StorageDead(third),
    ]
}

/// The body of a function without arguments that returns a vector of the two points (1, 2) and
/// (3, 4):
///
/// ```text
/// bb0: _0 = Vec::new() -> bb1;
/// bb1: _1 = Point { 1, 2 }; _2 = &mut _0; _3 = Vec::push(move _2, move _1) -> bb2;
/// bb2: _4 = Point { 3, 4 }; _5 = &mut _0; _6 = Vec::push(move _5, move _4) -> bb3;
/// bb3: return;
/// ```
pub open spec fn make_vec_body() -> BodyView {
    BodyView {
        source: BodySource::Item,
        blocks: seq![
            BlockView {
                statements: Seq::empty(),
                terminator: TerminatorView::Call {
                    func: Callee::VecNew,
                    args: Seq::empty(),
                    destination: 0,
                    target: 1,
                },
            },
            BlockView {
                statements: (point_statements(1, 1, 2) + borrow_statements(2)).push(
                    StatementView::StorageLive(3),
                ),
                terminator: push_call(2, 1, 3, 2),
            },
            BlockView {
                statements: (dead_statements(3, 2, 1) + point_statements(4, 3, 4)
                    + borrow_statements(5)).push(StatementView::StorageLive(6)),
                terminator: push_call(5, 4, 6, 3),
            },
            BlockView { statements: dead_statements(6, 5, 4), terminator: TerminatorView::Return },
        ],
        locals: seq![
            MirTy::VecOfElem,
            MirTy::Elem,
            MirTy::MutRefVec,
            MirTy::Unit,
            MirTy::Elem,
            MirTy::MutRefVec,
            MirTy::Unit,
        ],
        arg_count: 0,
        lists_set: false,
    }
}

/// An aggregate of two constant fields.
fn make_point(x: i32, y: i32) -> (r: Rvalue)
    ensures
        r@ == RvalueView::Aggregate(seq![Operand::ConstI32(x), Operand::ConstI32(y)]),
{
    let r = Rvalue::Aggregate(vec![Operand::ConstI32(x), Operand::ConstI32(y)]);
    assert(r@ =~~= RvalueView::Aggregate(seq![Operand::ConstI32(x), Operand::ConstI32(y)]));
    r
}

/// A call of `Vec::push` through a borrow.
fn call_push(borrow: Local, point: Local, done: Local, target: usize) -> (r: Terminator)
    ensures
        r@ == push_call(borrow, point, done, target as int),
{
    let r = Terminator::Call {
        func: Callee::VecPush,
        args: vec![Operand::Move(borrow), Operand::Move(point)],
        destination: done,
        target,
    };
    assert(r@ =~~= push_call(borrow, point, done, target as int));
    r
}

/// Builds the body of a function without arguments that makes a vector of two points.
pub fn build_make_vec_body() -> (r: Body)
    ensures
        r@ == make_vec_body(),
{
    let bb0 = BasicBlockData {
        statements: Vec::new(),
        terminator: Terminator::Call {
            func: Callee::VecNew,
            args: Vec::new(),
            destination: 0,
            target: 1,
        },
    };
    let bb1 = BasicBlockData {
        statements: vec![
            Statement::StorageLive(1),
            Statement::Assign(1, make_point(1, 2)),
            Statement::StorageLive(2),
            Statement::Assign(2, Rvalue::RefMut(0)),
            Statement::StorageLive(3),
        ],
        terminator: call_push(2, 1, 3, 2),
    };
    let bb2 = BasicBlockData {
        statements: vec![
            Statement::StorageDead(3),
            Statement::StorageDead(2),
            Statement::StorageDead(1),
            Statement::StorageLive(4),
            Statement::Assign(4, make_point(3, 4)),
            Statement::StorageLive(5),
            Statement::Assign(5, Rvalue::RefMut(0)),
            Statement::StorageLive(6),
        ],
        terminator: call_push(5, 4, 6, 3),
    };
    let bb3 = BasicBlockData {
        statements: vec![
            Statement::StorageDead(6),
            Statement::StorageDead(5),
            Statement::StorageDead(4),
        ],
        terminator: Terminator::Return,
    };
    proof {
        let expected = make_vec_body().blocks;
        assert(bb0@ =~~= expected[0]);
        assert(bb1@ =~~= expected[1]);
        assert(bb2@ =~~= expected[2]);
        assert(bb3@ =~~= expected[3]);
    }
    let r = Body {
        source: BodySource::Item,
        blocks: vec![bb0, bb1, bb2, bb3],
        locals: vec![
            MirTy::VecOfElem,
            MirTy::Elem,
            MirTy::MutRefVec,
            MirTy::Unit,
            MirTy::Elem,
            MirTy::MutRefVec,
            MirTy::Unit,
        ],
        arg_count: 0,
        lists_set: false,
    };
    assert(r@.blocks =~= make_vec_body().blocks);
    assert(r@.locals =~= make_vec_body().locals);
    r
}

/// The body of a function that returns the length of the vector it is lent:
///
/// ```text
/// bb0: _0 = Vec::len(copy _1) -> bb1;
/// bb1: return;
/// ```
pub open spec fn vec_len_body() -> BodyView {
    BodyView {
        source: BodySource::Item,
        blocks: seq![
            BlockView {
                statements: Seq::empty(),
                terminator: TerminatorView::Call {
                    func: Callee::VecLen,
                    args: seq![Operand::Copy(1)],
                    destination: 0,
                    target: 1,
                },
            },
            BlockView { statements: Seq::empty(), terminator: TerminatorView::Return },
        ],
        locals: seq![MirTy::Usize, MirTy::RefVec],
        arg_count: 1,
        lists_set: false,
    }
}

/// Builds the body of a function that returns the length of the vector it is lent.
pub fn build_vec_len_body() -> (r: Body)
    ensures
        r@ == vec_len_body(),
{
    let r = Body {
        source: BodySource::Item,
        blocks: vec![
            BasicBlockData {
                statements: Vec::new(),
                terminator: Terminator::Call {
                    func: Callee::VecLen,
                    args: vec![Operand::Copy(1)],
                    destination: 0,
                    target: 1,
                },
            },
            BasicBlockData { statements: Vec::new(), terminator: Terminator::Return },
        ],
        locals: vec![MirTy::Usize, MirTy::RefVec],
        arg_count: 1,
        lists_set: false,
    };
    assert(r@ =~~= vec_len_body());
    r
}

/// Whether a body deals with storage and control as it should. The storage of each local beyond
/// the return place and the arguments becomes live once, before the local is touched, and is given
/// back before the body returns; each block but the last ends in a call that goes on in the next
/// one; and the last block returns. There is a local for each argument.
pub open spec fn orderly(b: BodyView) -> bool {
    &&& run(no_storage(), b.arg_count, blocks_events(b.blocks)) matches Some(st) && {
        &&& st.live == Set::<Local>::empty()
        &&& forall|l: Local| #[trigger]
            st.seen.contains(l) <==> b.arg_count < l < b.locals.len()
    }
    &&& b.arg_count < b.locals.len()
    &&& b.blocks.len() > 0
    &&& b.blocks.last().terminator == TerminatorView::Return
    &&& forall|i: int|
        0 <= i < b.blocks.len() - 1 ==> calls_on(#[trigger] b.blocks[i], i, b.locals)
}

/// The storage after the first push of the body that makes a vector.
proof fn lemma_first_push()
    ensures
        run(
            no_storage(),
            0,
            seq![
                Event::Touch(0),
                Event::Live(1),
                Event::Touch(1),
                Event::Live(2),
                Event::Touch(0),
                Event::Touch(2),
                Event::Live(3),
                Event::Touch(2),
                Event::Touch(1),
                Event::Touch(3),
            ],
        ) == Some(Storage { live: set![1, 2, 3], seen: set![1, 2, 3] }),
{
    reveal_with_fuel(run, 11);
}

/// The storage after the second push of the body that makes a vector.
proof fn lemma_second_push()
    ensures
        run(
            Storage { live: set![1, 2, 3], seen: set![1, 2, 3] },
            0,
            seq![
                Event::Dead(3),
                Event::Dead(2),
                Event::Dead(1),
                Event::Live(4),
                Event::Touch(4),
                Event::Live(5),
                Event::Touch(0),
                Event::Touch(5),
                Event::Live(6),
                Event::Touch(5),
                Event::Touch(4),
                Event::Touch(6),
            ],
        ) == Some(Storage { live: set![4, 5, 6], seen: set![1, 2, 3, 4, 5, 6] }),
{
    reveal_with_fuel(run, 13);
}

/// What two rows of statements do one after the other.
proof fn lemma_statements_events_concat(first: Seq<StatementView>, second: Seq<StatementView>)
    ensures
        statements_events(first + second) == statements_events(first) + statements_events(second),
    decreases second.len(),
{
    if second.len() == 0 {
        assert(first + second =~= first);
    } else {
        lemma_statements_events_concat(first, second.drop_last());
        assert((first + second).drop_last() =~= first + second.drop_last());
    }
}

/// What making a point and borrowing the vector does.
proof fn lemma_point_statements_events(point: Local, x: i32, y: i32, borrow: Local, done: Local)
    ensures
        statements_events(
            (point_statements(point, x, y) + borrow_statements(borrow)).push(
                StatementView::StorageLive(done),
            ),
        ) == seq![
            Event::Live(point),
            Event::Touch(point),
            Event::Live(borrow),
            Event::Touch(0),
            Event::Touch(borrow),
            Event::Live(done),
        ],
{
    reveal_with_fuel(statements_events, 6);
    reveal_with_fuel(operands_events, 3);
}

/// What giving back the storage of three locals does.
proof fn lemma_dead_statements_events(first: Local, second: Local, third: Local)
    ensures
        statements_events(dead_statements(first, second, third)) == seq![
            Event::Dead(first),
            Event::Dead(second),
            Event::Dead(third),
        ],
{
    reveal_with_fuel(statements_events, 4);
}

/// What a push does.
proof fn lemma_push_call_events(borrow: Local, point: Local, done: Local, target: int)
    ensures
        terminator_events(push_call(borrow, point, done, target)) == seq![
            Event::Touch(borrow),
            Event::Touch(point),
            Event::Touch(done),
        ],
{
    reveal_with_fuel(operands_events, 3);
}

/// The storage at the end of the body that makes a vector.
proof fn lemma_make_vec_storage()
    ensures
        run(no_storage(), 0, blocks_events(make_vec_body().blocks)) == Some(
            Storage { live: Set::empty(), seen: set![1, 2, 3, 4, 5, 6] },
        ),
{
    let blocks = make_vec_body().blocks;
    let first = seq![
        Event::Touch(0),
        Event::Live(1),
        Event::Touch(1),
        Event::Live(2),
        Event::Touch(0),
        Event::Touch(2),
        Event::Live(3),
        Event::Touch(2),
        Event::Touch(1),
        Event::Touch(3),
    ];
    let second = seq![
        Event::Dead(3),
        Event::Dead(2),
        Event::Dead(1),
        Event::Live(4),
        Event::Touch(4),
        Event::Live(5),
        Event::Touch(0),
        Event::Touch(5),
        Event::Live(6),
        Event::Touch(5),
        Event::Touch(4),
        Event::Touch(6),
    ];
    let third = seq![Event::Dead(6), Event::Dead(5), Event::Dead(4), Event::Touch(0)];
    assert(blocks_events(blocks) =~= first + second + third) by {
        let one = blocks.take(1);
        let two = blocks.take(2);
        let three = blocks.take(3);
        assert(blocks.drop_last() =~= three);
        assert(three.drop_last() =~= two);
        assert(two.drop_last() =~= one);
        assert(one.drop_last() =~= Seq::empty());
        lemma_push_call_events(2, 1, 3, 2);
        lemma_push_call_events(5, 4, 6, 3);
        assert(blocks_events(one) =~= seq![Event::Touch(0)]) by {
            reveal_with_fuel(blocks_events, 2);
            assert(one.last().statements =~= Seq::empty());
        }
        lemma_point_statements_events(1, 1, 2, 2, 3);
        assert(blocks_events(two) =~= first);
        lemma_dead_statements_events(3, 2, 1);
        lemma_point_statements_events(4, 3, 4, 5, 6);
        assert(blocks[2].statements =~= dead_statements(3, 2, 1) + (point_statements(4, 3, 4)
            + borrow_statements(5)).push(StatementView::StorageLive(6)));
        lemma_statements_events_concat(
            dead_statements(3, 2, 1),
            (point_statements(4, 3, 4) + borrow_statements(5)).push(StatementView::StorageLive(6)),
        );
        assert(blocks_events(three) =~= first + second);
        lemma_dead_statements_events(6, 5, 4);
    }
    lemma_first_push();
    lemma_second_push();
    lemma_run_concat(no_storage(), 0, first, second);
    lemma_run_concat(no_storage(), 0, first + second, third);
    assert(run(
        Storage { live: set![4, 5, 6], seen: set![1, 2, 3, 4, 5, 6] },
        0,
        third,
    ) == Some(Storage { live: Set::empty(), seen: set![1, 2, 3, 4, 5, 6] })) by {
        reveal_with_fuel(run, 5);
    }
}

/// The bodies that are not lowered from a Toylang function deal with storage and control as they
/// should.
pub proof fn law_helper_bodies_orderly(inputs: int, value: i32, drop_fn: Option<usize>)
    requires
        inputs >= 0,
    ensures
        orderly(const_i32_body(inputs, value)),
        orderly(drop_call_body(drop_fn)),
        orderly(make_vec_body()),
        orderly(vec_len_body()),
{
    lemma_make_vec_storage();
    let returned = seq![Event::Touch(0), Event::Touch(0)];
    assert(run(no_storage(), inputs, returned) == Some(no_storage())) by {
        reveal_with_fuel(run, 3);
    }
    assert(run(no_storage(), 1, seq![Event::Touch(0)]) == Some(no_storage())) by {
        reveal_with_fuel(run, 2);
    }
    let called = seq![Event::Touch(1), Event::Touch(0), Event::Touch(0)];
    assert(run(no_storage(), 1, called) == Some(no_storage())) by {
        reveal_with_fuel(run, 4);
    }
    reveal_with_fuel(blocks_events, 3);
    reveal_with_fuel(statements_events, 2);
    reveal_with_fuel(operands_events, 2);
    assert(blocks_events(const_i32_body(inputs, value).blocks) =~= returned);
    assert(blocks_events(vec_len_body().blocks) =~= called);
    if drop_fn is Some {
        assert(blocks_events(drop_call_body(drop_fn).blocks) =~= called);
    } else {
        assert(blocks_events(drop_call_body(drop_fn).blocks) =~= seq![Event::Touch(0)]);
    }
}

/// Whether the lists of required constants and of mentioned items are handed over with a body
/// exactly if it is drop glue.
pub open spec fn lists_fit(b: BodyView) -> bool {
    b.lists_set <==> b.source == BodySource::DropGlue
}

/// The lists of required constants and of mentioned items are handed over with drop glue and with
/// no other body.
pub proof fn law_lists_set_for_drop_glue(
    value: i32,
    drop_fn: Option<usize>,
    params: Seq<Seq<char>>,
    inputs: int,
    body: FnBodyView,
)
    ensures
        lists_fit(drop_call_body(drop_fn)),
        lists_fit(const_i32_body(inputs, value)),
        lists_fit(make_vec_body()),
        lists_fit(vec_len_body()),
        lower_body(params, inputs, body) matches Ok(b) ==> lists_fit(b) && b.source
            == BodySource::Item,
        drop_call_body(drop_fn).source == BodySource::DropGlue,
        const_i32_body(inputs, value).source == BodySource::Item,
        make_vec_body().source == BodySource::Item,
        vec_len_body().source == BodySource::Item,
{
}

/// The body that returns the length of a vector is what a function that calls `len` on its one
/// parameter is lowered to, with the types of the signature for those of the locals.
pub proof fn law_vec_len_as_lowered(name: Seq<char>)
    ensures
        ({
            let call = ExprView::MethodCall {
                receiver: Box::new(ExprView::Var(name)),
                method: "len"@,
                args: Seq::empty(),
            };
            let body = FnBodyView { stmts: Seq::empty(), ret: Some(call) };
            lower_body(seq![name], 1, body) matches Ok(b) && b == (BodyView {
                locals: seq![MirTy::Output, MirTy::Input(0)],
                ..vec_len_body()
            })
        }),
{
    let call = ExprView::MethodCall {
        receiver: Box::new(ExprView::Var(name)),
        method: "len"@,
        args: Seq::empty(),
    };
    let body = FnBodyView { stmts: Seq::empty(), ret: Some(call) };
    reveal_with_fuel(entry, 2);
    assert("len"@ != "push"@) by {
        reveal_strlit("len");
        reveal_strlit("push");
        assert("len"@.len() != "push"@.len());
    }
    let b = lower_body(seq![name], 1, body)->Ok_0;
    assert(b.locals =~= seq![MirTy::Output, MirTy::Input(0)]);
    assert(b.blocks =~= vec_len_body().blocks);
}

/// One statement more.
proof fn lemma_statement_behind(st: Store, stmts: Seq<StatementView>, last: StatementView)
    ensures
        after_statements(st, stmts.push(last)) == after_statement(after_statements(st, stmts), last),
{
    assert(stmts.push(last).drop_last() =~= stmts);
}

/// What giving back the storage of three locals does.
proof fn lemma_dead_statements_run(st: Store, first: Local, second: Local, third: Local)
    ensures
        after_statements(st, dead_statements(first, second, third)) == st.remove(first).remove(
            second,
        ).remove(third),
{
    let none = Seq::<StatementView>::empty();
    let one = none.push(StatementView::StorageDead(first));
    let two = one.push(StatementView::StorageDead(second));
    lemma_statement_behind(st, none, StatementView::StorageDead(first));
    lemma_statement_behind(st, one, StatementView::StorageDead(second));
    lemma_statement_behind(st, two, StatementView::StorageDead(third));
    assert(dead_statements(first, second, third) =~= two.push(StatementView::StorageDead(third)));
}

/// What making a point and borrowing the vector does.
proof fn lemma_point_statements_run(
    st: Store,
    before: Seq<StatementView>,
    point: Local,
    x: i32,
    y: i32,
    borrow: Local,
    done: Local,
)
    requires
        point != borrow && point != done && borrow != done && point != 0 && borrow != 0 && done != 0,
    ensures
        ({
            let end = after_statements(
                st,
                (before + point_statements(point, x, y) + borrow_statements(borrow)).push(
                    StatementView::StorageLive(done),
                ),
            );
            &&& content(end, point) == Value::Record(seq![Value::Int(x), Value::Int(y)])
            &&& content(end, borrow) == Value::Borrow(0)
            &&& content(end, 0) == content(after_statements(st, before), 0)
        }),
{
    let point_row = point_statements(point, x, y);
    let borrow_row = borrow_statements(borrow);
    let one = before.push(point_row[0]);
    let two = one.push(point_row[1]);
    let three = two.push(borrow_row[0]);
    let four = three.push(borrow_row[1]);
    lemma_statement_behind(st, before, point_row[0]);
    lemma_statement_behind(st, one, point_row[1]);
    lemma_statement_behind(st, two, borrow_row[0]);
    lemma_statement_behind(st, three, borrow_row[1]);
    lemma_statement_behind(st, four, StatementView::StorageLive(done));
    assert(before + point_row + borrow_row =~= four);
    let fields = seq![Operand::ConstI32(x), Operand::ConstI32(y)];
    let made = after_statements(st, one);
    assert(fields.map_values(|operand: Operand| operand_value(made, operand)) =~= seq![
        Value::Int(x),
        Value::Int(y),
    ]);
}

/// What a push does to the vector at the place of the return value.
proof fn lemma_push_call_runs(st: Store, borrow: Local, point: Local, done: Local, target: int)
    requires
        content(st, borrow) == Value::Borrow(0),
        done != 0,
    ensures
        push_call(borrow, point, done, target) matches TerminatorView::Call {
            func,
            args,
            destination,
            ..
        } && content(after_call(st, func, args, destination), 0) == appended(
            content(st, 0),
            content(st, point),
        ),
{
}

/// The body that makes a vector returns one of the two points (1, 2) and (3, 4).
pub proof fn law_make_vec_computes()
    ensures
        returned(make_vec_body(), Seq::empty()) == Some(
            Value::Vector(
                seq![
                    Value::Record(seq![Value::Int(1), Value::Int(2)]),
                    Value::Record(seq![Value::Int(3), Value::Int(4)]),
                ],
            ),
        ),
{
    let blocks = make_vec_body().blocks;
    let none = Seq::<StatementView>::empty();
    let st0 = arguments(Seq::empty());
    let p1 = Value::Record(seq![Value::Int(1), Value::Int(2)]);
    let p2 = Value::Record(seq![Value::Int(3), Value::Int(4)]);
    let first = after_blocks(st0, blocks.take(1));
    assert(content(first, 0) == Value::Vector(Seq::empty())) by {
        assert(blocks.take(1).drop_last() =~= Seq::empty());
    }
    let second = after_blocks(st0, blocks.take(2));
    assert(content(second, 0) == Value::Vector(seq![p1])) by {
        assert(blocks.take(2).drop_last() =~= blocks.take(1));
        lemma_point_statements_run(first, none, 1, 1, 2, 2, 3);
        assert(none + point_statements(1, 1, 2) =~= point_statements(1, 1, 2));
        lemma_push_call_runs(after_statements(first, blocks[1].statements), 2, 1, 3, 2);
        assert(Seq::<Value>::empty().push(p1) =~= seq![p1]);
    }
    let third = after_blocks(st0, blocks.take(3));
    assert(content(third, 0) == Value::Vector(seq![p1, p2])) by {
        assert(blocks.take(3).drop_last() =~= blocks.take(2));
        lemma_dead_statements_run(second, 3, 2, 1);
        lemma_point_statements_run(second, dead_statements(3, 2, 1), 4, 3, 4, 5, 6);
        lemma_push_call_runs(after_statements(second, blocks[2].statements), 5, 4, 6, 3);
        assert(seq![p1].push(p2) =~= seq![p1, p2]);
    }
    assert(blocks.drop_last() =~= blocks.take(3));
    lemma_dead_statements_run(third, 6, 5, 4);
    assert(blocks.take(0) =~= Seq::empty());
    lemma_finish_in_row(blocks, 0, st0);
}

/// What the bodies of one block or one call do when they run. One returns its constant, whatever
/// arguments it takes; one returns the length of the vector it is lent. Drop glue leaves the
/// pointer that it is handed alone.
pub proof fn law_helper_bodies_compute(
    inputs: int,
    value: i32,
    drop_fn: Option<usize>,
    args: Seq<Value>,
)
    ensures
        returned(const_i32_body(inputs, value), args) == Some(Value::Int(value)),
        args.len() == 1 ==> returned(vec_len_body(), args) == Some(length(args[0])),
        args.len() == 1 ==> (finish(drop_call_body(drop_fn), args) matches Some(st) && content(
            st,
            1,
        ) == args[0]),
{
    let st = arguments(args);
    let assign = StatementView::Assign(0, RvalueView::Use(Operand::ConstI32(value)));
    assert(seq![assign] =~= Seq::empty().push(assign));
    lemma_statement_behind(st, Seq::empty(), assign);
    reveal_with_fuel(finish_from, 3);
}

/// The body that returns a constant has an `i32` to return and a local for each parameter of the
/// signature, in their order, and no others.
pub proof fn law_const_body_has_its_signature(inputs: int, value: i32, k: int)
    requires
        0 <= k < inputs,
    ensures
        const_i32_body(inputs, value).arg_count == inputs,
        const_i32_body(inputs, value).locals.len() == inputs + 1,
        const_i32_body(inputs, value).locals[0] == MirTy::I32,
        const_i32_body(inputs, value).locals[k + 1] == MirTy::Input(k as usize),
{
}

} // verus!
