//! The control-flow graphs that function bodies are lowered to.
//!
//! A body is a row of basic blocks over a row of locals. Local 0 is the place of the return value,
//! the locals behind it are the arguments, and the rest are variables and temporaries. Types and
//! callees are named by the part they play in the function, so that a body can be written down
//! before the compiler has resolved any of them.
use vstd::prelude::*;

use crate::text::views;

verus! {

/// The largest index that a local or a basic block can have.
pub const MAX_INDEX: usize = 0xFFFF_FF00;

/// A local, by its index.
pub type Local = usize;

/// The type of a local.
#[derive(Clone, Copy, Debug, PartialEq, Eq, Structural)]
pub enum MirTy {
    /// The return type in the signature of the function.
    Output,
    /// The type of a parameter in the signature of the function.
    Input(usize),
    /// `()`
    Unit,
    /// `i32`
    I32,
    /// `usize`
    Usize,
    /// The Toylang struct.
    Elem,
    /// `*mut` to the Toylang struct.
    MutPtrElem,
    /// A vector of the Toylang struct.
    VecOfElem,
    /// `&` to a vector of the Toylang struct.
    RefVec,
    /// `&mut` to a vector of the Toylang struct.
    MutRefVec,
}

/// A function that a body calls.
#[derive(Clone, Copy, Debug, PartialEq, Eq, Structural)]
pub enum Callee {
    /// `Vec::new` for the Toylang struct.
    VecNew,
    /// `Vec::push` for the Toylang struct.
    VecPush,
    /// `Vec::len` for the Toylang struct.
    VecLen,
    /// The foreign function at a place in the list of foreign functions.
    Foreign(usize),
}

/// A value that a statement or a call reads.
#[derive(Clone, Copy, Debug, PartialEq, Eq, Structural)]
pub enum Operand {
    Copy(Local),
    Move(Local),
    ConstI32(i32),
}

/// The right-hand side of an assignment.
#[derive(Debug)]
pub enum Rvalue {
    Use(Operand),
    /// A mutable borrow of a local.
    RefMut(Local),
    /// A value of the Toylang struct, from the values of its fields.
    Aggregate(Vec<Operand>),
}

/// A statement.
#[derive(Debug)]
pub enum Statement {
    StorageLive(Local),
    StorageDead(Local),
    Assign(Local, Rvalue),
}

/// The way in which control leaves a basic block.
#[derive(Debug)]
pub enum Terminator {
    Return,
    /// A call. The value goes to `destination`, and control goes on at block `target`.
    Call { func: Callee, args: Vec<Operand>, destination: Local, target: usize },
}

/// A basic block.
#[derive(Debug)]
pub struct BasicBlockData {
    pub statements: Vec<Statement>,
    pub terminator: Terminator,
}

/// What a body is the body of.
#[derive(Clone, Copy, Debug, PartialEq, Eq, Structural)]
pub enum BodySource {
    /// A function of the program.
    Item,
    /// The drop glue of the Toylang struct.
    DropGlue,
}

/// A function body.
#[derive(Debug)]
pub struct Body {
    pub source: BodySource,
    pub blocks: Vec<BasicBlockData>,
    pub locals: Vec<MirTy>,
    pub arg_count: usize,
    /// Whether the lists of required constants and of mentioned items are handed over with the
    /// body, both empty. Later passes fill them in for the body of an item and must find them
    /// unset; no later pass does for drop glue.
    pub lists_set: bool,
}

/// The right-hand side of an assignment, as contracts speak of it.
#[verifier::ext_equal]
pub enum RvalueView {
    Use(Operand),
    RefMut(Local),
    Aggregate(Seq<Operand>),
}

/// A statement, as contracts speak of it.
#[verifier::ext_equal]
pub enum StatementView {
    StorageLive(Local),
    StorageDead(Local),
    Assign(Local, RvalueView),
}

/// A terminator, as contracts speak of it.
#[verifier::ext_equal]
pub enum TerminatorView {
    Return,
    Call { func: Callee, args: Seq<Operand>, destination: Local, target: int },
}

/// A basic block, as contracts speak of it.
#[verifier::ext_equal]
pub struct BlockView {
    pub statements: Seq<StatementView>,
    pub terminator: TerminatorView,
}

/// A function body, as contracts speak of it.
#[verifier::ext_equal]
pub struct BodyView {
    pub source: BodySource,
    pub blocks: Seq<BlockView>,
    pub locals: Seq<MirTy>,
    pub arg_count: int,
    pub lists_set: bool,
}

impl View for Rvalue {
    type V = RvalueView;

    open spec fn view(&self) -> RvalueView {
        match self {
            Rvalue::Use(operand) => RvalueView::Use(*operand),
            Rvalue::RefMut(local) => RvalueView::RefMut(*local),
            Rvalue::Aggregate(operands) => RvalueView::Aggregate(operands@),
        }
    }
}

impl View for Statement {
    type V = StatementView;

    open spec fn view(&self) -> StatementView {
        match self {
            Statement::StorageLive(local) => StatementView::StorageLive(*local),
            Statement::StorageDead(local) => StatementView::StorageDead(*local),
            Statement::Assign(local, rvalue) => StatementView::Assign(*local, rvalue@),
        }
    }
}

impl View for Terminator {
    type V = TerminatorView;

    open spec fn view(&self) -> TerminatorView {
        match self {
            Terminator::Return => TerminatorView::Return,
            Terminator::Call { func, args, destination, target } => TerminatorView::Call {
                func: *func,
                args: args@,
                destination: *destination,
                target: *target as int,
            },
        }
    }
}

impl View for BasicBlockData {
    type V = BlockView;

    open spec fn view(&self) -> BlockView {
        BlockView { statements: views(self.statements@), terminator: self.terminator@ }
    }
}

impl View for Body {
    type V = BodyView;

    open spec fn view(&self) -> BodyView {
        BodyView {
            source: self.source,
            blocks: views(self.blocks@),
            locals: self.locals@,
            arg_count: self.arg_count as int,
            lists_set: self.lists_set,
        }
    }
}

/// The indices of locals and basic blocks are 32 bits wide, with the topmost 255 values set aside.
pub proof fn law_indices_are_narrow()
    ensures
        MAX_INDEX + 255 == u32::MAX,
{
}

/// What contracts say of a body they say of its parts: it has the blocks, the locals and the number
/// of arguments that it has, and at each place the statement and at the end of each block the
/// terminator that stands there.
pub proof fn law_bodies_are_what_they_hold(b: Body, i: int, j: int)
    requires
        0 <= i < b.blocks@.len(),
        0 <= j < b.blocks@[i].statements@.len(),
    ensures
        b@.source == b.source,
        b@.locals == b.locals@,
        b@.arg_count == b.arg_count,
        b@.lists_set == b.lists_set,
        b@.blocks.len() == b.blocks@.len(),
        b@.blocks[i].statements.len() == b.blocks@[i].statements@.len(),
        match b.blocks@[i].statements@[j] {
            Statement::StorageLive(l) => b@.blocks[i].statements[j] == StatementView::StorageLive(l),
            Statement::StorageDead(l) => b@.blocks[i].statements[j] == StatementView::StorageDead(l),
            Statement::Assign(l, rvalue) => b@.blocks[i].statements[j] == StatementView::Assign(
                l,
                match rvalue {
                    Rvalue::Use(operand) => RvalueView::Use(operand),
                    Rvalue::RefMut(borrowed) => RvalueView::RefMut(borrowed),
                    Rvalue::Aggregate(operands) => RvalueView::Aggregate(operands@),
                },
            ),
        },
        match b.blocks@[i].terminator {
            Terminator::Return => b@.blocks[i].terminator == TerminatorView::Return,
            Terminator::Call { func, args, destination, target } => b@.blocks[i].terminator == (
            TerminatorView::Call { func, args: args@, destination, target: target as int }),
        },
{
}

} // verus!
