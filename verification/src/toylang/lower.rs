//! The lowering of function bodies: from the syntax tree to a control-flow graph.
use vstd::prelude::*;

use crate::mir::{
    BasicBlockData, BlockView, Body, BodySource, BodyView, Callee, Local, MirTy, Operand, Rvalue,
    RvalueView, Statement, StatementView, Terminator, TerminatorView, MAX_INDEX,
};
use crate::names::NameMap;
use crate::text::{concat2, concat3, str_eq, views};
use crate::toylang::ast::{
    expr_shown, lemma_expr_view, Expr, ExprView, FnBody, FnBodyView, Stmt, StmtView,
};

verus! {

/// Why a function body cannot be lowered.
#[derive(Debug)]
pub enum LowerError<'a> {
    /// A variable that is neither a parameter nor bound by a `let` before.
    UndefinedVariable(&'a String),
    /// An expression whose type is not known.
    UnrecognizedExpr(&'a Expr),
    /// An expression that has no lowering.
    UnhandledExpr(&'a Expr),
    /// The receiver of `push` is an undefined variable.
    PushReceiverNotFound(&'a String),
    /// The receiver of `push` is no variable.
    PushReceiverNotVariable,
    /// `push` without an argument.
    PushWithoutArgument,
    /// The receiver of `len` is an undefined variable.
    LenReceiverNotFound(&'a String),
    /// The receiver of `len` is no variable.
    LenReceiverNotVariable,
    /// More locals than there are indices.
    TooManyLocals,
    /// More basic blocks than there are indices.
    TooManyBlocks,
}

/// Why a function body cannot be lowered, as contracts speak of it.
#[verifier::ext_equal]
pub enum LowerErrorView {
    UndefinedVariable(Seq<char>),
    UnrecognizedExpr(ExprView),
    UnhandledExpr(ExprView),
    PushReceiverNotFound(Seq<char>),
    PushReceiverNotVariable,
    PushWithoutArgument,
    LenReceiverNotFound(Seq<char>),
    LenReceiverNotVariable,
    TooManyLocals,
    TooManyBlocks,
}

impl<'a> View for LowerError<'a> {
    type V = LowerErrorView;

    open spec fn view(&self) -> LowerErrorView {
        match self {
            LowerError::UndefinedVariable(name) => LowerErrorView::UndefinedVariable(name@),
            LowerError::UnrecognizedExpr(e) => LowerErrorView::UnrecognizedExpr(e@),
            LowerError::UnhandledExpr(e) => LowerErrorView::UnhandledExpr(e@),
            LowerError::PushReceiverNotFound(name) => LowerErrorView::PushReceiverNotFound(name@),
            LowerError::PushReceiverNotVariable => LowerErrorView::PushReceiverNotVariable,
            LowerError::PushWithoutArgument => LowerErrorView::PushWithoutArgument,
            LowerError::LenReceiverNotFound(name) => LowerErrorView::LenReceiverNotFound(name@),
            LowerError::LenReceiverNotVariable => LowerErrorView::LenReceiverNotVariable,
            LowerError::TooManyLocals => LowerErrorView::TooManyLocals,
            LowerError::TooManyBlocks => LowerErrorView::TooManyBlocks,
        }
    }
}

/// What is said of a body that cannot be lowered.
pub open spec fn lower_message(err: LowerErrorView) -> Seq<char> {
    match err {
        LowerErrorView::UndefinedVariable(name) => "[toylang] undefined variable '"@ + name + "'"@,
        LowerErrorView::UnrecognizedExpr(e) => "[toylang] infer_ty: unrecognized expression "@
            + expr_shown(e),
        LowerErrorView::UnhandledExpr(e) => "[toylang] lower_expr_into: unhandled expr "@
            + expr_shown(e),
        LowerErrorView::PushReceiverNotFound(name) => "[toylang] push receiver '"@ + name
            + "' not found"@,
        LowerErrorView::PushReceiverNotVariable => "[toylang] push receiver must be a variable"@,
        LowerErrorView::PushWithoutArgument => "[toylang] push requires one argument"@,
        LowerErrorView::LenReceiverNotFound(name) => "[toylang] len receiver '"@ + name
            + "' not found"@,
        LowerErrorView::LenReceiverNotVariable => "[toylang] len receiver must be a variable"@,
        LowerErrorView::TooManyLocals => "[toylang] too many locals"@,
        LowerErrorView::TooManyBlocks => "[toylang] too many basic blocks"@,
    }
}

impl<'a> LowerError<'a> {
    /// What is said of a body that cannot be lowered.
    pub fn message(&self) -> (r: String)
        ensures
            r@ == lower_message(self@),
    {
        match self {
            LowerError::UndefinedVariable(name) => concat3(
                "[toylang] undefined variable '",
                name.as_str(),
                "'",
            ),
            LowerError::UnrecognizedExpr(e) => concat2(
                "[toylang] infer_ty: unrecognized expression ",
                e.show().as_str(),
            ),
            LowerError::UnhandledExpr(e) => concat2(
                "[toylang] lower_expr_into: unhandled expr ",
                e.show().as_str(),
            ),
            LowerError::PushReceiverNotFound(name) => concat3(
                "[toylang] push receiver '",
                name.as_str(),
                "' not found",
            ),
            LowerError::PushReceiverNotVariable => {
                "[toylang] push receiver must be a variable".to_owned()
            },
            LowerError::PushWithoutArgument => "[toylang] push requires one argument".to_owned(),
            LowerError::LenReceiverNotFound(name) => concat3(
                "[toylang] len receiver '",
                name.as_str(),
                "' not found",
            ),
            LowerError::LenReceiverNotVariable => {
                "[toylang] len receiver must be a variable".to_owned()
            },
            LowerError::TooManyLocals => "[toylang] too many locals".to_owned(),
            LowerError::TooManyBlocks => "[toylang] too many basic blocks".to_owned(),
        }
    }
}

/// A body under construction: the locals so far, which of them the names stand for, the finished
/// blocks, and the statements of the block at work.
#[verifier::ext_equal]
pub struct LowerView {
    pub locals: Seq<MirTy>,
    pub names: Map<Seq<char>, Local>,
    pub blocks: Seq<BlockView>,
    pub current: Seq<StatementView>,
}

impl LowerView {
    /// With one local more.
    pub open spec fn add_local(self, ty: MirTy) -> Result<(LowerView, Local), LowerErrorView> {
        if self.locals.len() <= MAX_INDEX {
            Ok(
                (
                    LowerView { locals: self.locals.push(ty), ..self },
                    self.locals.len() as Local,
                ),
            )
        } else {
            Err(LowerErrorView::TooManyLocals)
        }
    }

    /// With one statement more.
    pub open spec fn emit(self, stmt: StatementView) -> LowerView {
        LowerView { current: self.current.push(stmt), ..self }
    }

    /// With the block at work finished.
    pub open spec fn finalize(self, terminator: TerminatorView) -> Result<
        LowerView,
        LowerErrorView,
    > {
        if self.blocks.len() < MAX_INDEX {
            Ok(
                LowerView {
                    blocks: self.blocks.push(
                        BlockView { statements: self.current, terminator },
                    ),
                    current: Seq::empty(),
                    ..self
                },
            )
        } else {
            Err(LowerErrorView::TooManyBlocks)
        }
    }

    /// With the block at work finished by a call that goes on in the next block.
    pub open spec fn call(self, func: Callee, args: Seq<Operand>, destination: Local) -> Result<
        LowerView,
        LowerErrorView,
    > {
        self.finalize(
            TerminatorView::Call { func, args, destination, target: self.blocks.len() as int + 1 },
        )
    }

    /// With a name for a local.
    pub open spec fn bind(self, name: Seq<char>, local: Local) -> LowerView {
        LowerView { names: self.names.insert(name, local), ..self }
    }

    /// With the storage of each of the locals given back.
    pub open spec fn kill(self, locals: Seq<Local>) -> LowerView
        decreases locals.len(),
    {
        if locals.len() == 0 {
            self
        } else {
            self.kill(locals.drop_last()).emit(StatementView::StorageDead(locals.last()))
        }
    }
}

/// The statements that give the storage of locals back, in their order.
pub open spec fn deaths(locals: Seq<Local>) -> Seq<StatementView> {
    locals.map_values(|l: Local| StatementView::StorageDead(l))
}

/// Giving storage back touches nothing but the statements of the block at work.
pub proof fn lemma_kill(s: LowerView, locals: Seq<Local>)
    ensures
        s.kill(locals) == (LowerView { current: s.current + deaths(locals), ..s }),
    decreases locals.len(),
{
    if locals.len() == 0 {
        assert(s.current + deaths(locals) =~= s.current);
    } else {
        lemma_kill(s, locals.drop_last());
        assert((s.current + deaths(locals.drop_last())).push(
            StatementView::StorageDead(locals.last()),
        ) =~= s.current + deaths(locals));
    }
}

/// The type of the value of an expression.
pub open spec fn infer(s: LowerView, e: ExprView) -> Result<MirTy, LowerErrorView> {
    match e {
        ExprView::IntLit(_) => Ok(MirTy::I32),
        ExprView::Var(name) => if s.names.contains_key(name) {
            Ok(s.locals[s.names[name] as int])
        } else {
            Err(LowerErrorView::UndefinedVariable(name))
        },
        ExprView::StaticCall { ty, .. } => if ty == "Vec"@ {
            Ok(MirTy::VecOfElem)
        } else {
            Err(LowerErrorView::UnrecognizedExpr(e))
        },
        ExprView::MethodCall { method, .. } => if method == "push"@ {
            Ok(MirTy::Unit)
        } else if method == "len"@ {
            Ok(MirTy::Usize)
        } else {
            Err(LowerErrorView::UnrecognizedExpr(e))
        },
        ExprView::StructLit { .. } => Ok(MirTy::Elem),
    }
}

/// A fresh local of the type of `e`, its storage live.
pub open spec fn fresh(s: LowerView, e: ExprView) -> Result<(LowerView, Local), LowerErrorView> {
    match infer(s, e) {
        Ok(ty) => match s.add_local(ty) {
            Ok((s1, local)) => Ok((s1.emit(StatementView::StorageLive(local)), local)),
            Err(err) => Err(err),
        },
        Err(err) => Err(err),
    }
}

/// The lowering of an expression whose value goes to `dest`.
///
/// - An integer literal is assigned as an `i32`, a variable is moved.
/// - A struct literal takes a fresh local for each field, assigns the aggregate, and gives the
///   locals back.
/// - `Vec::new()`, `push` and `len` are calls, each of which ends a block. `push` borrows its
///   receiver mutably before its argument is lowered, and gives the storage of both back in the
///   block behind the call; `len` copies its receiver.
pub open spec fn lower_expr(s: LowerView, e: ExprView, dest: Local) -> Result<
    LowerView,
    LowerErrorView,
>
    decreases e, 0int,
{
    match e {
        ExprView::IntLit(n) => Ok(
            s.emit(StatementView::Assign(dest, RvalueView::Use(Operand::ConstI32(n as i32)))),
        ),
        ExprView::Var(name) => if s.names.contains_key(name) {
            Ok(s.emit(StatementView::Assign(dest, RvalueView::Use(Operand::Move(s.names[name])))))
        } else {
            Err(LowerErrorView::UndefinedVariable(name))
        },
        ExprView::StructLit { name: _, fields } => match lower_fields(s, fields, 0) {
            Ok((s1, temps)) => Ok(
                s1.emit(
                    StatementView::Assign(
                        dest,
                        RvalueView::Aggregate(temps.map_values(|l: Local| Operand::Move(l))),
                    ),
                ).kill(temps),
            ),
            Err(err) => Err(err),
        },
        ExprView::StaticCall { ty, method, .. } => if ty == "Vec"@ && method == "new"@ {
            s.call(Callee::VecNew, Seq::empty(), dest)
        } else {
            Err(LowerErrorView::UnhandledExpr(e))
        },
        ExprView::MethodCall { receiver, method, args } => if method == "push"@ {
            match *receiver {
                ExprView::Var(name) => if s.names.contains_key(name) {
                    match s.add_local(MirTy::MutRefVec) {
                        Ok((s1, borrow)) => {
                            let s2 = s1.emit(StatementView::StorageLive(borrow)).emit(
                                StatementView::Assign(borrow, RvalueView::RefMut(s.names[name])),
                            );
                            if args.len() == 0 {
                                Err(LowerErrorView::PushWithoutArgument)
                            } else {
                                match fresh(s2, args[0]) {
                                    Ok((s3, arg)) => match lower_expr(s3, args[0], arg) {
                                        Ok(s4) => match s4.call(
                                            Callee::VecPush,
                                            seq![Operand::Move(borrow), Operand::Move(arg)],
                                            dest,
                                        ) {
                                            Ok(s5) => Ok(s5.kill(seq![arg, borrow])),
                                            Err(err) => Err(err),
                                        },
                                        Err(err) => Err(err),
                                    },
                                    Err(err) => Err(err),
                                }
                            }
                        },
                        Err(err) => Err(err),
                    }
                } else {
                    Err(LowerErrorView::PushReceiverNotFound(name))
                },
                _ => Err(LowerErrorView::PushReceiverNotVariable),
            }
        } else if method == "len"@ {
            match *receiver {
                ExprView::Var(name) => if s.names.contains_key(name) {
                    s.call(Callee::VecLen, seq![Operand::Copy(s.names[name])], dest)
                } else {
                    Err(LowerErrorView::LenReceiverNotFound(name))
                },
                _ => Err(LowerErrorView::LenReceiverNotVariable),
            }
        } else {
            Err(LowerErrorView::UnhandledExpr(e))
        },
    }
}

/// The lowering of the fields of a struct literal from field `i` on, and the locals that hold
/// their values.
pub open spec fn lower_fields(
    s: LowerView,
    fields: Seq<(Seq<char>, ExprView)>,
    i: int,
) -> Result<(LowerView, Seq<Local>), LowerErrorView>
    decreases fields, fields.len() - i,
{
    if 0 <= i < fields.len() {
        match fresh(s, fields[i].1) {
            Ok((s1, local)) => match lower_expr(s1, fields[i].1, local) {
                Ok(s2) => match lower_fields(s2, fields, i + 1) {
                    Ok((s3, locals)) => Ok((s3, seq![local] + locals)),
                    Err(err) => Err(err),
                },
                Err(err) => Err(err),
            },
            Err(err) => Err(err),
        }
    } else {
        Ok((s, Seq::empty()))
    }
}

/// The lowering of a statement. The local of a `let` stays live; the value of an expression
/// statement is given back.
pub open spec fn lower_statement(s: LowerView, stmt: StmtView) -> Result<
    LowerView,
    LowerErrorView,
> {
    match stmt {
        StmtView::Let { name, expr } => match fresh(s, expr) {
            Ok((s1, local)) => lower_expr(s1.bind(name, local), expr, local),
            Err(err) => Err(err),
        },
        StmtView::ExprStmt(expr) => match fresh(s, expr) {
            Ok((s1, local)) => match lower_expr(s1, expr, local) {
                Ok(s2) => Ok(s2.emit(StatementView::StorageDead(local))),
                Err(err) => Err(err),
            },
            Err(err) => Err(err),
        },
    }
}

/// The lowering of the statements of a body, one after the other.
pub open spec fn lower_statements(s: LowerView, stmts: Seq<StmtView>) -> Result<
    LowerView,
    LowerErrorView,
>
    decreases stmts.len(),
{
    if stmts.len() == 0 {
        Ok(s)
    } else {
        match lower_statements(s, stmts.drop_last()) {
            Ok(s1) => lower_statement(s1, stmts.last()),
            Err(err) => Err(err),
        }
    }
}

/// How many of the parameters have both a name and a type.
pub open spec fn arg_locals(params: Seq<Seq<char>>, inputs: int) -> int {
    if params.len() <= inputs {
        params.len() as int
    } else {
        inputs
    }
}

/// A body before its first statement: the return place, and a local for each parameter. Of two
/// parameters with one name the later one has it.
pub open spec fn entry(params: Seq<Seq<char>>, n: int) -> LowerView
    decreases n,
{
    if n <= 0 {
        LowerView {
            locals: seq![MirTy::Output],
            names: Map::empty(),
            blocks: Seq::empty(),
            current: Seq::empty(),
        }
    } else {
        let s = entry(params, n - 1);
        LowerView { locals: s.locals.push(MirTy::Input((n - 1) as usize)), ..s }.bind(
            params[n - 1],
            n as Local,
        )
    }
}

/// The lowering of a function body with the parameter names `params` and a signature of `inputs`
/// parameters.
pub open spec fn lower_body(params: Seq<Seq<char>>, inputs: int, body: FnBodyView) -> Result<
    BodyView,
    LowerErrorView,
> {
    let n = arg_locals(params, inputs);
    if n > MAX_INDEX {
        Err(LowerErrorView::TooManyLocals)
    } else {
        match lower_statements(entry(params, n), body.stmts) {
            Ok(s) => match (match body.ret {
                Some(e) => lower_expr(s, e, 0),
                None => Ok(s),
            }) {
                Ok(s1) => match s1.finalize(TerminatorView::Return) {
                    Ok(s2) => Ok(
                        BodyView {
                            source: BodySource::Item,
                            blocks: s2.blocks,
                            locals: s2.locals,
                            arg_count: inputs,
                            lists_set: false,
                        },
                    ),
                    Err(err) => Err(err),
                },
                Err(err) => Err(err),
            },
            Err(err) => Err(err),
        }
    }
}

/// Whether a result and the state reached are what the lowering gives.
pub open spec fn agrees(
    r: Result<(), LowerError<'_>>,
    after: LowerView,
    expected: Result<LowerView, LowerErrorView>,
) -> bool {
    match (r, expected) {
        (Ok(()), Ok(s)) => after == s,
        (Err(e), Err(err)) => e@ == err,
        _ => false,
    }
}

/// Whether a result with a local and the state reached are what the lowering gives.
pub open spec fn agrees_local(
    r: Result<Local, LowerError<'_>>,
    after: LowerView,
    expected: Result<(LowerView, Local), LowerErrorView>,
) -> bool {
    match (r, expected) {
        (Ok(local), Ok((s, l))) => after == s && local == l,
        (Err(e), Err(err)) => e@ == err,
        _ => false,
    }
}

/// A body under construction.
struct Lower {
    locals: Vec<MirTy>,
    local_map: NameMap<Local>,
    blocks: Vec<BasicBlockData>,
    current_stmts: Vec<Statement>,
}

impl View for Lower {
    type V = LowerView;

    closed spec fn view(&self) -> LowerView {
        LowerView {
            locals: self.locals@,
            names: self.local_map@,
            blocks: views(self.blocks@),
            current: views(self.current_stmts@),
        }
    }
}

impl LowerView {
    /// Each name stands for a local that there is.
    pub open spec fn wf(self) -> bool {
        forall|name: Seq<char>| #[trigger]
            self.names.contains_key(name) ==> self.names[name] < self.locals.len()
    }
}

impl Lower {
    /// Adds a local.
    fn alloc_local<'a>(&mut self, ty: MirTy) -> (r: Result<Local, LowerError<'a>>)
        ensures
            agrees_local(r, final(self)@, old(self)@.add_local(ty)),
    {
        let local: Local = self.locals.len();
        if local > MAX_INDEX {
            return Err(LowerError::TooManyLocals);
        }
        self.locals.push(ty);
        Ok(local)
    }

    /// Adds a statement to the block at work.
    fn emit(&mut self, stmt: Statement)
        ensures
            final(self)@ == old(self)@.emit(stmt@),
    {
        self.current_stmts.push(stmt);
        assert(self@.current =~= old(self)@.current.push(stmt@));
    }

    /// Finishes the block at work with a terminator.
    fn finalize_block<'a>(&mut self, terminator: Terminator) -> (r: Result<(), LowerError<'a>>)
        ensures
            agrees(r, final(self)@, old(self)@.finalize(terminator@)),
    {
        if self.blocks.len() >= MAX_INDEX {
            return Err(LowerError::TooManyBlocks);
        }
        let mut statements: Vec<Statement> = Vec::new();
        core::mem::swap(&mut statements, &mut self.current_stmts);
        let block: BasicBlockData = BasicBlockData { statements, terminator };
        self.blocks.push(block);
        assert(self@.blocks =~= old(self)@.blocks.push(block@));
        assert(self@.current =~= Seq::empty());
        Ok(())
    }

    /// Finishes the block at work with a call that goes on in the next block.
    fn call<'a>(&mut self, func: Callee, args: Vec<Operand>, destination: Local) -> (r: Result<
        (),
        LowerError<'a>,
    >)
        ensures
            agrees(r, final(self)@, old(self)@.call(func, args@, destination)),
    {
        if self.blocks.len() >= MAX_INDEX {
            return Err(LowerError::TooManyBlocks);
        }
        let target: usize = self.blocks.len() + 1;
        self.finalize_block(Terminator::Call { func, args, destination, target })
    }

    /// The type of the value of an expression.
    fn infer_ty<'a>(&self, expr: &'a Expr) -> (r: Result<MirTy, LowerError<'a>>)
        requires
            self@.wf(),
        ensures
            match (r, infer(self@, expr@)) {
                (Ok(ty), Ok(t)) => ty == t,
                (Err(e), Err(err)) => e@ == err,
                _ => false,
            },
    {
        proof {
            lemma_expr_view(*expr);
        }
        match expr {
            Expr::IntLit(_) => Ok(MirTy::I32),
            Expr::Var(name) => match self.local_map.get(name.as_str()) {
                Some(local) => Ok(self.locals[*local]),
                None => Err(LowerError::UndefinedVariable(name)),
            },
            Expr::StaticCall { ty, .. } => {
                if str_eq(ty.as_str(), "Vec") {
                    Ok(MirTy::VecOfElem)
                } else {
                    Err(LowerError::UnrecognizedExpr(expr))
                }
            },
            Expr::MethodCall { method, .. } => {
                if str_eq(method.as_str(), "push") {
                    Ok(MirTy::Unit)
                } else if str_eq(method.as_str(), "len") {
                    Ok(MirTy::Usize)
                } else {
                    Err(LowerError::UnrecognizedExpr(expr))
                }
            },
            Expr::StructLit { .. } => Ok(MirTy::Elem),
        }
    }

    /// Adds a local for the value of an expression and makes its storage live.
    fn fresh_local<'a>(&mut self, expr: &'a Expr) -> (r: Result<Local, LowerError<'a>>)
        requires
            old(self)@.wf(),
        ensures
            agrees_local(r, final(self)@, fresh(old(self)@, expr@)),
            r is Ok ==> final(self)@.wf(),
    {
        let ty: MirTy = self.infer_ty(expr)?;
        let local: Local = self.alloc_local(ty)?;
        self.emit(Statement::StorageLive(local));
        Ok(local)
    }

    /// Gives the storage of locals back, in their order.
    fn storage_dead(&mut self, locals: &Vec<Local>)
        ensures
            final(self)@ == old(self)@.kill(locals@),
    {
        let mut i: usize = 0;
        assert(locals@.take(0) =~= Seq::empty());
        while i < locals.len()
            invariant
                i <= locals@.len(),
                self@ == old(self)@.kill(locals@.take(i as int)),
            decreases locals.len() - i,
        {
            proof {
                assert(locals@.take(i + 1).drop_last() =~= locals@.take(i as int));
            }
            self.emit(Statement::StorageDead(locals[i]));
            i = i + 1;
        }
        assert(locals@.take(i as int) =~= locals@);
    }

    /// Lowers an expression whose value goes to `dest`.
    fn lower_expr_into<'a>(&mut self, expr: &'a Expr, dest: Local) -> (r: Result<
        (),
        LowerError<'a>,
    >)
        requires
            old(self)@.wf(),
        ensures
            agrees(r, final(self)@, lower_expr(old(self)@, expr@, dest)),
            r is Ok ==> final(self)@.wf(),
        decreases expr,
    {
        proof {
            lemma_expr_view(*expr);
        }
        match expr {
            Expr::IntLit(n) => {
                let value: i32 = #[verifier::truncate] (*n as i32);
                self.emit(Statement::Assign(dest, Rvalue::Use(Operand::ConstI32(value))));
                Ok(())
            },
            Expr::Var(name) => {
                let local: Local = match self.local_map.get(name.as_str()) {
                    Some(local) => *local,
                    None => {
                        return Err(LowerError::UndefinedVariable(name));
                    },
                };
                self.emit(Statement::Assign(dest, Rvalue::Use(Operand::Move(local))));
                Ok(())
            },
            Expr::StructLit { name: _, fields } => {
                let ghost before = self@;
                let mut temps: Vec<Local> = Vec::new();
                let mut operands: Vec<Operand> = Vec::new();
                let mut i: usize = 0;
                while i < fields.len()
                    invariant
                        i <= fields@.len(),
                        before == old(self)@,
                        expr@ == (ExprView::StructLit { name: expr@->name, fields: views(fields@) }),
                        self@.wf(),
                        decreases_to!(*expr => *fields),
                        operands@ =~= temps@.map_values(|l: Local| Operand::Move(l)),
                        match lower_fields(self@, views(fields@), i as int) {
                            Ok((s, locals)) => lower_fields(before, views(fields@), 0) == Ok::<
                                (LowerView, Seq<Local>),
                                LowerErrorView,
                            >((s, temps@ + locals)),
                            Err(err) => lower_fields(before, views(fields@), 0) == Err::<
                                (LowerView, Seq<Local>),
                                LowerErrorView,
                            >(err),
                        },
                    decreases fields.len() - i,
                {
                    let temp: Local = self.fresh_local(&fields[i].1)?;
                    self.lower_expr_into(&fields[i].1, temp)?;
                    proof {
                        if let Ok((_, locals)) = lower_fields(self@, views(fields@), i + 1) {
                            assert(temps@ + (seq![temp] + locals) =~= temps@.push(temp) + locals);
                        }
                    }
                    temps.push(temp);
                    operands.push(Operand::Move(temp));
                    i = i + 1;
                }
                assert(temps@ + Seq::empty() =~= temps@);
                self.emit(Statement::Assign(dest, Rvalue::Aggregate(operands)));
                proof {
                    lemma_kill(self@, temps@);
                }
                self.storage_dead(&temps);
                Ok(())
            },
            Expr::StaticCall { ty, method, .. } => {
                if str_eq(ty.as_str(), "Vec") && str_eq(method.as_str(), "new") {
                    self.call(Callee::VecNew, Vec::new(), dest)
                } else {
                    Err(LowerError::UnhandledExpr(expr))
                }
            },
            Expr::MethodCall { receiver, method, args } => {
                if str_eq(method.as_str(), "push") {
                    let recv_local: Local = match &**receiver {
                        Expr::Var(name) => match self.local_map.get(name.as_str()) {
                            Some(local) => *local,
                            None => {
                                return Err(LowerError::PushReceiverNotFound(name));
                            },
                        },
                        _ => {
                            return Err(LowerError::PushReceiverNotVariable);
                        },
                    };
                    let borrow: Local = self.alloc_local(MirTy::MutRefVec)?;
                    self.emit(Statement::StorageLive(borrow));
                    self.emit(Statement::Assign(borrow, Rvalue::RefMut(recv_local)));
                    if args.len() == 0 {
                        return Err(LowerError::PushWithoutArgument);
                    }
                    let arg: Local = self.fresh_local(&args[0])?;
                    self.lower_expr_into(&args[0], arg)?;
                    let mut operands: Vec<Operand> = Vec::new();
                    operands.push(Operand::Move(borrow));
                    operands.push(Operand::Move(arg));
                    assert(operands@ =~= seq![Operand::Move(borrow), Operand::Move(arg)]);
                    self.call(Callee::VecPush, operands, dest)?;
                    let mut temps: Vec<Local> = Vec::new();
                    temps.push(arg);
                    temps.push(borrow);
                    proof {
                        assert(temps@ =~= seq![arg, borrow]);
                        lemma_kill(self@, temps@);
                    }
                    self.storage_dead(&temps);
                    Ok(())
                } else if str_eq(method.as_str(), "len") {
                    let recv_local: Local = match &**receiver {
                        Expr::Var(name) => match self.local_map.get(name.as_str()) {
                            Some(local) => *local,
                            None => {
                                return Err(LowerError::LenReceiverNotFound(name));
                            },
                        },
                        _ => {
                            return Err(LowerError::LenReceiverNotVariable);
                        },
                    };
                    let mut operands: Vec<Operand> = Vec::new();
                    operands.push(Operand::Copy(recv_local));
                    assert(operands@ =~= seq![Operand::Copy(recv_local)]);
                    self.call(Callee::VecLen, operands, dest)
                } else {
                    Err(LowerError::UnhandledExpr(expr))
                }
            },
        }
    }

    /// Lowers a statement.
    fn lower_stmt<'a>(&mut self, stmt: &'a Stmt) -> (r: Result<(), LowerError<'a>>)
        requires
            old(self)@.wf(),
        ensures
            agrees(r, final(self)@, lower_statement(old(self)@, stmt@)),
            r is Ok ==> final(self)@.wf(),
    {
        match stmt {
            Stmt::Let { name, expr } => {
                let local: Local = self.fresh_local(expr)?;
                self.local_map.insert(name.clone(), local);
                self.lower_expr_into(expr, local)
            },
            Stmt::ExprStmt(expr) => {
                let local: Local = self.fresh_local(expr)?;
                self.lower_expr_into(expr, local)?;
                self.emit(Statement::StorageDead(local));
                Ok(())
            },
        }
    }

    /// A body before its first statement.
    fn begin<'a>(param_names: &Vec<String>, inputs: usize) -> (r: Result<Lower, LowerError<'a>>)
        ensures
            match r {
                Ok(lower) => {
                    let n = arg_locals(views(param_names@), inputs as int);
                    n <= MAX_INDEX && lower@ == entry(views(param_names@), n) && lower@.wf()
                },
                Err(e) => e@ == LowerErrorView::TooManyLocals && arg_locals(
                    views(param_names@),
                    inputs as int,
                ) > MAX_INDEX,
            },
    {
        let count: usize = if param_names.len() <= inputs {
            param_names.len()
        } else {
            inputs
        };
        if count > MAX_INDEX {
            return Err(LowerError::TooManyLocals);
        }
        let ghost params = views(param_names@);
        let mut lower: Lower = Lower {
            locals: Vec::new(),
            local_map: NameMap::new(),
            blocks: Vec::new(),
            current_stmts: Vec::new(),
        };
        lower.locals.push(MirTy::Output);
        proof {
            assert(lower@.locals =~= seq![MirTy::Output]);
            assert(lower@.blocks =~= Seq::empty());
            assert(lower@.current =~= Seq::empty());
        }
        let mut i: usize = 0;
        while i < count
            invariant
                i <= count <= param_names@.len(),
                count <= MAX_INDEX,
                params == views(param_names@),
                lower@ == entry(params, i as int),
                lower@.locals.len() == i + 1,
                lower@.wf(),
            decreases count - i,
        {
            let ghost before = lower@;
            let local: Local = lower.locals.len();
            lower.locals.push(MirTy::Input(i));
            lower.local_map.insert(param_names[i].clone(), local);
            assert forall|name: Seq<char>| #[trigger]
                lower@.names.contains_key(name) implies lower@.names[name] < lower@.locals.len() by {
                assert(name == params[i as int] || before.names.contains_key(name));
            }
            i = i + 1;
        }
        Ok(lower)
    }
}

/// Whether a result is the lowering of a function body, or the error with which it is refused.
pub open spec fn is_lowering(
    r: Result<Body, LowerError<'_>>,
    params: Seq<Seq<char>>,
    inputs: int,
    body: FnBodyView,
) -> bool {
    match (r, lower_body(params, inputs, body)) {
        (Ok(lowered), Ok(view)) => lowered@ == view,
        (Err(e), Err(err)) => e@ == err,
        _ => false,
    }
}

/// Lowers a function body. `param_names` are in the order of the `inputs` parameters that the
/// signature of the function has.
pub fn build_body<'a>(param_names: &Vec<String>, inputs: usize, fn_body: &'a FnBody) -> (r: Result<
    Body,
    LowerError<'a>,
>)
    ensures
        is_lowering(r, views(param_names@), inputs as int, fn_body@),
{
    let mut lower: Lower = Lower::begin(param_names, inputs)?;
    let ghost start = lower@;
    let mut i: usize = 0;
    assert(fn_body@.stmts.take(0) =~= Seq::empty());
    while i < fn_body.stmts.len()
        invariant
            i <= fn_body.stmts@.len(),
            lower@.wf(),
            start == entry(
                views(param_names@),
                arg_locals(views(param_names@), inputs as int),
            ),
            arg_locals(views(param_names@), inputs as int) <= MAX_INDEX,
            lower_statements(start, fn_body@.stmts.take(i as int)) == Ok::<
                LowerView,
                LowerErrorView,
            >(lower@),
        decreases fn_body.stmts.len() - i,
    {
        proof {
            let shorter = fn_body@.stmts.take(i as int);
            let longer = fn_body@.stmts.take(i + 1);
            assert(longer.drop_last() =~= shorter);
            assert(longer.last() == fn_body.stmts@[i as int]@);
            if lower_statement(lower@, longer.last()) is Err {
                lemma_failing_statement(start, fn_body@.stmts, i + 1);
            }
        }
        lower.lower_stmt(&fn_body.stmts[i])?;
        i = i + 1;
    }
    assert(fn_body@.stmts.take(i as int) =~= fn_body@.stmts);
    match &fn_body.ret {
        Some(expr) => {
            lower.lower_expr_into(expr, 0)?;
        },
        None => {},
    }
    lower.finalize_block(Terminator::Return)?;
    let Lower { locals, local_map: _, blocks, current_stmts: _ } = lower;
    Ok(Body { source: BodySource::Item, blocks, locals, arg_count: inputs, lists_set: false })
}

/// A body whose first statements fail to lower fails with the same error.
proof fn lemma_failing_statement(s: LowerView, stmts: Seq<StmtView>, i: int)
    requires
        0 <= i <= stmts.len(),
        lower_statements(s, stmts.take(i)) is Err,
    ensures
        lower_statements(s, stmts) == lower_statements(s, stmts.take(i)),
    decreases stmts.len() - i,
{
    if i == stmts.len() {
        assert(stmts.take(i) =~= stmts);
    } else {
        assert(stmts.take(i + 1).drop_last() =~= stmts.take(i));
        lemma_failing_statement(s, stmts, i + 1);
    }
}

} // verus!
