//! The syntax tree of function bodies.
use vstd::prelude::*;

use crate::text::{
    concat3, debug_str, decimal, differ_in, holds_text, join, join_strings,
    law_joined_parts_are_held, lemma_holds_through, quoted, signed_text, views,
};

verus! {

/// An expression.
#[derive(Debug)]
pub enum Expr {
    /// An integer literal.
    IntLit(i64),
    /// A variable or a parameter.
    Var(String),
    /// `ty::method(args)`
    StaticCall { ty: String, method: String, args: Vec<Expr> },
    /// `receiver.method(args)`
    MethodCall { receiver: Box<Expr>, method: String, args: Vec<Expr> },
    /// `name { field: value, .. }`
    StructLit { name: String, fields: Vec<(String, Expr)> },
}

/// A statement.
#[derive(Debug)]
pub enum Stmt {
    /// `let name = expr;`
    Let { name: String, expr: Expr },
    /// `expr;`
    ExprStmt(Expr),
}

/// A function body: statements, and a trailing expression that is the value of the function.
#[derive(Debug)]
pub struct FnBody {
    pub stmts: Vec<Stmt>,
    pub ret: Option<Expr>,
}

/// An expression, as contracts speak of it.
#[verifier::ext_equal]
pub enum ExprView {
    IntLit(int),
    Var(Seq<char>),
    StaticCall { ty: Seq<char>, method: Seq<char>, args: Seq<ExprView> },
    MethodCall { receiver: Box<ExprView>, method: Seq<char>, args: Seq<ExprView> },
    StructLit { name: Seq<char>, fields: Seq<(Seq<char>, ExprView)> },
}

/// A statement, as contracts speak of it.
#[verifier::ext_equal]
pub enum StmtView {
    Let { name: Seq<char>, expr: ExprView },
    ExprStmt(ExprView),
}

/// A function body, as contracts speak of it.
#[verifier::ext_equal]
pub struct FnBodyView {
    pub stmts: Seq<StmtView>,
    pub ret: Option<ExprView>,
}

/// What an expression holds.
pub open spec fn expr_view(e: Expr) -> ExprView
    decreases e,
{
    match e {
        Expr::IntLit(n) => ExprView::IntLit(n as int),
        Expr::Var(name) => ExprView::Var(name@),
        Expr::StaticCall { ty, method, args } => ExprView::StaticCall {
            ty: ty@,
            method: method@,
            args: Seq::new(
                args@.len(),
                |i: int|
                    if 0 <= i < args@.len() {
                        expr_view(args@[i])
                    } else {
                        arbitrary()
                    },
            ),
        },
        Expr::MethodCall { receiver, method, args } => ExprView::MethodCall {
            receiver: Box::new(expr_view(*receiver)),
            method: method@,
            args: Seq::new(
                args@.len(),
                |i: int|
                    if 0 <= i < args@.len() {
                        expr_view(args@[i])
                    } else {
                        arbitrary()
                    },
            ),
        },
        Expr::StructLit { name, fields } => ExprView::StructLit {
            name: name@,
            fields: Seq::new(
                fields@.len(),
                |i: int|
                    if 0 <= i < fields@.len() {
                        (fields@[i].0@, expr_view(fields@[i].1))
                    } else {
                        arbitrary()
                    },
            ),
        },
    }
}

impl View for Expr {
    type V = ExprView;

    open spec fn view(&self) -> ExprView {
        expr_view(*self)
    }
}

impl View for Stmt {
    type V = StmtView;

    open spec fn view(&self) -> StmtView {
        match self {
            Stmt::Let { name, expr } => StmtView::Let { name: name@, expr: expr@ },
            Stmt::ExprStmt(expr) => StmtView::ExprStmt(expr@),
        }
    }
}

impl View for FnBody {
    type V = FnBodyView;

    open spec fn view(&self) -> FnBodyView {
        FnBodyView {
            stmts: views(self.stmts@),
            ret: match self.ret {
                Some(e) => Some(e@),
                None => None,
            },
        }
    }
}

/// What an expression with parts holds, said of the parts.
pub proof fn lemma_expr_view(e: Expr)
    ensures
        match e {
            Expr::IntLit(n) => e@ == ExprView::IntLit(n as int),
            Expr::Var(name) => e@ == ExprView::Var(name@),
            Expr::StaticCall { ty, method, args } => e@ == (ExprView::StaticCall {
                ty: ty@,
                method: method@,
                args: views(args@),
            }),
            Expr::MethodCall { receiver, method, args } => e@ == (ExprView::MethodCall {
                receiver: Box::new(receiver@),
                method: method@,
                args: views(args@),
            }),
            Expr::StructLit { name, fields } => e@ == (ExprView::StructLit {
                name: name@,
                fields: views(fields@),
            }),
        },
{
    match e {
        Expr::StaticCall { ty, method, args } => {
            assert(e@->StaticCall_args =~= views(args@));
        },
        Expr::MethodCall { receiver, method, args } => {
            assert(e@->MethodCall_args =~= views(args@));
        },
        Expr::StructLit { name, fields } => {
            assert(e@->fields =~= views(fields@));
        },
        _ => {},
    }
}

/// How an expression is written in an error message.
pub open spec fn expr_shown(e: ExprView) -> Seq<char>
    decreases e, 0int,
{
    match e {
        ExprView::IntLit(n) => "IntLit("@ + decimal(n) + ")"@,
        ExprView::Var(name) => "Var("@ + quoted(name) + ")"@,
        ExprView::StaticCall { ty, method, args } => "StaticCall { ty: "@ + quoted(ty)
            + ", method: "@ + quoted(method) + ", args: ["@ + join(
            args_shown(args, args.len() as int),
            ", "@,
        ) + "] }"@,
        ExprView::MethodCall { receiver, method, args } => "MethodCall { receiver: "@ + expr_shown(
            *receiver,
        ) + ", method: "@ + quoted(method) + ", args: ["@ + join(
            args_shown(args, args.len() as int),
            ", "@,
        ) + "] }"@,
        ExprView::StructLit { name, fields } => "StructLit { name: "@ + quoted(name)
            + ", fields: ["@ + join(fields_shown(fields, fields.len() as int), ", "@) + "] }"@,
    }
}

/// How the first `n` of a row of arguments are written in an error message.
pub open spec fn args_shown(args: Seq<ExprView>, n: int) -> Seq<Seq<char>>
    decreases args, n,
{
    if 0 < n <= args.len() {
        args_shown(args, n - 1).push(expr_shown(args[n - 1]))
    } else {
        Seq::empty()
    }
}

/// How the first `n` fields of a struct literal are written in an error message.
pub open spec fn fields_shown(fields: Seq<(Seq<char>, ExprView)>, n: int) -> Seq<Seq<char>>
    decreases fields, n,
{
    if 0 < n <= fields.len() {
        fields_shown(fields, n - 1).push(
            "("@ + quoted(fields[n - 1].0) + ", "@ + expr_shown(fields[n - 1].1) + ")"@,
        )
    } else {
        Seq::empty()
    }
}

impl Expr {
    /// How the expression is written in an error message.
    pub fn show(&self) -> (r: String)
        ensures
            r@ == expr_shown(self@),
        decreases self,
    {
        proof {
            lemma_expr_view(*self);
        }
        match self {
            Expr::IntLit(n) => concat3("IntLit(", signed_text(*n).as_str(), ")"),
            Expr::Var(name) => concat3("Var(", debug_str(name.as_str()).as_str(), ")"),
            Expr::StaticCall { ty, method, args } => {
                let mut parts: Vec<String> = Vec::new();
                let mut i: usize = 0;
                assert(views(parts@) =~= Seq::empty());
                while i < args.len()
                    invariant
                        i <= args@.len(),
                        views(parts@) == args_shown(views(args@), i as int),
                        decreases_to!(*self => *args),
                    decreases args.len() - i,
                {
                    let ghost before = parts@;
                    parts.push(args[i].show());
                    i = i + 1;
                    assert(views(parts@) =~= views(before).push(parts@.last()@));
                }
                let mut r: String = "StaticCall { ty: ".to_owned();
                r.append(debug_str(ty.as_str()).as_str());
                r.append(", method: ");
                r.append(debug_str(method.as_str()).as_str());
                r.append(", args: [");
                r.append(join_strings(&parts, ", ").as_str());
                r.append("] }");
                r
            },
            Expr::MethodCall { receiver, method, args } => {
                let mut parts: Vec<String> = Vec::new();
                let mut i: usize = 0;
                assert(views(parts@) =~= Seq::empty());
                while i < args.len()
                    invariant
                        i <= args@.len(),
                        views(parts@) == args_shown(views(args@), i as int),
                        decreases_to!(*self => *args),
                    decreases args.len() - i,
                {
                    let ghost before = parts@;
                    parts.push(args[i].show());
                    i = i + 1;
                    assert(views(parts@) =~= views(before).push(parts@.last()@));
                }
                let mut r: String = "MethodCall { receiver: ".to_owned();
                r.append((&**receiver).show().as_str());
                r.append(", method: ");
                r.append(debug_str(method.as_str()).as_str());
                r.append(", args: [");
                r.append(join_strings(&parts, ", ").as_str());
                r.append("] }");
                r
            },
            Expr::StructLit { name, fields } => {
                let mut parts: Vec<String> = Vec::new();
                let mut i: usize = 0;
                assert(views(parts@) =~= Seq::empty());
                while i < fields.len()
                    invariant
                        i <= fields@.len(),
                        views(parts@) == fields_shown(views(fields@), i as int),
                        decreases_to!(*self => *fields),
                    decreases fields.len() - i,
                {
                    let mut part: String = "(".to_owned();
                    part.append(debug_str(fields[i].0.as_str()).as_str());
                    part.append(", ");
                    part.append(fields[i].1.show().as_str());
                    part.append(")");
                    let ghost before = parts@;
                    parts.push(part);
                    i = i + 1;
                    assert(views(parts@) =~= views(before).push(part@));
                }
                let mut r: String = "StructLit { name: ".to_owned();
                r.append(debug_str(name.as_str()).as_str());
                r.append(", fields: [");
                r.append(join_strings(&parts, ", ").as_str());
                r.append("] }");
                r
            },
        }
    }
}

impl Clone for Expr {
    fn clone(&self) -> (r: Self)
        ensures
            r@ == self@,
        decreases self,
    {
        let r: Expr = match self {
            Expr::IntLit(n) => Expr::IntLit(*n),
            Expr::Var(name) => Expr::Var(name.clone()),
            Expr::StaticCall { ty, method, args } => {
                let mut copies: Vec<Expr> = Vec::new();
                let mut i: usize = 0;
                while i < args.len()
                    invariant
                        i == copies@.len(),
                        i <= args@.len(),
                        forall|k: int| 0 <= k < i ==> (#[trigger] copies@[k])@ == args@[k]@,
                        decreases_to!(*self => *args),
                    decreases args.len() - i,
                {
                    copies.push(args[i].clone());
                    i = i + 1;
                }
                assert(views(copies@) =~= views(args@));
                Expr::StaticCall { ty: ty.clone(), method: method.clone(), args: copies }
            },
            Expr::MethodCall { receiver, method, args } => {
                let mut copies: Vec<Expr> = Vec::new();
                let mut i: usize = 0;
                while i < args.len()
                    invariant
                        i == copies@.len(),
                        i <= args@.len(),
                        forall|k: int| 0 <= k < i ==> (#[trigger] copies@[k])@ == args@[k]@,
                        decreases_to!(*self => *args),
                    decreases args.len() - i,
                {
                    copies.push(args[i].clone());
                    i = i + 1;
                }
                assert(views(copies@) =~= views(args@));
                Expr::MethodCall {
                    receiver: Box::new((&**receiver).clone()),
                    method: method.clone(),
                    args: copies,
                }
            },
            Expr::StructLit { name, fields } => {
                let mut copies: Vec<(String, Expr)> = Vec::new();
                let mut i: usize = 0;
                while i < fields.len()
                    invariant
                        i == copies@.len(),
                        i <= fields@.len(),
                        forall|k: int|
                            0 <= k < i ==> (#[trigger] copies@[k]).0@ == fields@[k].0@
                                && copies@[k].1@ == fields@[k].1@,
                        decreases_to!(*self => *fields),
                    decreases fields.len() - i,
                {
                    copies.push((fields[i].0.clone(), fields[i].1.clone()));
                    i = i + 1;
                }
                assert(views(copies@) =~= views(fields@));
                Expr::StructLit { name: name.clone(), fields: copies }
            },
        };
        proof {
            lemma_expr_view(*self);
            lemma_expr_view(r);
        }
        r
    }
}

impl Clone for Stmt {
    fn clone(&self) -> (r: Self)
        ensures
            r@ == self@,
    {
        match self {
            Stmt::Let { name, expr } => Stmt::Let { name: name.clone(), expr: expr.clone() },
            Stmt::ExprStmt(expr) => Stmt::ExprStmt(expr.clone()),
        }
    }
}

impl Clone for FnBody {
    fn clone(&self) -> (r: Self)
        ensures
            r@ == self@,
    {
        let mut stmts: Vec<Stmt> = Vec::new();
        let mut i: usize = 0;
        while i < self.stmts.len()
            invariant
                i == stmts@.len(),
                i <= self.stmts@.len(),
                forall|k: int| 0 <= k < i ==> (#[trigger] stmts@[k])@ == self.stmts@[k]@,
            decreases self.stmts.len() - i,
        {
            stmts.push(self.stmts[i].clone());
            i = i + 1;
        }
        let ret: Option<Expr> = match &self.ret {
            Some(e) => Some(e.clone()),
            None => None,
        };
        let r: FnBody = FnBody { stmts, ret };
        assert(r@.stmts =~= self@.stmts);
        r
    }
}

/// Whether an expression is made of another one, directly.
pub open spec fn is_part(part: ExprView, e: ExprView) -> bool {
    match e {
        ExprView::IntLit(_) => false,
        ExprView::Var(_) => false,
        ExprView::StaticCall { args, .. } => args.contains(part),
        ExprView::MethodCall { receiver, args, .. } => part == *receiver || args.contains(part),
        ExprView::StructLit { fields, .. } => exists|k: int|
            0 <= k < fields.len() && (#[trigger] fields[k]).1 == part,
    }
}

proof fn lemma_args_shown(args: Seq<ExprView>, n: int)
    requires
        0 <= n <= args.len(),
    ensures
        args_shown(args, n).len() == n,
        forall|k: int| 0 <= k < n ==> #[trigger] args_shown(args, n)[k] == expr_shown(args[k]),
    decreases n,
{
    if n > 0 {
        lemma_args_shown(args, n - 1);
    }
}

#[verifier::rlimit(40)]
proof fn lemma_fields_shown(fields: Seq<(Seq<char>, ExprView)>, n: int)
    requires
        0 <= n <= fields.len(),
    ensures
        fields_shown(fields, n).len() == n,
        forall|k: int|
            0 <= k < n ==> holds_text(
                #[trigger] fields_shown(fields, n)[k],
                expr_shown(fields[k].1),
            ) && holds_text(fields_shown(fields, n)[k], quoted(fields[k].0)),
    decreases n,
{
    if n > 0 {
        lemma_fields_shown(fields, n - 1);
        let (name, value) = fields[n - 1];
        let text = "("@ + quoted(name) + ", "@ + expr_shown(value) + ")"@;
        assert(text =~= ("("@ + quoted(name) + ", "@) + expr_shown(value) + ")"@);
        assert(text =~= "("@ + quoted(name) + (", "@ + expr_shown(value) + ")"@));
        assert(fields_shown(fields, n)[n - 1] == text);
        assert forall|k: int| 0 <= k < n implies holds_text(
            #[trigger] fields_shown(fields, n)[k],
            expr_shown(fields[k].1),
        ) && holds_text(fields_shown(fields, n)[k], quoted(fields[k].0)) by {
            if k < n - 1 {
                assert(fields_shown(fields, n)[k] == fields_shown(fields, n - 1)[k]);
            }
        }
    }
}

/// How an expression is written in an error message holds how each of its parts is written.
#[verifier::rlimit(40)]
pub proof fn law_parts_are_shown(e: ExprView, part: ExprView)
    requires
        is_part(part, e),
    ensures
        holds_text(expr_shown(e), expr_shown(part)),
{
    let whole = expr_shown(e);
    match e {
        ExprView::StaticCall { ty, method, args } => {
            let k = args.index_of(part);
            let texts = args_shown(args, args.len() as int);
            lemma_args_shown(args, args.len() as int);
            law_joined_parts_are_held(texts, ", "@, k);
            let head = "StaticCall { ty: "@ + quoted(ty) + ", method: "@ + quoted(method)
                + ", args: ["@;
            assert(whole == head + join(texts, ", "@) + "] }"@);
            lemma_holds_through(whole, join(texts, ", "@), expr_shown(part));
        },
        ExprView::MethodCall { receiver, method, args } => {
            let texts = args_shown(args, args.len() as int);
            let open = "MethodCall { receiver: "@;
            let head = open + expr_shown(*receiver) + ", method: "@ + quoted(method)
                + ", args: ["@;
            assert(whole == head + join(texts, ", "@) + "] }"@);
            assert(whole =~= open + expr_shown(*receiver) + (", method: "@ + quoted(method)
                + ", args: ["@ + join(texts, ", "@) + "] }"@));
            if part != *receiver {
                let k = args.index_of(part);
                lemma_args_shown(args, args.len() as int);
                law_joined_parts_are_held(texts, ", "@, k);
                lemma_holds_through(whole, join(texts, ", "@), expr_shown(part));
            }
        },
        ExprView::StructLit { name, fields } => {
            let k = choose|k: int| 0 <= k < fields.len() && (#[trigger] fields[k]).1 == part;
            let texts = fields_shown(fields, fields.len() as int);
            lemma_fields_shown(fields, fields.len() as int);
            law_joined_parts_are_held(texts, ", "@, k);
            let head = "StructLit { name: "@ + quoted(name) + ", fields: ["@;
            assert(whole == head + join(texts, ", "@) + "] }"@);
            lemma_holds_through(whole, join(texts, ", "@), texts[k]);
            lemma_holds_through(whole, texts[k], expr_shown(part));
        },
        _ => {},
    }
}

/// How an expression is written in an error message holds its number or its names, the names in
/// double quotes.
#[verifier::rlimit(40)]
pub proof fn law_names_are_shown(e: ExprView)
    ensures
        match e {
            ExprView::IntLit(n) => holds_text(expr_shown(e), decimal(n)),
            ExprView::Var(name) => holds_text(expr_shown(e), quoted(name)),
            ExprView::StaticCall { ty, method, .. } => holds_text(expr_shown(e), quoted(ty))
                && holds_text(expr_shown(e), quoted(method)),
            ExprView::MethodCall { method, .. } => holds_text(expr_shown(e), quoted(method)),
            ExprView::StructLit { name, fields } => holds_text(expr_shown(e), quoted(name)) && (
            forall|k: int|
                0 <= k < fields.len() ==> holds_text(
                    expr_shown(e),
                    quoted((#[trigger] fields[k]).0),
                )),
        },
{
    let whole = expr_shown(e);
    match e {
        ExprView::StaticCall { ty, method, args } => {
            let rest = ", args: ["@ + join(args_shown(args, args.len() as int), ", "@) + "] }"@;
            assert(whole =~= "StaticCall { ty: "@ + quoted(ty) + (", method: "@ + quoted(method)
                + rest));
            assert(whole =~= ("StaticCall { ty: "@ + quoted(ty) + ", method: "@) + quoted(method)
                + rest);
        },
        ExprView::MethodCall { receiver, method, args } => {
            let rest = ", args: ["@ + join(args_shown(args, args.len() as int), ", "@) + "] }"@;
            assert(whole =~= ("MethodCall { receiver: "@ + expr_shown(*receiver) + ", method: "@)
                + quoted(method) + rest);
        },
        ExprView::StructLit { name, fields } => {
            let texts = fields_shown(fields, fields.len() as int);
            let rest = ", fields: ["@ + join(texts, ", "@) + "] }"@;
            assert(whole =~= "StructLit { name: "@ + quoted(name) + rest);
            let head = "StructLit { name: "@ + quoted(name) + ", fields: ["@;
            assert(whole == head + join(texts, ", "@) + "] }"@);
            lemma_fields_shown(fields, fields.len() as int);
            assert forall|k: int| 0 <= k < fields.len() implies holds_text(
                whole,
                quoted((#[trigger] fields[k]).0),
            ) by {
                law_joined_parts_are_held(texts, ", "@, k);
                lemma_holds_through(whole, join(texts, ", "@), texts[k]);
                lemma_holds_through(whole, texts[k], quoted(fields[k].0));
            }
        },
        _ => {},
    }
}

/// How two literals or two variables are written differs only in the number or the name.
pub proof fn law_leaves_differ_in_what_they_hold(m: int, n: int, a: Seq<char>, b: Seq<char>)
    ensures
        differ_in(
            expr_shown(ExprView::IntLit(m)),
            decimal(m),
            expr_shown(ExprView::IntLit(n)),
            decimal(n),
        ),
        differ_in(
            expr_shown(ExprView::Var(a)),
            quoted(a),
            expr_shown(ExprView::Var(b)),
            quoted(b),
        ),
{
    assert(expr_shown(ExprView::IntLit(m)) == "IntLit("@ + decimal(m) + ")"@);
    assert(expr_shown(ExprView::IntLit(n)) == "IntLit("@ + decimal(n) + ")"@);
    assert(expr_shown(ExprView::Var(a)) == "Var("@ + quoted(a) + ")"@);
    assert(expr_shown(ExprView::Var(b)) == "Var("@ + quoted(b) + ")"@);
}

/// How a method call is written, said of the texts of its arguments.
proof fn lemma_method_call_shown(
    receiver: ExprView,
    method: Seq<char>,
    args: Seq<ExprView>,
    texts: Seq<Seq<char>>,
)
    requires
        texts.len() == args.len(),
        forall|k: int| 0 <= k < args.len() ==> #[trigger] texts[k] == expr_shown(args[k]),
    ensures
        expr_shown(ExprView::MethodCall { receiver: Box::new(receiver), method, args })
            == "MethodCall { receiver: "@ + expr_shown(receiver) + ", method: "@ + quoted(method)
            + ", args: ["@ + join(texts, ", "@) + "] }"@,
{
    lemma_args_shown(args, args.len() as int);
    assert(args_shown(args, args.len() as int) =~= texts);
}

/// How a call of an associated function is written, said of the texts of its arguments.
proof fn lemma_static_call_shown(
    ty: Seq<char>,
    method: Seq<char>,
    args: Seq<ExprView>,
    texts: Seq<Seq<char>>,
)
    requires
        texts.len() == args.len(),
        forall|k: int| 0 <= k < args.len() ==> #[trigger] texts[k] == expr_shown(args[k]),
    ensures
        expr_shown(ExprView::StaticCall { ty, method, args }) == "StaticCall { ty: "@ + quoted(ty)
            + ", method: "@ + quoted(method) + ", args: ["@ + join(texts, ", "@) + "] }"@,
{
    lemma_args_shown(args, args.len() as int);
    assert(args_shown(args, args.len() as int) =~= texts);
}

/// How two method calls are written differs only in the receivers where only these differ.
pub proof fn law_method_calls_differ_in_the_receiver(
    a: ExprView,
    b: ExprView,
    method: Seq<char>,
    args: Seq<ExprView>,
)
    ensures
        differ_in(
            expr_shown(ExprView::MethodCall { receiver: Box::new(a), method, args }),
            expr_shown(a),
            expr_shown(ExprView::MethodCall { receiver: Box::new(b), method, args }),
            expr_shown(b),
        ),
{
    let texts = args_shown(args, args.len() as int);
    lemma_args_shown(args, args.len() as int);
    lemma_method_call_shown(a, method, args, texts);
    lemma_method_call_shown(b, method, args, texts);
    let open = "MethodCall { receiver: "@;
    let named = ", method: "@;
    let listed = ", args: ["@;
    let end = "] }"@;
    let rest = named + quoted(method) + listed + join(texts, ", "@) + end;
    lemma_regroup(open, expr_shown(a), named, quoted(method), listed, join(texts, ", "@), end);
    lemma_regroup(open, expr_shown(b), named, quoted(method), listed, join(texts, ", "@), end);
    assert(expr_shown(ExprView::MethodCall { receiver: Box::new(a), method, args }) == open
        + expr_shown(a) + rest);
    assert(expr_shown(ExprView::MethodCall { receiver: Box::new(b), method, args }) == open
        + expr_shown(b) + rest);
}

proof fn lemma_regroup(
    a: Seq<char>,
    b: Seq<char>,
    c: Seq<char>,
    d: Seq<char>,
    e: Seq<char>,
    f: Seq<char>,
    g: Seq<char>,
)
    ensures
        a + b + c + d + e + f + g == a + b + (c + d + e + f + g),
{
    assert(a + b + c + d + e + f + g =~= a + b + (c + d + e + f + g));
}

/// How two calls are written differs only in the arguments where only these differ. Between the
/// arguments stand commas.
pub proof fn law_calls_differ_in_the_arguments(
    receiver: ExprView,
    ty: Seq<char>,
    method: Seq<char>,
    args: Seq<ExprView>,
    others: Seq<ExprView>,
    texts: Seq<Seq<char>>,
    other_texts: Seq<Seq<char>>,
)
    requires
        texts.len() == args.len(),
        forall|k: int| 0 <= k < args.len() ==> #[trigger] texts[k] == expr_shown(args[k]),
        other_texts.len() == others.len(),
        forall|k: int| 0 <= k < others.len() ==> #[trigger] other_texts[k] == expr_shown(others[k]),
    ensures
        differ_in(
            expr_shown(ExprView::MethodCall { receiver: Box::new(receiver), method, args }),
            join(texts, ", "@),
            expr_shown(ExprView::MethodCall { receiver: Box::new(receiver), method, args: others }),
            join(other_texts, ", "@),
        ),
        differ_in(
            expr_shown(ExprView::StaticCall { ty, method, args }),
            join(texts, ", "@),
            expr_shown(ExprView::StaticCall { ty, method, args: others }),
            join(other_texts, ", "@),
        ),
{
    lemma_method_call_shown(receiver, method, args, texts);
    lemma_method_call_shown(receiver, method, others, other_texts);
    lemma_static_call_shown(ty, method, args, texts);
    lemma_static_call_shown(ty, method, others, other_texts);
}

} // verus!
