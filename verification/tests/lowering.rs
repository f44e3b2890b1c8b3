use toylang::mir::{Body, BodySource, Callee, MirTy, Operand, Rvalue, Statement, Terminator};
use toylang::toylang::ast::FnBody;
use toylang::toylang::lower::{build_body, LowerError};
use toylang::toylang::parser::parse;

/// The body of the function `f`.
fn fn_body(src: &str) -> FnBody {
    let registry = parse(src).unwrap_or_else(|message| panic!("{}", message));
    registry.functions.get("f").unwrap().body.clone().unwrap()
}

fn lowered(src: &str, params: &[&str]) -> Body {
    let names: Vec<String> = params.iter().map(|s| s.to_string()).collect();
    let body = fn_body(src);
    let r = build_body(&names, params.len(), &body);
    match r {
        Ok(body) => body,
        Err(err) => panic!("{:?}", err),
    }
}

fn failure(src: &str, params: &[&str]) -> String {
    let names: Vec<String> = params.iter().map(|s| s.to_string()).collect();
    let body = fn_body(src);
    let r = build_body(&names, params.len(), &body);
    match r {
        Ok(_) => panic!("lowered"),
        Err(err) => format!("{:?}", err),
    }
}

fn operand(op: &Operand) -> String {
    match op {
        Operand::Copy(l) => format!("copy _{}", l),
        Operand::Move(l) => format!("move _{}", l),
        Operand::ConstI32(n) => format!("const {}_i32", n),
    }
}

fn operands(ops: &[Operand]) -> String {
    ops.iter().map(operand).collect::<Vec<String>>().join(", ")
}

/// A body in the notation in which the compiler dumps one.
fn listing(body: &Body) -> Vec<String> {
    let mut lines = Vec::new();
    for (i, block) in body.blocks.iter().enumerate() {
        lines.push(format!("bb{}:", i));
        for stmt in &block.statements {
            lines.push(match stmt {
                Statement::StorageLive(l) => format!("live _{}", l),
                Statement::StorageDead(l) => format!("dead _{}", l),
                Statement::Assign(l, Rvalue::Use(op)) => format!("_{} = {}", l, operand(op)),
                Statement::Assign(l, Rvalue::RefMut(r)) => format!("_{} = &mut _{}", l, r),
                Statement::Assign(l, Rvalue::Aggregate(ops)) => {
                    format!("_{} = Point {{ {} }}", l, operands(ops))
                }
            });
        }
        lines.push(match &block.terminator {
            Terminator::Return => "return".to_string(),
            Terminator::Call { func, args, destination, target } => {
                format!("_{} = {:?}({}) -> bb{}", destination, func, operands(args), target)
            }
        });
    }
    lines
}

#[test]
fn make_vec_listing() {
    let body = lowered(
        "fn f() -> Vec<Point> {
            let v = Vec::new();
            v.push(Point { x: 1, y: 2 });
            v.push(Point { x: 3, y: 4 });
            v
        }",
        &[],
    );
    assert_eq!(
        body.locals,
        vec![
            MirTy::Output,
            MirTy::VecOfElem,
            MirTy::Unit,
            MirTy::MutRefVec,
            MirTy::Elem,
            MirTy::I32,
            MirTy::I32,
            MirTy::Unit,
            MirTy::MutRefVec,
            MirTy::Elem,
            MirTy::I32,
            MirTy::I32,
        ]
    );
    assert_eq!(body.arg_count, 0);
    assert_eq!(body.source, BodySource::Item);
    assert!(!body.lists_set);
    assert_eq!(
        listing(&body),
        vec![
            "bb0:",
            "live _1",
            "_1 = VecNew() -> bb1",
            "bb1:",
            "live _2",
            "live _3",
            "_3 = &mut _1",
            "live _4",
            "live _5",
            "_5 = const 1_i32",
            "live _6",
            "_6 = const 2_i32",
            "_4 = Point { move _5, move _6 }",
            "dead _5",
            "dead _6",
            "_2 = VecPush(move _3, move _4) -> bb2",
            "bb2:",
            "dead _4",
            "dead _3",
            "dead _2",
            "live _7",
            "live _8",
            "_8 = &mut _1",
            "live _9",
            "live _10",
            "_10 = const 3_i32",
            "live _11",
            "_11 = const 4_i32",
            "_9 = Point { move _10, move _11 }",
            "dead _10",
            "dead _11",
            "_7 = VecPush(move _8, move _9) -> bb3",
            "bb3:",
            "dead _9",
            "dead _8",
            "dead _7",
            "_0 = move _1",
            "return",
        ]
    );
}

#[test]
fn vec_len_listing() {
    let body = lowered("fn f(v: &Vec<Point>) -> usize { v.len() }", &["v"]);
    assert_eq!(body.locals, vec![MirTy::Output, MirTy::Input(0)]);
    assert_eq!(body.arg_count, 1);
    assert_eq!(
        listing(&body),
        vec!["bb0:", "_0 = VecLen(copy _1) -> bb1", "bb1:", "return"]
    );
}

#[test]
fn empty_body() {
    let body = lowered("fn f() {}", &[]);
    assert_eq!(listing(&body), vec!["bb0:", "return"]);
    assert_eq!(body.locals, vec![MirTy::Output]);
}

#[test]
fn literals_are_cut_to_thirty_two_bits() {
    assert_eq!(
        listing(&lowered("fn f() { 4294967295 }", &[])),
        vec!["bb0:", "_0 = const -1_i32", "return"]
    );
    assert_eq!(
        listing(&lowered("fn f() { 2147483648 }", &[])),
        vec!["bb0:", "_0 = const -2147483648_i32", "return"]
    );
}

#[test]
fn variables_are_moved_and_may_be_bound_again() {
    let body = lowered("fn f(a: A, b: B) { let a = b; a; a }", &["a", "b"]);
    assert_eq!(
        body.locals,
        vec![MirTy::Output, MirTy::Input(0), MirTy::Input(1), MirTy::Input(1), MirTy::Input(1)]
    );
    assert_eq!(
        listing(&body),
        vec![
            "bb0:",
            "live _3",
            "_3 = move _2",
            "live _4",
            "_4 = move _3",
            "dead _4",
            "_0 = move _3",
            "return",
        ]
    );
}

#[test]
fn calls_inside_literals_and_arguments() {
    let body = lowered("fn f(v: V) { P { a: v.len(), b: 7 } }", &["v"]);
    assert_eq!(
        listing(&body),
        vec![
            "bb0:",
            "live _2",
            "_2 = VecLen(copy _1) -> bb1",
            "bb1:",
            "live _3",
            "_3 = const 7_i32",
            "_0 = Point { move _2, move _3 }",
            "dead _2",
            "dead _3",
            "return",
        ]
    );
    assert_eq!(body.locals, vec![MirTy::Output, MirTy::Input(0), MirTy::Usize, MirTy::I32]);
}

#[test]
fn further_arguments_of_push_are_left_out() {
    let body = lowered("fn f(v: V) { v.push(1, undefined) }", &["v"]);
    assert_eq!(
        listing(&body),
        vec![
            "bb0:",
            "live _2",
            "_2 = &mut _1",
            "live _3",
            "_3 = const 1_i32",
            "_0 = VecPush(move _2, move _3) -> bb1",
            "bb1:",
            "dead _3",
            "dead _2",
            "return",
        ]
    );
}

#[test]
fn parameters_without_a_name_or_a_type() {
    let body = fn_body("fn f(a: A) { a }");
    let names = vec!["a".to_string(), "b".to_string()];
    let fewer = build_body(&names, 1, &body).unwrap();
    assert_eq!(fewer.locals, vec![MirTy::Output, MirTy::Input(0)]);
    assert_eq!(fewer.arg_count, 1);
    let more = build_body(&names, 3, &body).unwrap();
    assert_eq!(more.locals, vec![MirTy::Output, MirTy::Input(0), MirTy::Input(1)]);
    assert_eq!(more.arg_count, 3);
}

#[test]
fn later_of_two_parameters_with_one_name_has_it() {
    let body = lowered("fn f(a: A, a: B) { a }", &["a", "a"]);
    assert_eq!(listing(&body), vec!["bb0:", "_0 = move _2", "return"]);
}

#[test]
fn failures() {
    assert_eq!(failure("fn f() { x }", &[]), "UndefinedVariable(\"x\")");
    assert_eq!(failure("fn f() { let x = x; }", &[]), "UndefinedVariable(\"x\")");
    assert_eq!(
        failure("fn f() { let x = A::b(); }", &[]),
        "UnrecognizedExpr(StaticCall { ty: \"A\", method: \"b\", args: [] })"
    );
    assert_eq!(
        failure("fn f() { let x = Vec::with_capacity(1); }", &[]),
        "UnhandledExpr(StaticCall { ty: \"Vec\", method: \"with_capacity\", args: [IntLit(1)] })"
    );
    assert_eq!(
        failure("fn f() { x.pop(); }", &[]),
        "UnrecognizedExpr(MethodCall { receiver: Var(\"x\"), method: \"pop\", args: [] })"
    );
    assert_eq!(
        failure("fn f() { A::b() }", &[]),
        "UnhandledExpr(StaticCall { ty: \"A\", method: \"b\", args: [] })"
    );
    assert_eq!(
        failure("fn f() { Vec::with_capacity(1) }", &[]),
        "UnhandledExpr(StaticCall { ty: \"Vec\", method: \"with_capacity\", args: [IntLit(1)] })"
    );
    assert_eq!(
        failure("fn f() { x.pop() }", &[]),
        "UnhandledExpr(MethodCall { receiver: Var(\"x\"), method: \"pop\", args: [] })"
    );
    assert_eq!(failure("fn f() { x.push(1) }", &[]), "PushReceiverNotFound(\"x\")");
    assert_eq!(failure("fn f() { Vec::new().push(1) }", &[]), "PushReceiverNotVariable");
    assert_eq!(failure("fn f(v: V) { v.push() }", &["v"]), "PushWithoutArgument");
    assert_eq!(failure("fn f() { x.len() }", &[]), "LenReceiverNotFound(\"x\")");
    assert_eq!(failure("fn f() { P {}.len() }", &[]), "LenReceiverNotVariable");
}

#[test]
fn a_name_is_bound_inside_its_own_let() {
    let body = lowered("fn f() { let p = P { a: p }; }", &[]);
    assert_eq!(
        listing(&body),
        vec!["bb0:", "live _1", "live _2", "_2 = move _1", "_1 = Point { move _2 }", "dead _2", "return"]
    );
}

/// Storage becomes live once, nothing without storage is touched, and what is live at the end is
/// one local for each `let`.
fn check_storage(body: &Body, lets: usize) {
    let args = body.arg_count;
    let mut live = vec![false; body.locals.len()];
    let mut seen = vec![false; body.locals.len()];
    let touch = |live: &Vec<bool>, l: usize| assert!(l <= args || live[l]);
    for (i, block) in body.blocks.iter().enumerate() {
        for stmt in &block.statements {
            match stmt {
                Statement::StorageLive(l) => {
                    assert!(*l > args && !seen[*l]);
                    live[*l] = true;
                    seen[*l] = true;
                }
                Statement::StorageDead(l) => {
                    assert!(live[*l]);
                    live[*l] = false;
                }
                Statement::Assign(dest, rvalue) => {
                    match rvalue {
                        Rvalue::Use(Operand::Copy(l)) | Rvalue::Use(Operand::Move(l)) => touch(&live, *l),
                        Rvalue::RefMut(l) => touch(&live, *l),
                        _ => {}
                    }
                    touch(&live, *dest);
                }
            }
        }
        match &block.terminator {
            Terminator::Return => assert_eq!(i + 1, body.blocks.len()),
            Terminator::Call { func, args, destination, target } => {
                for op in args {
                    if let Operand::Copy(l) | Operand::Move(l) = op {
                        touch(&live, *l);
                    }
                }
                touch(&live, *destination);
                assert_eq!(*target, i + 1);
                if *destination != 0 {
                    let ty = match func {
                        Callee::VecNew => MirTy::VecOfElem,
                        Callee::VecLen => MirTy::Usize,
                        _ => MirTy::Unit,
                    };
                    assert_eq!(body.locals[*destination], ty);
                }
            }
        }
    }
    assert_eq!(live.iter().filter(|l| **l).count(), lets);
    for l in args + 1..body.locals.len() {
        assert!(seen[l]);
    }
}

#[test]
fn storage_is_in_order() {
    check_storage(
        &lowered(
            "fn f(w: W) { let v = Vec::new(); v.push(P { a: w.len(), b: 1 }); let n = v.len(); n; v }",
            &["w"],
        ),
        2,
    );
    check_storage(&lowered("fn f() { Vec::new(); }", &[]), 0);
}

fn message(src: &str, params: &[&str]) -> String {
    let names: Vec<String> = params.iter().map(|s| s.to_string()).collect();
    let body = fn_body(src);
    let r = build_body(&names, params.len(), &body);
    match r {
        Ok(_) => panic!("lowered"),
        Err(err) => err.message(),
    }
}

#[test]
fn messages() {
    assert_eq!(message("fn f() { x }", &[]), "[toylang] undefined variable 'x'");
    assert_eq!(
        message("fn f() { A::b(1); }", &[]),
        "[toylang] infer_ty: unrecognized expression \
         StaticCall { ty: \"A\", method: \"b\", args: [IntLit(1)] }"
    );
    assert_eq!(
        message("fn f() { x.pop(P { a: 1 }) }", &[]),
        "[toylang] lower_expr_into: unhandled expr MethodCall { receiver: Var(\"x\"), \
         method: \"pop\", args: [StructLit { name: \"P\", fields: [(\"a\", IntLit(1))] }] }"
    );
    assert_eq!(message("fn f() { x.push(1) }", &[]), "[toylang] push receiver 'x' not found");
    assert_eq!(
        message("fn f() { Vec::new().push(1) }", &[]),
        "[toylang] push receiver must be a variable"
    );
    assert_eq!(message("fn f(v: V) { v.push() }", &["v"]), "[toylang] push requires one argument");
    assert_eq!(message("fn f() { x.len() }", &[]), "[toylang] len receiver 'x' not found");
    assert_eq!(message("fn f() { P {}.len() }", &[]), "[toylang] len receiver must be a variable");
    assert_eq!(LowerError::TooManyLocals.message(), "[toylang] too many locals");
    assert_eq!(LowerError::TooManyBlocks.message(), "[toylang] too many basic blocks");
}

#[test]
fn shown_expressions() {
    for src in [
        "fn f() { 7 }",
        "fn f() { a.b(1, c).d() }",
        "fn f() { A::b(x, 2) }",
        "fn f() { P { a: 1, b: Q {} } }",
        "fn f() { gr\u{f6}\u{df}e }",
    ] {
        let expr = fn_body(src).ret.unwrap();
        assert_eq!(expr.show(), format!("{:?}", expr));
    }
}

#[test]
fn error_carries_the_name() {
    let body = fn_body("fn f() { missing }");
    match build_body(&vec![], 0, &body) {
        Err(LowerError::UndefinedVariable(name)) => assert_eq!(name, "missing"),
        _ => panic!("lowered"),
    }
}
