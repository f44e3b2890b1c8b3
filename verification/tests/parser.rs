use toylang::toylang::lexer::{tokenize, Token};
use toylang::toylang::parser::{parse, Parser};
use toylang::toylang::registry::{ToyFieldType, ToylangRegistry};

const POINT: &str = "struct Point {
    x: i32,
    y: i32,
}

fn make_vec() -> Vec<Point> {
    let v = Vec::new();
    v.push(Point { x: 1, y: 2 });
    v.push(Point { x: 3, y: 4 });
    v
}

fn vec_len(v: &Vec<Point>) -> usize {
    v.len()
}
";

fn parsed(src: &str) -> ToylangRegistry {
    match parse(src) {
        Ok(registry) => registry,
        Err(message) => panic!("{}", message),
    }
}

fn refused(src: &str) -> String {
    match parse(src) {
        Ok(_) => panic!("accepted"),
        Err(message) => message,
    }
}

/// The body of the function `f`.
fn body(src: &str) -> String {
    format!("{:?}", parsed(src).functions.get("f").unwrap().body.as_ref().unwrap())
}

/// The type of the first parameter of the function `f`.
fn param_type(ty: &str) -> String {
    let src = format!("fn f(p: {}) {{}}", ty);
    parsed(&src).functions.get("f").unwrap().params[0].ty.clone()
}

#[test]
fn point_program() {
    let registry = parsed(POINT);
    assert_eq!(registry.structs.len(), 1);
    assert_eq!(registry.functions.len(), 2);
    let point = registry.structs.get("Point").unwrap();
    assert_eq!(point.name, "Point");
    assert_eq!(point.fields.len(), 2);
    assert_eq!(point.fields[0].name, "x");
    assert_eq!(point.fields[1].name, "y");
    assert_eq!(point.fields[0].rust_type, ToyFieldType::I32);
    assert_eq!(point.size(), 8);
    let make_vec = registry.functions.get("make_vec").unwrap();
    assert!(make_vec.params.is_empty());
    assert_eq!(make_vec.return_ty, Some("Vec<Point>".to_string()));
    assert_eq!(
        format!("{:?}", make_vec.body.as_ref().unwrap()),
        "FnBody { stmts: [\
         Let { name: \"v\", expr: StaticCall { ty: \"Vec\", method: \"new\", args: [] } }, \
         ExprStmt(MethodCall { receiver: Var(\"v\"), method: \"push\", args: [StructLit { \
         name: \"Point\", fields: [(\"x\", IntLit(1)), (\"y\", IntLit(2))] }] }), \
         ExprStmt(MethodCall { receiver: Var(\"v\"), method: \"push\", args: [StructLit { \
         name: \"Point\", fields: [(\"x\", IntLit(3)), (\"y\", IntLit(4))] }] })], \
         ret: Some(Var(\"v\")) }"
    );
    let vec_len = registry.functions.get("vec_len").unwrap();
    assert_eq!(vec_len.params[0].name, "v");
    assert_eq!(vec_len.params[0].ty, "&Vec<Point>");
    assert_eq!(vec_len.return_ty, Some("usize".to_string()));
    assert_eq!(
        format!("{:?}", vec_len.body.as_ref().unwrap()),
        "FnBody { stmts: [], ret: Some(MethodCall { receiver: Var(\"v\"), method: \"len\", \
         args: [] }) }"
    );
}

#[test]
fn empty_program() {
    let registry = parsed("// nothing\n");
    assert_eq!(registry.structs.len(), 0);
    assert_eq!(registry.functions.len(), 0);
}

#[test]
fn all_field_types() {
    let registry = parsed("struct S { a: i32, b: i64, c: f64, d: bool }");
    let types: Vec<ToyFieldType> =
        registry.structs.get("S").unwrap().fields.iter().map(|f| f.rust_type).collect();
    assert_eq!(
        types,
        vec![ToyFieldType::I32, ToyFieldType::I64, ToyFieldType::F64, ToyFieldType::Bool]
    );
}

#[test]
fn comma_behind_the_last_field_is_optional() {
    for src in ["struct S { a: i32, b: bool, }", "struct S { a: i32, b: bool }"] {
        assert_eq!(parsed(src).structs.get("S").unwrap().fields.len(), 2);
    }
    assert_eq!(refused("struct S { a: i32,, }"), "expected identifier, got Comma");
    assert_eq!(refused("struct S { , }"), "expected identifier, got Comma");
    assert!(parsed("struct S {}").structs.get("S").unwrap().fields.is_empty());
}

#[test]
fn types_are_written_out() {
    assert_eq!(param_type("i32"), "i32");
    assert_eq!(param_type("&T"), "&T");
    assert_eq!(param_type("& mut  T"), "&mut T");
    assert_eq!(param_type("*const T"), "*const T");
    assert_eq!(param_type("* mut T"), "*mut T");
    assert_eq!(param_type("Map<K,Vec<&mut V>>"), "Map<K, Vec<&mut V>>");
    assert_eq!(param_type("&&*const Vec<T>"), "&&*const Vec<T>");
}

#[test]
fn type_arguments_are_separated_by_commas() {
    assert_eq!(refused("fn f(p: Vec<>) {}"), "expected type, got RAngle");
    assert_eq!(refused("fn f(p: Vec<A,>) {}"), "expected type, got RAngle");
    assert_eq!(refused("fn f(p: Map<A B>) {}"), "expected RAngle, got Ident(\"B\")");
    assert_eq!(refused("fn f(p: Vec<A,"), "expected RAngle, got Eof");
}

#[test]
fn list_items_are_separated_by_commas() {
    assert_eq!(refused("struct P { x: i32 y: i32 }"), "expected RBrace, got Ident(\"y\")");
    assert_eq!(refused("fn f(a: A b: B) {}"), "expected RParen, got Ident(\"b\")");
    assert_eq!(refused("fn f(a: A,) {}"), "expected identifier, got RParen");
    assert_eq!(refused("fn f() { a.b(1 2) }"), "expected RParen, got IntLit(2)");
    assert_eq!(refused("fn f() { a.b(1,) }"), "expected expression, got RParen");
    assert_eq!(refused("fn f() { A::b(,) }"), "expected expression, got Comma");
    assert_eq!(refused("fn f() { P { a: 1 b: 2 } }"), "expected RBrace, got Ident(\"b\")");
    assert_eq!(refused("fn f() { P { a: 1, } }"), "expected identifier, got RBrace");
    assert_eq!(refused("fn f() { a.b(1,"), "expected RParen, got Eof");
}

#[test]
fn type_texts_stand_for_themselves() {
    for ty in ["&mut T", "* const Map<K,Vec<&mut V>>", "&&A", "Vec < Vec < T > >", "gr\u{f6}\u{df}e"] {
        let text = param_type(ty);
        assert_eq!(param_type(&text), text);
    }
}

#[test]
fn programs_one_after_the_other() {
    let first = "struct S { a: i32 } fn f() { 1 } // no line break";
    let second = "fn g() { 2 } fn f() { 3 }";
    let both = parsed(&format!("{}\n{}", first, second));
    assert_eq!(both.structs.len(), 1);
    assert_eq!(both.functions.len(), 2);
    let value = |name: &str| {
        format!("{:?}", both.functions.get(name).unwrap().body.as_ref().unwrap().ret)
    };
    assert_eq!(value("f"), "Some(IntLit(3))");
    assert_eq!(value("g"), "Some(IntLit(2))");
    assert_eq!(parsed(&format!("\n{}", first)).functions.len(), 1);
}

#[test]
fn reference_to_a_type_named_mut_is_a_mutable_reference() {
    assert_eq!(refused("fn f(p: &mut) {}"), "expected type, got RParen");
}

#[test]
fn parameters() {
    let registry = parsed("fn f(a: A, b: &B) {}");
    let f = registry.functions.get("f").unwrap();
    assert_eq!(f.name, "f");
    assert_eq!(f.params.len(), 2);
    assert_eq!((f.params[1].name.as_str(), f.params[1].ty.as_str()), ("b", "&B"));
    assert_eq!(f.return_ty, None);
    assert_eq!(format!("{:?}", f.body.as_ref().unwrap()), "FnBody { stmts: [], ret: None }");
}

#[test]
fn expressions() {
    assert_eq!(body("fn f() { 7 }"), "FnBody { stmts: [], ret: Some(IntLit(7)) }");
    assert_eq!(
        body("fn f() { a.b(1).c(x, Y::z()) }"),
        "FnBody { stmts: [], ret: Some(MethodCall { receiver: MethodCall { receiver: Var(\"a\"), \
         method: \"b\", args: [IntLit(1)] }, method: \"c\", args: [Var(\"x\"), StaticCall { \
         ty: \"Y\", method: \"z\", args: [] }] }) }"
    );
    assert_eq!(
        body("fn f() { P {}; Q { a: P { b: 1 } } }"),
        "FnBody { stmts: [ExprStmt(StructLit { name: \"P\", fields: [] })], ret: Some(StructLit { \
         name: \"Q\", fields: [(\"a\", StructLit { name: \"P\", fields: [(\"b\", IntLit(1))] })] }) }"
    );
    assert_eq!(
        body("fn f() { let x = 1; x; }"),
        "FnBody { stmts: [Let { name: \"x\", expr: IntLit(1) }, ExprStmt(Var(\"x\"))], ret: None }"
    );
}

#[test]
fn bodies_must_be_closed() {
    assert_eq!(refused("fn f() { 1; "), "expected RBrace, got Eof");
    assert_eq!(refused("fn f() { let x = 1;"), "expected RBrace, got Eof");
    assert_eq!(refused("fn f() {"), "expected RBrace, got Eof");
    assert_eq!(refused("fn f() { 1"), "expected RBrace, got Eof");
}

#[test]
fn last_definition_of_a_name_counts() {
    let registry = parsed("struct S { a: i32 } fn f() { 1 } struct S { b: bool } fn f() { 2 }");
    assert_eq!(registry.structs.len(), 1);
    assert_eq!(registry.structs.get("S").unwrap().fields[0].name, "b");
    assert_eq!(
        format!("{:?}", registry.functions.get("f").unwrap().body.as_ref().unwrap().ret),
        "Some(IntLit(2))"
    );
}

#[test]
fn parsed_functions_have_bodies_and_names() {
    let registry = parsed(POINT);
    for i in 0..registry.functions.len() {
        let (name, f) = registry.functions.entry(i);
        assert_eq!(name, &f.name);
        assert!(f.body.is_some());
    }
    for i in 0..registry.structs.len() {
        let (name, s) = registry.structs.entry(i);
        assert_eq!(name, &s.name);
    }
}

#[test]
fn white_space_and_comments_do_not_matter() {
    let tight = "struct S{a:i32,b:bool,}fn f(v:&Vec<S>)->usize{v.len()}";
    let wide = "struct S // one\n { a : i32 , b : bool , }\n\n fn f ( v : & Vec < S > ) # -> usize { v . len ( ) }";
    assert_eq!(body(tight), body(wide));
    assert_eq!(
        format!("{:?}", parsed(tight).structs.get("S")),
        format!("{:?}", parsed(wide).structs.get("S"))
    );
}

#[test]
fn refused_programs() {
    assert_eq!(refused("struct {"), "expected identifier, got LBrace");
    assert_eq!(refused("struct P"), "expected LBrace, got Eof");
    assert_eq!(refused("struct P { x i32 }"), "expected Colon, got Ident(\"i32\")");
    assert_eq!(
        refused("struct P { x: u8 }"),
        "unsupported field type 'u8'; only i32, i64, f64, bool are allowed"
    );
    assert_eq!(refused("struct P { x: i32"), "expected RBrace, got Eof");
    assert_eq!(refused("fn 3"), "expected identifier, got IntLit(3)");
    assert_eq!(refused("fn f {"), "expected LParen, got LBrace");
    assert_eq!(refused("fn f(x: ) {}"), "expected type, got RParen");
    assert_eq!(refused("fn f(x: *T) {}"), "expected 'const' or 'mut' after '*', got 'T'");
    assert_eq!(refused("fn f(x: Vec<A"), "expected RAngle, got Eof");
    assert_eq!(refused("fn f() -> ; {}"), "expected type, got Semicolon");
    assert_eq!(refused("fn f() { ; }"), "expected expression, got Semicolon");
    assert_eq!(refused("fn f() { let x 1; }"), "expected Equals, got IntLit(1)");
    assert_eq!(refused("fn f() { let x = 1 }"), "expected Semicolon, got RBrace");
    assert_eq!(refused("fn f() { a.b }"), "expected LParen, got RBrace");
    assert_eq!(refused("fn f() { a b }"), "expected RBrace, got Ident(\"b\")");
    assert_eq!(refused("x"), "unexpected token Ident(\"x\") at top level");
    assert_eq!(refused("struct P {} ;"), "unexpected token Semicolon at top level");
    assert_eq!(refused("a\u{e9}"), "unexpected token Ident(\"a\u{e9}\") at top level");
}

#[test]
fn parser_steps() {
    let mut parser = Parser::new(tokenize("x: T"));
    assert_eq!(parser.peek().show(), "Ident(\"x\")");
    assert_eq!(parser.peek2().unwrap().show(), "Colon");
    assert_eq!(parser.expect_ident(), Ok("x".to_string()));
    assert_eq!(parser.expect(Token::Colon), Ok(()));
    assert_eq!(parser.expect(Token::Eof), Err("expected Eof, got Ident(\"T\")".to_string()));
    assert_eq!(parser.peek().show(), "Eof");
    assert!(parser.peek2().is_none());
    assert_eq!(parser.consume().show(), "Eof");
    assert_eq!(parser.expect(Token::Eof), Ok(()));
    assert_eq!(parser.expect_ident(), Err("expected identifier, got Eof".to_string()));
    assert_eq!(parser.peek().show(), "Eof");
}

#[test]
fn parser_reads_a_program() {
    let mut parser = Parser::new(tokenize(POINT));
    assert_eq!(parser.parse_program().ok().unwrap().functions.len(), 2);
    assert_eq!(parser.peek().show(), "Eof");
}

#[test]
fn parser_stays_where_a_program_is_refused() {
    let mut parser = Parser::new(tokenize("struct P {} ; struct Q {}"));
    assert!(parser.parse_program().is_err());
    assert_eq!(parser.peek().show(), "Semicolon");
    let mut parser = Parser::new(tokenize("fn f() { ; }"));
    assert!(parser.parse_program().is_err());
    assert_eq!(parser.peek().show(), "Semicolon");
    let mut parser = Parser::new(tokenize("struct P { x: u8 , }"));
    assert!(parser.parse_program().is_err());
    assert_eq!(parser.peek().show(), "Comma");
}
