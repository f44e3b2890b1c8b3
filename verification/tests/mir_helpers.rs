use toylang::mir::{BodySource, MirTy, Terminator};
use toylang::mir_helpers::{
    build_const_i32_body, build_drop_call_body, build_make_vec_body, build_vec_len_body,
    drop_fn_name, find_extern_fn,
};
use toylang::toylang::lower::build_body;
use toylang::toylang::parser::parse;

fn strings(items: &[&str]) -> Vec<String> {
    items.iter().map(|s| s.to_string()).collect()
}

#[test]
fn const_body() {
    let body = build_const_i32_body(0, 42);
    assert_eq!(body.locals, vec![MirTy::I32]);
    assert_eq!(body.arg_count, 0);
    assert_eq!(body.source, BodySource::Item);
    assert!(!body.lists_set);
    assert_eq!(
        format!("{:?}", body.blocks),
        "[BasicBlockData { statements: [Assign(0, Use(ConstI32(42)))], terminator: Return }]"
    );
}

#[test]
fn const_body_with_arguments() {
    let body = build_const_i32_body(2, -1);
    assert_eq!(body.locals, vec![MirTy::I32, MirTy::Input(0), MirTy::Input(1)]);
    assert_eq!(body.arg_count, 2);
    assert_eq!(
        format!("{:?}", body.blocks),
        "[BasicBlockData { statements: [Assign(0, Use(ConstI32(-1)))], terminator: Return }]"
    );
}

#[test]
fn drop_body_calls_the_drop_function() {
    let foreign = strings(&["malloc", "__toylang_drop_Point", "__toylang_drop_Point"]);
    let body = build_drop_call_body("Point", &foreign);
    assert_eq!(body.locals, vec![MirTy::Unit, MirTy::MutPtrElem]);
    assert_eq!(body.arg_count, 1);
    assert_eq!(body.source, BodySource::DropGlue);
    assert!(body.lists_set);
    assert_eq!(
        format!("{:?}", body.blocks),
        "[BasicBlockData { statements: [], terminator: Call { func: Foreign(1), args: [Copy(1)], \
         destination: 0, target: 1 } }, BasicBlockData { statements: [], terminator: Return }]"
    );
}

#[test]
fn drop_body_without_a_drop_function_does_nothing() {
    let body = build_drop_call_body("Point", &strings(&["__toylang_drop_Poin", "Point"]));
    assert_eq!(
        format!("{:?}", body.blocks),
        "[BasicBlockData { statements: [], terminator: Return }]"
    );
    assert!(body.lists_set);
}

#[test]
fn drop_function_names() {
    assert_eq!(drop_fn_name("Point"), "__toylang_drop_Point");
    assert_eq!(find_extern_fn(&strings(&["a", "b"]), "b"), Some(1));
    assert_eq!(find_extern_fn(&strings(&["a", "b"]), "c"), None);
}

#[test]
fn make_vec_body() {
    let body = build_make_vec_body();
    assert_eq!(
        body.locals,
        vec![
            MirTy::VecOfElem,
            MirTy::Elem,
            MirTy::MutRefVec,
            MirTy::Unit,
            MirTy::Elem,
            MirTy::MutRefVec,
            MirTy::Unit,
        ]
    );
    assert_eq!(body.arg_count, 0);
    assert!(!body.lists_set);
    let blocks: Vec<String> = body.blocks.iter().map(|b| format!("{:?}", b)).collect();
    assert_eq!(
        blocks,
        vec![
            "BasicBlockData { statements: [], terminator: Call { func: VecNew, args: [], \
             destination: 0, target: 1 } }",
            "BasicBlockData { statements: [StorageLive(1), Assign(1, Aggregate([ConstI32(1), \
             ConstI32(2)])), StorageLive(2), Assign(2, RefMut(0)), StorageLive(3)], terminator: \
             Call { func: VecPush, args: [Move(2), Move(1)], destination: 3, target: 2 } }",
            "BasicBlockData { statements: [StorageDead(3), StorageDead(2), StorageDead(1), \
             StorageLive(4), Assign(4, Aggregate([ConstI32(3), ConstI32(4)])), StorageLive(5), \
             Assign(5, RefMut(0)), StorageLive(6)], terminator: Call { func: VecPush, args: \
             [Move(5), Move(4)], destination: 6, target: 3 } }",
            "BasicBlockData { statements: [StorageDead(6), StorageDead(5), StorageDead(4)], \
             terminator: Return }",
        ]
    );
}

#[test]
fn vec_len_body() {
    let body = build_vec_len_body();
    assert_eq!(body.locals, vec![MirTy::Usize, MirTy::RefVec]);
    assert_eq!(body.arg_count, 1);
    assert!(!body.lists_set);
    assert_eq!(body.blocks.len(), 2);
    assert_eq!(
        format!("{:?}", body.blocks[0].terminator),
        "Call { func: VecLen, args: [Copy(1)], destination: 0, target: 1 }"
    );
    assert!(matches!(body.blocks[1].terminator, Terminator::Return));
}

#[test]
fn lists_are_set_for_drop_glue_alone() {
    let bodies = vec![
        build_const_i32_body(1, 0),
        build_make_vec_body(),
        build_vec_len_body(),
        build_drop_call_body("Point", &vec![]),
    ];
    for body in bodies {
        assert_eq!(body.lists_set, body.source == BodySource::DropGlue);
    }
}

#[test]
fn vec_len_body_is_what_a_call_of_len_is_lowered_to() {
    let registry = parse("fn f(list: &Vec<Point>) -> usize { list.len() }").ok().unwrap();
    let body = registry.functions.get("f").unwrap().body.clone().unwrap();
    let lowered = build_body(&strings(&["list"]), 1, &body).unwrap();
    let built = build_vec_len_body();
    assert_eq!(format!("{:?}", lowered.blocks), format!("{:?}", built.blocks));
    assert_eq!(lowered.arg_count, built.arg_count);
    assert_eq!(lowered.source, built.source);
}
