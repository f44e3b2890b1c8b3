use std::sync::Arc;

use toylang::callbacks::ToyCallbacks;
use toylang::mir::{BodySource, MirTy, MAX_INDEX};
use toylang::queries::borrowck::{is_toylang_item, toy_mir_borrowck, Borrowck};
use toylang::queries::drop_glue::{toy_mir_shims, toylang_struct_name, Instance};
use toylang::queries::layout::{build_layout, toy_layout_of};
use toylang::queries::mir_build::{build_hardcoded, toy_mir_built, toylang_fn_name, BuildError};
use toylang::queries::{borrowck, drop_glue, layout, mir_build, QueriedTy, RegistrySlot};
use toylang::toylang::lower::LowerError;
use toylang::toylang::parser::parse;
use toylang::toylang::registry::ToylangRegistry;

fn slot(registry: ToylangRegistry) -> RegistrySlot {
    let mut slot = RegistrySlot::new();
    slot.set(Arc::new(registry));
    slot
}

fn point() -> RegistrySlot {
    slot(ToylangRegistry::hardcoded_point())
}

fn program(src: &str) -> RegistrySlot {
    slot(parse(src).unwrap_or_else(|message| panic!("{}", message)))
}

#[test]
fn first_registry_stays() {
    let other = || Arc::new(parse("struct Other {}").ok().unwrap());
    for install in
        [layout::install_registry, borrowck::install_registry, mir_build::install_registry, drop_glue::install_registry]
    {
        let mut slot = RegistrySlot::new();
        assert!(slot.get().is_none());
        install(&mut slot, Arc::new(ToylangRegistry::hardcoded_point()));
        install(&mut slot, other());
        let registry = slot.get().unwrap();
        assert!(registry.is_toylang_type("Point"));
        assert!(!registry.is_toylang_type("Other"));
    }
}

#[test]
fn config_installs_into_every_hook() {
    let callbacks = ToyCallbacks::new(Arc::new(ToylangRegistry::hardcoded_point()));
    assert!(callbacks.registry().is_toylang_type("Point"));
    let mut slots =
        (RegistrySlot::new(), RegistrySlot::new(), RegistrySlot::new(), program("struct Mine {}"));
    callbacks.config(&mut slots.0, &mut slots.1, &mut slots.2, &mut slots.3);
    for slot in [&slots.0, &slots.1, &slots.2] {
        assert!(slot.get().unwrap().is_toylang_type("Point"));
    }
    assert!(slots.3.get().unwrap().is_toylang_type("Mine"));
}

#[test]
fn layout_of_point() {
    let layout = toy_layout_of(&point(), QueriedTy::Adt("Point")).unwrap();
    assert_eq!(layout.size, 8);
    assert_eq!(layout.align, 4);
    assert_eq!(layout.offsets, vec![0, 4]);
    assert_eq!(layout.memory_index, vec![0, 1]);
}

#[test]
fn layout_of_other_types_is_left_alone() {
    assert!(toy_layout_of(&point(), QueriedTy::Adt("Pixel")).is_none());
    assert!(toy_layout_of(&point(), QueriedTy::Other).is_none());
    assert!(toy_layout_of(&RegistrySlot::new(), QueriedTy::Adt("Point")).is_none());
}

#[test]
fn layout_with_padding() {
    let slot = program("struct S { a: bool, b: i64, c: bool }");
    let layout = build_layout(slot.get().unwrap().structs.get("S").unwrap());
    assert_eq!((layout.size, layout.align), (24, 8));
    assert_eq!(layout.offsets, vec![0, 8, 16]);
    assert_eq!(layout.memory_index, vec![0, 1, 2]);
}

#[test]
fn toylang_items_are_not_borrow_checked() {
    let slot = point();
    assert_eq!(toy_mir_borrowck(&slot, "host.rs", Some("make_vec")), Borrowck::Skip);
    assert_eq!(toy_mir_borrowck(&slot, "host.rs", Some("main")), Borrowck::Default);
    assert_eq!(toy_mir_borrowck(&slot, "host.rs", None), Borrowck::Default);
    assert_eq!(toy_mir_borrowck(&slot, "point.toylang", None), Borrowck::Skip);
    assert_eq!(toy_mir_borrowck(&RegistrySlot::new(), "x.toylang", Some("main")), Borrowck::Skip);
    assert_eq!(toy_mir_borrowck(&RegistrySlot::new(), "host.rs", Some("make_vec")), Borrowck::Default);
    assert!(!is_toylang_item(&slot, "host.rs", Some("Point")));
}

#[test]
fn drop_glue_of_point() {
    let foreign = vec!["__toylang_drop_Point".to_string()];
    let instance = Instance::DropGlue(Some(QueriedTy::Adt("Point")));
    let body = toy_mir_shims(&point(), instance, &foreign).unwrap();
    assert_eq!(body.source, BodySource::DropGlue);
    assert_eq!(body.blocks.len(), 2);
    assert!(format!("{:?}", body.blocks[0].terminator).contains("Foreign(0)"));
}

#[test]
fn other_shims_are_left_alone() {
    let slot = point();
    let none = vec![];
    assert!(toy_mir_shims(&slot, Instance::DropGlue(None), &none).is_none());
    assert!(toy_mir_shims(&slot, Instance::DropGlue(Some(QueriedTy::Other)), &none).is_none());
    assert!(toy_mir_shims(&slot, Instance::DropGlue(Some(QueriedTy::Adt("Vec"))), &none).is_none());
    assert!(toy_mir_shims(&slot, Instance::Other, &none).is_none());
    assert_eq!(toylang_struct_name(&slot, QueriedTy::Adt("Point")), Some("Point".to_string()));
    assert_eq!(toylang_struct_name(&slot, QueriedTy::Adt("get_x")), None);
    assert_eq!(toylang_struct_name(&RegistrySlot::new(), QueriedTy::Adt("Point")), None);
}

#[test]
fn layout_and_drop_glue_agree() {
    for slot in [RegistrySlot::new(), point(), program("struct A {} struct B {}")] {
        for ty in [QueriedTy::Other, QueriedTy::Adt("Point"), QueriedTy::Adt("A"), QueriedTy::Adt("C")] {
            let dropped = toy_mir_shims(&slot, Instance::DropGlue(Some(ty)), &vec![]);
            assert_eq!(toy_layout_of(&slot, ty).is_some(), dropped.is_some());
        }
    }
}

#[test]
fn get_x_returns_forty_two() {
    let slot = point();
    let body = toy_mir_built(&slot, Some("get_x"), 1).unwrap().unwrap();
    assert_eq!(
        format!("{:?}", body.blocks),
        "[BasicBlockData { statements: [Assign(0, Use(ConstI32(42)))], terminator: Return }]"
    );
    assert_eq!(body.arg_count, 1);
    assert_eq!(body.locals, vec![MirTy::I32, MirTy::Input(0)]);
}

#[test]
fn functions_without_any_body() {
    let slot = point();
    match toy_mir_built(&slot, Some("make_vec"), 0) {
        Some(Err(BuildError::NoBody(message))) => assert_eq!(
            message,
            "[toylang] no body for 'make_vec' and no AST body in registry"
        ),
        _ => panic!("built"),
    }
    assert!(build_hardcoded("get_x", 0).is_ok());
    assert!(build_hardcoded("get_y", 0).is_err());
    assert!(matches!(
        build_hardcoded("get_x", MAX_INDEX + 1),
        Err(BuildError::Lower(LowerError::TooManyLocals))
    ));
}

#[test]
fn parsed_functions_are_lowered() {
    let slot = program("fn vec_len(v: &Vec<Point>) -> usize { v.len() } fn bad() { x }");
    let body = toy_mir_built(&slot, Some("vec_len"), 1).unwrap().unwrap();
    assert_eq!(body.blocks.len(), 2);
    assert_eq!(body.arg_count, 1);
    match toy_mir_built(&slot, Some("bad"), 0) {
        Some(Err(BuildError::Lower(LowerError::UndefinedVariable(name)))) => assert_eq!(name, "x"),
        _ => panic!("built"),
    }
}

#[test]
fn other_items_are_left_alone() {
    let slot = point();
    assert!(toy_mir_built(&slot, Some("main"), 0).is_none());
    assert!(toy_mir_built(&slot, None, 0).is_none());
    assert!(toy_mir_built(&RegistrySlot::new(), Some("get_x"), 0).is_none());
    assert_eq!(toylang_fn_name(&slot, Some("vec_len")), Some("vec_len".to_string()));
    assert_eq!(toylang_fn_name(&slot, Some("Point")), None);
    assert_eq!(toylang_fn_name(&slot, None), None);
}

#[test]
fn built_bodies_are_not_borrow_checked() {
    let slot = program("fn f() { 1 }");
    for name in [Some("f"), Some("g"), None] {
        let built = toy_mir_built(&slot, name, 0).is_some();
        assert_eq!(built, toy_mir_borrowck(&slot, "host.rs", name) == Borrowck::Skip);
    }
}
