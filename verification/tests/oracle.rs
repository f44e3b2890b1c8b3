use toylang::oracle::{
    dump_toylang_oracle, extract_global_ty, find_local_struct_ty, find_vec_method, resolve, DefKind,
    Definition, GenericArg, Rest, TyShape,
};
use toylang::toylang::parser::parse;
use toylang::toylang::registry::ToylangRegistry;

fn definition(kind: DefKind, name: Option<&str>) -> Definition {
    Definition { kind, name: name.map(|s| s.to_string()) }
}

fn definitions() -> Vec<Definition> {
    vec![
        definition(DefKind::Other, Some("Point")),
        definition(DefKind::Other, None),
        definition(DefKind::Struct, Some("Pixel")),
        definition(DefKind::Struct, Some("Point")),
        definition(DefKind::Struct, Some("Point")),
    ]
}

fn impls(blocks: &[&[&str]]) -> Vec<Vec<String>> {
    blocks.iter().map(|items| items.iter().map(|s| s.to_string()).collect()).collect()
}

#[test]
fn structs_are_found_by_kind_and_name() {
    assert_eq!(find_local_struct_ty(&definitions(), "Point"), Some(3));
    assert_eq!(find_local_struct_ty(&definitions(), "Pixel"), Some(2));
    assert_eq!(find_local_struct_ty(&definitions(), "point"), None);
}

#[test]
fn methods_are_found_in_all_impl_blocks() {
    let blocks = impls(&[&["new", "with_capacity"], &[], &["len", "push", "new"]]);
    assert_eq!(find_vec_method(Some(&blocks), "new"), Some((0, 0)));
    assert_eq!(find_vec_method(Some(&blocks), "push"), Some((2, 1)));
    assert_eq!(find_vec_method(Some(&blocks), "pop"), None);
    assert_eq!(find_vec_method(None, "new"), None);
}

#[test]
fn allocator_is_the_second_argument() {
    let vec = TyShape::Adt(vec![GenericArg::Type, GenericArg::Type]);
    assert_eq!(extract_global_ty(&vec), Some(1));
    assert_eq!(extract_global_ty(&TyShape::Other), None);
}

#[test]
fn resolution() {
    let blocks = impls(&[&["new"], &["push", "len"]]);
    let found = resolve(&definitions(), Some(&blocks)).unwrap();
    assert_eq!((found.elem, found.new, found.push, found.len), (3, (0, 0), (1, 0), (1, 1)));
    let missing = |defs: &Vec<Definition>, blocks: &[&[&str]]| {
        resolve(defs, Some(&impls(blocks))).unwrap_err()
    };
    assert_eq!(missing(&vec![], &[]), "[toylang] Point struct not found");
    assert_eq!(missing(&definitions(), &[&["push", "len"]]), "[toylang] Vec::new not found");
    assert_eq!(missing(&definitions(), &[&["new", "len"]]), "[toylang] Vec::push not found");
    assert_eq!(missing(&definitions(), &[&["new", "push"]]), "[toylang] Vec::len not found");
    assert_eq!(resolve(&definitions(), None).unwrap_err(), "[toylang] Vec::new not found");
}

#[test]
fn dump_of_the_point_registry() {
    let registry = ToylangRegistry::hardcoded_point();
    let blocks = impls(&[&["new"], &["len"]]);
    let lines = dump_toylang_oracle(&registry, &definitions(), Some(&blocks));
    let texts: Vec<(&str, Rest)> = lines.iter().map(|l| (l.text.as_str(), l.rest)).collect();
    assert_eq!(
        texts,
        vec![
            ("[oracle] Point: size=8 align=4 fields=[x: I32, y: I32]", Rest::Nothing),
            ("[oracle]   Ty = ", Rest::Ty(3)),
            ("[oracle]   Vec<Point>::new -> ", Rest::Sig(0, 0)),
            ("[oracle]   Vec<Point>::len -> ", Rest::Sig(1, 0)),
        ]
    );
}

#[test]
fn dump_of_several_structs() {
    let registry = parse("struct B { a: bool, b: i64, c: f64 } struct A {}").ok().unwrap();
    let lines = dump_toylang_oracle(&registry, &vec![], None);
    let texts: Vec<&str> = lines.iter().map(|l| l.text.as_str()).collect();
    assert_eq!(
        texts,
        vec![
            "[oracle] B: size=24 align=8 fields=[a: Bool, b: I64, c: F64]",
            "[oracle] A: size=0 align=1 fields=[]",
        ]
    );
}
