use toylang::toylang::registry::{ToyField, ToyFieldType, ToyStruct, ToylangRegistry};

fn field(name: &str, rust_type: ToyFieldType) -> ToyField {
    ToyField { name: name.to_string(), rust_type }
}

fn toy_struct(fields: Vec<ToyField>) -> ToyStruct {
    ToyStruct { name: "S".to_string(), fields }
}

#[test]
fn field_type_sizes_and_alignments() {
    assert_eq!((ToyFieldType::I32.size(), ToyFieldType::I32.align()), (4, 4));
    assert_eq!((ToyFieldType::I64.size(), ToyFieldType::I64.align()), (8, 8));
    assert_eq!((ToyFieldType::F64.size(), ToyFieldType::F64.align()), (8, 8));
    assert_eq!((ToyFieldType::Bool.size(), ToyFieldType::Bool.align()), (1, 1));
}

#[test]
fn point_layout() {
    let registry = ToylangRegistry::hardcoded_point();
    let point = registry.structs.get("Point").unwrap();
    assert_eq!(point.size(), 8);
    assert_eq!(point.align(), 4);
    assert_eq!(point.field_offsets(), vec![0, 4]);
}

#[test]
fn empty_struct_layout() {
    let s = toy_struct(vec![]);
    assert_eq!(s.size(), 0);
    assert_eq!(s.align(), 1);
    assert_eq!(s.field_offsets(), Vec::<u64>::new());
    assert!(s.fits());
}

#[test]
fn padding_between_fields_and_at_the_end() {
    let s = toy_struct(vec![
        field("a", ToyFieldType::Bool),
        field("b", ToyFieldType::I64),
        field("c", ToyFieldType::I32),
        field("d", ToyFieldType::Bool),
    ]);
    assert_eq!(s.field_offsets(), vec![0, 8, 16, 20]);
    assert_eq!(s.align(), 8);
    assert_eq!(s.size(), 24);
    assert!(s.fits());
}

#[test]
fn bools_are_packed() {
    let s = toy_struct(vec![
        field("a", ToyFieldType::Bool),
        field("b", ToyFieldType::Bool),
        field("c", ToyFieldType::Bool),
    ]);
    assert_eq!(s.field_offsets(), vec![0, 1, 2]);
    assert_eq!(s.align(), 1);
    assert_eq!(s.size(), 3);
}

#[test]
fn alignment_is_that_of_the_most_aligned_field() {
    let s = toy_struct(vec![field("a", ToyFieldType::I32), field("b", ToyFieldType::F64)]);
    assert_eq!(s.align(), 8);
    assert_eq!(s.field_offsets(), vec![0, 8]);
    assert_eq!(s.size(), 16);
}

#[test]
fn fields_are_placed_in_order_without_overlap() {
    let types = [
        ToyFieldType::Bool,
        ToyFieldType::I32,
        ToyFieldType::Bool,
        ToyFieldType::F64,
        ToyFieldType::I32,
    ];
    let s = toy_struct(types.iter().map(|t| field("f", *t)).collect());
    let offsets = s.field_offsets();
    for i in 0..types.len() {
        assert_eq!(offsets[i] % types[i].align(), 0);
        let end = offsets[i] + types[i].size();
        let limit = if i + 1 < types.len() { offsets[i + 1] } else { s.size() };
        assert!(end <= limit);
    }
    assert_eq!(s.size() % s.align(), 0);
}

#[test]
fn hardcoded_registry() {
    let registry = ToylangRegistry::hardcoded_point();
    assert!(registry.is_toylang_type("Point"));
    assert!(!registry.is_toylang_type("make_vec"));
    assert!(!registry.is_toylang_type("point"));
    assert_eq!(registry.structs.len(), 1);
    assert_eq!(registry.functions.len(), 3);
    let make_vec = registry.functions.get("make_vec").unwrap();
    assert_eq!(make_vec.return_ty, Some("Vec<Point>".to_string()));
    assert!(make_vec.params.is_empty());
    let vec_len = registry.functions.get("vec_len").unwrap();
    assert_eq!(vec_len.params.len(), 1);
    assert_eq!(vec_len.params[0].name, "v");
    assert_eq!(vec_len.params[0].ty, "&Vec<Point>");
    assert_eq!(vec_len.return_ty, Some("usize".to_string()));
    let get_x = registry.functions.get("get_x").unwrap();
    assert_eq!(get_x.return_ty, None);
    for name in ["make_vec", "vec_len", "get_x"] {
        assert!(registry.functions.get(name).unwrap().body.is_none());
    }
}
