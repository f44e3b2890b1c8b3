use toylang::driver::{extract_registry, take_input, LoadError};

fn strings(items: &[&str]) -> Vec<String> {
    items.iter().map(|s| s.to_string()).collect()
}

#[test]
fn input_option_is_taken_out() {
    let mut args = strings(&["toylangc", "--toylang-input", "p.toylang", "host.rs", "-o", "out"]);
    assert_eq!(take_input(&mut args), Some("p.toylang".to_string()));
    assert_eq!(args, strings(&["toylangc", "host.rs", "-o", "out"]));
}

#[test]
fn only_the_first_input_option_counts() {
    let mut args = strings(&["--toylang-input", "a", "--toylang-input", "b"]);
    assert_eq!(take_input(&mut args), Some("a".to_string()));
    assert_eq!(args, strings(&["--toylang-input", "b"]));
}

#[test]
fn input_option_without_a_path_stays() {
    for given in [&["toylangc", "--toylang-input"][..], &["toylangc", "host.rs"][..], &[][..]] {
        let mut args = strings(given);
        assert_eq!(take_input(&mut args), None);
        assert_eq!(args, strings(given));
    }
}

#[test]
fn registry_without_input() {
    let registry = extract_registry(None).ok().unwrap();
    assert!(registry.is_toylang_type("Point"));
    assert!(registry.functions.get("get_x").unwrap().body.is_none());
}

#[test]
fn registry_of_a_program() {
    let registry = extract_registry(Some(("s.toylang", "struct S { a: i32 }"))).ok().unwrap();
    assert!(registry.is_toylang_type("S"));
    assert!(!registry.is_toylang_type("Point"));
}

#[test]
fn programs_that_cannot_be_loaded() {
    match extract_registry(Some(("bad.toylang", "struct 1"))) {
        Err(LoadError::Parse(message)) => assert_eq!(
            message,
            "toylang: parse error in bad.toylang: expected identifier, got IntLit(1)"
        ),
        _ => panic!("loaded"),
    }
    match extract_registry(Some(("big.toylang", "9223372036854775808"))) {
        Err(LoadError::LiteralTooLarge) => {}
        _ => panic!("loaded"),
    }
}
