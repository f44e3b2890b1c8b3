# Toylang

Toylang is a small language whose structs and functions are compiled alongside ordinary Rust code.
`toylangc` is a compiler driver: it reads a `.toylang` file, hooks into the compiler's queries, and
answers for the items that the file defines.

```
struct Point {
    x: i32,
    y: i32,
}

fn make_vec() -> Vec<Point> {
    let v = Vec::new();
    v.push(Point { x: 1, y: 2 });
    v
}
```

## Layout

- `src/` is the verified library. It knows nothing of a compiler session: the compiler's tables come
  in as plain lists, and its answers go out as plain values.
  - `toylang/lexer.rs`, `toylang/grammar.rs`, `toylang/parser.rs`: from source text to definitions.
    `toylang/spelling.rs` and `toylang/syntax.rs` prove that what is written down is read back,
    `toylang/reading.rs` that nothing else is accepted, and `toylang/texts.rs` laws about texts.
  - `toylang/registry.rs`: the definitions and the memory layout of structs.
  - `toylang/lower.rs`: from function bodies to control-flow graphs (`mir.rs`).
    `toylang/scope.rs` proves which bodies can be lowered, and `toylang/validity.rs` that the graphs
    deal with storage, types and control as the compiler demands, but that the storage of a variable
    bound by `let` is never given back.
  - `mir_helpers.rs`: bodies that are not lowered from a Toylang function.
  - `queries/`: the decisions that the query hooks take. `oracle.rs`: what is looked up in the
    compiler's tables. `driver.rs` and `callbacks.rs`: the command line and the session.
- `app/` is the driver around it. It needs a nightly toolchain with the compiler's own crates.
- `tests/` holds the library's tests.
