//! What the command line says about the Toylang program to compile.
use vstd::prelude::*;

use crate::execution::{returned, Value};
use crate::queries::mir_build::{has_its_name, law_built_functions_compute, toy_body};
use crate::text::{
    concat4, find, find_name, has_suffix, holds_text, law_first_is_found, law_suffix_stands_behind,
    views,
};
use crate::toylang::definitions::{holds_definitions, last_function, lemma_registry_holds};
use crate::toylang::grammar::program;
use crate::toylang::lexer::{fits, law_lex_ended, lex, literals_fit, literals_fit_spec, Tok};
use crate::toylang::meaning::{eval_body, Env};
use crate::toylang::parser::parse;
use crate::toylang::reading::law_accepted_programs_are_written;
use crate::toylang::registry::{
    point_registry, FieldView, ParamView, RegistryView, ToyFieldType, ToylangRegistry,
};
use crate::toylang::spelling::{law_source_read_back, spellable, spelled};
use crate::toylang::syntax::{
    function_of, program_toks, readable, FnTree, ItemTree,
};

verus! {

/// Where the option that names the Toylang program stands. An option without a value behind it
/// does not count.
pub open spec fn input_option(args: Seq<Seq<char>>) -> Option<usize> {
    match find(args, "--toylang-input"@) {
        Some(pos) => if pos + 1 < args.len() {
            Some(pos)
        } else {
            None
        },
        None => None,
    }
}

/// The path of the Toylang program that the arguments name.
pub open spec fn input_path(args: Seq<Seq<char>>) -> Option<Seq<char>> {
    match input_option(args) {
        Some(pos) => Some(args[pos + 1]),
        None => None,
    }
}

/// The arguments without the option and the path.
pub open spec fn without_input(args: Seq<Seq<char>>) -> Seq<Seq<char>> {
    match input_option(args) {
        Some(pos) => args.take(pos as int) + args.skip(pos + 2),
        None => args,
    }
}

/// Takes the path of the Toylang program from the arguments. The option and the path leave the
/// arguments; the compiler gets the others.
pub fn take_input(args: &mut Vec<String>) -> (r: Option<String>)
    ensures
        match input_option(views(old(args)@)) {
            Some(pos) => {
                &&& r matches Some(path) && path@ == old(args)@[pos + 1]@
                &&& final(args)@ == old(args)@.take(pos as int) + old(args)@.skip(pos + 2)
            },
            None => r is None && final(args)@ == old(args)@,
        },
        match r {
            Some(path) => input_path(views(old(args)@)) == Some(path@),
            None => input_path(views(old(args)@)) is None,
        },
        views(final(args)@) == without_input(views(old(args)@)),
{
    if let Some(pos) = find_name(args, "--toylang-input") {
        if args.len() - pos > 1 {
            let path: String = args.remove(pos + 1);
            let _ = args.remove(pos);
            assert(args@ =~= old(args)@.take(pos as int) + old(args)@.skip(pos + 2));
            assert(views(args@) =~= without_input(views(old(args)@)));
            return Some(path);
        }
    }
    None
}

/// Why a Toylang program cannot be loaded.
#[derive(Debug)]
pub enum LoadError {
    /// An integer literal is too large for an `i64`.
    LiteralTooLarge,
    /// The program cannot be parsed. This is the message.
    Parse(String),
}

/// The definitions of a program, or why they cannot be loaded.
pub open spec fn load(path: Seq<char>, src: Seq<char>) -> Result<RegistryView, Option<Seq<char>>> {
    if !literals_fit_spec(src) {
        Err(None)
    } else {
        match program(lex(src)) {
            Ok(registry) => Ok(registry),
            Err(message) => Err(Some("toylang: parse error in "@ + path + ": "@ + message)),
        }
    }
}

/// Whether a result is the definitions of the program that was read from a path or, where no program
/// is given, those that stand in, or says why the program cannot be loaded.
pub open spec fn is_extracted(
    r: Result<ToylangRegistry, LoadError>,
    input: Option<(&str, &str)>,
) -> bool {
    match input {
        None => r matches Ok(registry) && registry@ == point_registry(),
        Some((path, src)) => match (r, load(path@, src@)) {
            (Ok(registry), Ok(expected)) => registry@ == expected,
            (Err(LoadError::LiteralTooLarge), Err(None)) => true,
            (Err(LoadError::Parse(message)), Err(Some(expected))) => message@ == expected,
            _ => false,
        },
    }
}

/// The definitions of the program that was read from `path`, and those that stand in where no
/// program is given.
pub fn extract_registry(input: Option<(&str, &str)>) -> (r: Result<ToylangRegistry, LoadError>)
    ensures
        is_extracted(r, input),
{
    match input {
        None => Ok(ToylangRegistry::hardcoded_point()),
        Some((path, src)) => if !literals_fit(src) {
            Err(LoadError::LiteralTooLarge)
        } else {
            match parse(src) {
                Ok(registry) => Ok(registry),
                Err(message) => Err(
                    LoadError::Parse(
                        concat4("toylang: parse error in ", path, ": ", message.as_str()),
                    ),
                ),
            }
        },
    }
}

/// The option that names the program is the first `--toylang-input` among the arguments. It is not
/// found exactly if there is none or the first one has nothing behind it.
pub proof fn law_first_input_option_counts(args: Seq<Seq<char>>, i: int)
    requires
        args.len() <= usize::MAX,
        0 <= i < args.len(),
        args[i] == "--toylang-input"@,
        forall|k: int| 0 <= k < i ==> #[trigger] args[k] != "--toylang-input"@,
    ensures
        input_option(args) == if i + 1 < args.len() {
            Some(i as usize)
        } else {
            None
        },
{
    law_first_is_found(args, "--toylang-input"@);
    let found = find(args, "--toylang-input"@);
    assert(found is Some);
    assert(found->0 == i);
}

/// Without the option no program is named.
pub proof fn law_no_input_option(args: Seq<Seq<char>>)
    requires
        args.len() <= usize::MAX,
        forall|k: int| 0 <= k < args.len() ==> #[trigger] args[k] != "--toylang-input"@,
    ensures
        input_option(args) is None,
{
    law_first_is_found(args, "--toylang-input"@);
}

/// Loading the text of a program gives its definitions, each struct and each function that is
/// written there, the last one of its name, and nothing else. It is refused exactly if an integer
/// literal in it is beyond an `i64`.
pub proof fn law_loading_gives_definitions(
    path: Seq<char>,
    items: Seq<ItemTree>,
    gaps: Seq<Seq<char>>,
)
    requires
        forall|k: int| 0 <= k < items.len() ==> readable(#[trigger] items[k]),
        spellable(program_toks(items, 0).drop_last(), gaps),
    ensures
        ({
            let tokens = program_toks(items, 0);
            let src = spelled(tokens.drop_last(), gaps);
            if exists|k: int|
                0 <= k < tokens.len() && (#[trigger] tokens[k] matches Tok::IntLit(n) && n
                    > 0x7FFF_FFFF_FFFF_FFFF) {
                load(path, src) == Err::<RegistryView, Option<Seq<char>>>(None)
            } else {
                load(path, src) matches Ok(registry) && holds_definitions(registry, items)
            }
        }),
{
    law_source_read_back(items, gaps);
    lemma_registry_holds(items);
    let tokens = program_toks(items, 0);
    assert(i64::MAX == 0x7FFF_FFFF_FFFF_FFFF);
    if exists|k: int|
        0 <= k < tokens.len() && (#[trigger] tokens[k] matches Tok::IntLit(n) && n
            > 0x7FFF_FFFF_FFFF_FFFF) {
        let k = choose|k: int|
            0 <= k < tokens.len() && (#[trigger] tokens[k] matches Tok::IntLit(n) && n
                > 0x7FFF_FFFF_FFFF_FFFF);
        assert(!fits(tokens));
    }
}

/// A text that is loaded from two paths gives the same definitions or is refused both times. What
/// is said then is the same but for the path, and ends in the message of the parser.
pub proof fn law_path_is_only_named(a: Seq<char>, b: Seq<char>, src: Seq<char>)
    ensures
        load(a, src) is Ok <==> load(b, src) is Ok,
        load(a, src) is Ok ==> load(a, src) == load(b, src),
        load(a, src) matches Err(Some(said)) ==> (program(lex(src)) matches Err(message)
            && exists|before: Seq<char>, between: Seq<char>| {
            &&& said == #[trigger] (before + a + between + message)
            &&& load(b, src) == Err::<RegistryView, Option<Seq<char>>>(
                Some(before + b + between + message),
            )
        }),
        load(a, src) == Err::<RegistryView, Option<Seq<char>>>(None) ==> load(b, src) == load(
            a,
            src,
        ),
{
    if let Err(Some(said)) = load(a, src) {
        let message = program(lex(src))->Err_0;
        assert(said == "toylang: parse error in "@ + a + ": "@ + message);
    }
}

/// Nothing but programs is loaded: a text that is loaded is made of the tokens of definitions as they
/// are written, and what is loaded holds these definitions. The result is the definitions.
pub proof fn law_loaded_texts_are_programs(path: Seq<char>, src: Seq<char>) -> (items: Seq<
    ItemTree,
>)
    requires
        load(path, src) is Ok,
    ensures
        forall|k: int| 0 <= k < items.len() ==> readable(#[trigger] items[k]),
        program_toks(items, 0) == lex(src),
        holds_definitions(load(path, src)->Ok_0, items),
{
    law_lex_ended(src);
    let items = law_accepted_programs_are_written(lex(src));
    lemma_registry_holds(items);
    items
}

/// The first `--toylang-input` with a path behind it leaves the arguments together with the path,
/// and all that stands before and behind them stays in its order. The path is the one that is named.
pub proof fn law_input_is_taken_out(
    before: Seq<Seq<char>>,
    path: Seq<char>,
    after: Seq<Seq<char>>,
)
    requires
        before.len() + after.len() + 2 <= usize::MAX,
        forall|k: int| 0 <= k < before.len() ==> #[trigger] before[k] != "--toylang-input"@,
    ensures
        ({
            let args = before + seq!["--toylang-input"@, path] + after;
            &&& input_path(args) == Some(path)
            &&& without_input(args) == before + after
        }),
{
    let args = before + seq!["--toylang-input"@, path] + after;
    let pos = before.len() as int;
    assert(args[pos] == "--toylang-input"@);
    assert forall|k: int| 0 <= k < pos implies #[trigger] args[k] != "--toylang-input"@ by {
        assert(args[k] == before[k]);
    }
    law_first_input_option_counts(args, pos);
    assert(args[pos + 1] == path);
    assert(without_input(args) =~= before + after);
}

/// Arguments that name no path behind a `--toylang-input` stay as they are.
pub proof fn law_other_arguments_stay(args: Seq<Seq<char>>)
    requires
        args.len() <= usize::MAX,
        forall|k: int| 0 <= k < args.len() - 1 ==> #[trigger] args[k] != "--toylang-input"@,
    ensures
        input_path(args) is None,
        without_input(args) == args,
{
    if args.len() > 0 && args.last() == "--toylang-input"@ {
        law_first_input_option_counts(args, args.len() - 1);
    } else {
        assert forall|k: int| 0 <= k < args.len() implies #[trigger] args[k]
            != "--toylang-input"@ by {
            if k == args.len() - 1 {
                assert(args[k] == args.last());
            }
        }
        law_no_input_option(args);
    }
}

/// A function that is written in a program computes what it says. Where its name is asked for after
/// the text of the program has been loaded, and a body is built, the body returns for each row of
/// arguments the value of what is written between the braces, with each parameter standing for its
/// argument.
#[verifier::rlimit(40)]
pub proof fn law_written_functions_compute(
    path: Seq<char>,
    items: Seq<ItemTree>,
    gaps: Seq<Seq<char>>,
    k: int,
    f: FnTree,
    item: &str,
    args: Seq<Value>,
    env: Env,
)
    requires
        forall|j: int| 0 <= j < items.len() ==> readable(#[trigger] items[j]),
        spellable(program_toks(items, 0).drop_last(), gaps),
        forall|j: int|
            0 <= j < program_toks(items, 0).len() ==> (#[trigger] program_toks(
                items,
                0,
            )[j] matches Tok::IntLit(n) ==> n <= 0x7FFF_FFFF_FFFF_FFFF),
        last_function(items, k, function_of(f)),
        item@ == f.name,
        args.len() == f.params.len(),
        forall|j: int|
            0 <= j < f.params.len() && (forall|l: int|
                j < l < f.params.len() ==> (#[trigger] f.params[l]).name != f.params[j].name)
                ==> env[(#[trigger] f.params[j]).name] == args[j],
    ensures
        load(path, spelled(program_toks(items, 0).drop_last(), gaps)) matches Ok(registry)
            && toy_body(Some(registry), Some(item), f.params.len() as int) matches Some(built) && (
        built matches Ok(b) ==> returned(b, args) == Some(eval_body(env, f.body).1)),
{
    law_loading_gives_definitions(path, items, gaps);
    let registry = load(path, spelled(program_toks(items, 0).drop_last(), gaps))->Ok_0;
    let view = function_of(f);
    let n = f.params.len() as int;
    assert(registry.functions[view.name] == view);
    assert forall|j: int| #[trigger] has_its_name(view, n, j) implies env[view.params[j].name]
        == args[j] by {
        assert(view.params[j].name == f.params[j].name);
        assert forall|l: int| j < l < f.params.len() implies (#[trigger] f.params[l]).name
            != f.params[j].name by {
            assert(view.params[l].name != view.params[j].name);
        }
    }
    law_built_functions_compute(registry, item, f.body, n, args, env);
}

/// Whatever comes of the text of a program: definitions, each struct and each function that is
/// written there, the last one of its name, and nothing else, unless an integer literal in it is
/// beyond an `i64`.
pub proof fn law_extracted_definitions(
    r: Result<ToylangRegistry, LoadError>,
    path: &str,
    src: &str,
    items: Seq<ItemTree>,
    gaps: Seq<Seq<char>>,
)
    requires
        is_extracted(r, Some((path, src))),
        src@ == spelled(program_toks(items, 0).drop_last(), gaps),
        forall|k: int| 0 <= k < items.len() ==> readable(#[trigger] items[k]),
        spellable(program_toks(items, 0).drop_last(), gaps),
    ensures
        ({
            let tokens = program_toks(items, 0);
            if exists|k: int|
                0 <= k < tokens.len() && (#[trigger] tokens[k] matches Tok::IntLit(n) && n
                    > 0x7FFF_FFFF_FFFF_FFFF) {
                r matches Err(LoadError::LiteralTooLarge)
            } else {
                r matches Ok(registry) && holds_definitions(registry@, items)
            }
        }),
{
    law_loading_gives_definitions(path@, items, gaps);
}

/// Whatever comes of a text that is no program: definitions come of programs only, and a refusal says
/// the path and ends in the message of the parser.
pub proof fn law_extracted_from_programs_only(
    r: Result<ToylangRegistry, LoadError>,
    path: &str,
    src: &str,
) -> (items: Seq<ItemTree>)
    requires
        is_extracted(r, Some((path, src))),
    ensures
        r matches Ok(registry) ==> {
            &&& forall|k: int| 0 <= k < items.len() ==> readable(#[trigger] items[k])
            &&& program_toks(items, 0) == lex(src@)
            &&& holds_definitions(registry@, items)
        },
        r matches Err(LoadError::Parse(said)) ==> (program(lex(src@)) matches Err(message)
            && has_suffix(said@, message) && holds_text(said@, path@)),
        r matches Err(LoadError::LiteralTooLarge) ==> exists|k: int|
            0 <= k < lex(src@).len() && (#[trigger] lex(src@)[k] matches Tok::IntLit(n) && n
                > 0x7FFF_FFFF_FFFF_FFFF),
{
    let head = "toylang: parse error in "@;
    if let Err(LoadError::Parse(said)) = r {
        let message = program(lex(src@))->Err_0;
        assert(said@ == head + path@ + ": "@ + message);
        law_suffix_stands_behind(said@, message);
        assert(said@ =~= (head + path@ + ": "@) + message);
        assert(said@ =~= head + path@ + (": "@ + message));
    }
    if r is Ok {
        law_loaded_texts_are_programs(path@, src@)
    } else {
        Seq::empty()
    }
}

/// Where no program is given there are the struct `Point` with the `i32` fields `x` and `y`, the
/// functions `make_vec`, `vec_len` and `get_x` without bodies, and no other definitions.
#[verifier::rlimit(40)]
pub proof fn law_definitions_without_program(r: Result<ToylangRegistry, LoadError>, name: Seq<char>)
    requires
        is_extracted(r, None),
    ensures
        r matches Ok(registry) && {
            let structs = registry@.structs;
            let functions = registry@.functions;
            &&& structs.contains_key(name) <==> name == "Point"@
            &&& structs["Point"@].name == "Point"@
            &&& structs["Point"@].fields == seq![
                FieldView { name: "x"@, rust_type: ToyFieldType::I32 },
                FieldView { name: "y"@, rust_type: ToyFieldType::I32 },
            ]
            &&& functions.contains_key(name) <==> name == "make_vec"@ || name == "vec_len"@ || name
                == "get_x"@
            &&& functions.contains_key(name) ==> functions[name].name == name
                && functions[name].body is None
            &&& functions["make_vec"@].params.len() == 0
            &&& functions["make_vec"@].return_ty == Some("Vec<Point>"@)
            &&& functions["vec_len"@].params == seq![ParamView { name: "v"@, ty: "&Vec<Point>"@ }]
            &&& functions["vec_len"@].return_ty == Some("usize"@)
            &&& functions["get_x"@].params.len() == 0
            &&& functions["get_x"@].return_ty is None
        },
{
    reveal_strlit("make_vec");
    reveal_strlit("vec_len");
    reveal_strlit("get_x");
    assert("make_vec"@.len() == 8 && "vec_len"@.len() == 7 && "get_x"@.len() == 5);
}

} // verus!
