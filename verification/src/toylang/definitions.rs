//! Which definitions a program holds, and that these and no others come of parsing it.
use vstd::prelude::*;

use crate::toylang::grammar::{item_at, items_at, program_at, registry_of};
use crate::toylang::lexer::{ended, law_lex_ended, lex, Tok};
use crate::toylang::messages::{lemma_items_tell, tells_of_place};
use crate::toylang::parser::{agrees, is_parsed};
use crate::toylang::reading::law_accepted_programs_are_written;
use crate::toylang::registry::{FunctionView, RegistryView, StructView, ToylangRegistry};
use crate::toylang::spelling::{law_source_read_back, spellable, spelled};
use crate::toylang::syntax::{
    function_of, item_of, items_of, law_program_read_back, program_toks, readable, ItemTree,
};

verus! {

/// Whether definition `k` of a program is the last struct with its name.
pub open spec fn last_struct(items: Seq<ItemTree>, k: int, def: StructView) -> bool {
    &&& 0 <= k < items.len()
    &&& items[k] matches ItemTree::Struct { def: d, .. } && d == def
    &&& forall|j: int|
        k < j < items.len() ==> (#[trigger] items[j] matches ItemTree::Struct { def: d, .. }
            ==> d.name != def.name)
}

/// Whether definition `k` of a program is the last function with its name.
pub open spec fn last_function(items: Seq<ItemTree>, k: int, f: FunctionView) -> bool {
    &&& 0 <= k < items.len()
    &&& items[k] matches ItemTree::Function(tree) && function_of(tree) == f
    &&& forall|j: int|
        k < j < items.len() ==> (#[trigger] items[j] matches ItemTree::Function(tree)
            ==> tree.name != f.name)
}

/// Whether a registry holds the definitions of a program, of several with one name the last one,
/// each under its name, and nothing else.
pub open spec fn holds_definitions(registry: RegistryView, items: Seq<ItemTree>) -> bool {
    &&& forall|k: int, def: StructView| #[trigger]
        last_struct(items, k, def) ==> registry.structs.contains_key(def.name)
            && registry.structs[def.name] == def
    &&& forall|k: int, f: FunctionView| #[trigger]
        last_function(items, k, f) ==> registry.functions.contains_key(f.name)
            && registry.functions[f.name] == f
    &&& forall|name: Seq<char>| #[trigger]
        registry.structs.contains_key(name) ==> exists|k: int|
            last_struct(items, k, registry.structs[name]) && registry.structs[name].name == name
    &&& forall|name: Seq<char>| #[trigger]
        registry.functions.contains_key(name) ==> exists|k: int|
            last_function(items, k, registry.functions[name]) && registry.functions[name].name
                == name
}

/// The registry of the definitions of a program holds them.
#[verifier::rlimit(40)]
pub proof fn lemma_registry_holds(items: Seq<ItemTree>)
    ensures
        holds_definitions(registry_of(items_of(items)), items),
    decreases items.len(),
{
    let registry = registry_of(items_of(items));
    if items.len() == 0 {
        assert(items_of(items) =~= Seq::empty());
    } else {
        let fewer = items.drop_last();
        let last = items.last();
        let before = registry_of(items_of(fewer));
        lemma_registry_holds(fewer);
        assert(items_of(items).drop_last() =~= items_of(fewer));
        assert(items_of(items).last() == item_of(last));
        assert(items[items.len() - 1] == last);
        assert forall|k: int, def: StructView| #[trigger]
            last_struct(items, k, def) implies registry.structs.contains_key(def.name)
            && registry.structs[def.name] == def by {
            if k < fewer.len() {
                assert(fewer[k] == items[k]);
                assert forall|j: int| k < j < fewer.len() implies (
                #[trigger] fewer[j] matches ItemTree::Struct { def: d, .. } ==> d.name
                    != def.name) by {
                    assert(fewer[j] == items[j]);
                }
                assert(last_struct(fewer, k, def));
            }
        }
        assert forall|k: int, f: FunctionView| #[trigger]
            last_function(items, k, f) implies registry.functions.contains_key(f.name)
            && registry.functions[f.name] == f by {
            if k < fewer.len() {
                assert(fewer[k] == items[k]);
                assert forall|j: int| k < j < fewer.len() implies (
                #[trigger] fewer[j] matches ItemTree::Function(tree) ==> tree.name != f.name) by {
                    assert(fewer[j] == items[j]);
                }
                assert(last_function(fewer, k, f));
            }
        }
        assert forall|name: Seq<char>| #[trigger]
            registry.structs.contains_key(name) implies exists|k: int|
            last_struct(items, k, registry.structs[name]) && registry.structs[name].name == name by {
            let def = registry.structs[name];
            if last matches ItemTree::Struct { def: d, .. } && d.name == name {
                assert(last_struct(items, items.len() - 1, def));
            } else {
                assert(before.structs.contains_key(name));
                let k = choose|k: int| last_struct(fewer, k, def) && def.name == name;
                assert(items[k] == fewer[k]);
                assert forall|j: int| k < j < items.len() implies (
                #[trigger] items[j] matches ItemTree::Struct { def: d, .. } ==> d.name
                    != def.name) by {
                    if j < fewer.len() {
                        assert(fewer[j] == items[j]);
                    }
                }
                assert(last_struct(items, k, def));
            }
        }
        assert forall|name: Seq<char>| #[trigger]
            registry.functions.contains_key(name) implies exists|k: int|
            last_function(items, k, registry.functions[name]) && registry.functions[name].name
                == name by {
            let f = registry.functions[name];
            if last matches ItemTree::Function(tree) && tree.name == name {
                assert(last_function(items, items.len() - 1, f));
            } else {
                assert(before.functions.contains_key(name));
                let k = choose|k: int| last_function(fewer, k, f) && f.name == name;
                assert(items[k] == fewer[k]);
                assert forall|j: int| k < j < items.len() implies (
                #[trigger] items[j] matches ItemTree::Function(tree) ==> tree.name != f.name) by {
                    if j < fewer.len() {
                        assert(fewer[j] == items[j]);
                    }
                }
                assert(last_function(items, k, f));
            }
        }
    }
}

/// Whatever comes of parsing the text of a program: its definitions, the last one of each name, and
/// nothing else.
pub proof fn law_parsed_definitions(
    r: Result<ToylangRegistry, String>,
    src: Seq<char>,
    items: Seq<ItemTree>,
    gaps: Seq<Seq<char>>,
)
    requires
        is_parsed(r, src),
        src == spelled(program_toks(items, 0).drop_last(), gaps),
        forall|k: int| 0 <= k < items.len() ==> readable(#[trigger] items[k]),
        spellable(program_toks(items, 0).drop_last(), gaps),
    ensures
        r matches Ok(registry) && holds_definitions(registry@, items),
{
    law_source_read_back(items, gaps);
    lemma_registry_holds(items);
}

/// Whatever comes of parsing any text: where definitions come of it, the text is made of their tokens
/// and of no others, and where a message comes of it, the message tells of a token of the text. The
/// result is the definitions.
pub proof fn law_parsed_from_programs_only(
    r: Result<ToylangRegistry, String>,
    src: Seq<char>,
) -> (items: Seq<ItemTree>)
    requires
        is_parsed(r, src),
    ensures
        r matches Ok(registry) ==> {
            &&& forall|k: int| 0 <= k < items.len() ==> readable(#[trigger] items[k])
            &&& program_toks(items, 0) == lex(src)
            &&& holds_definitions(registry@, items)
        },
        r matches Err(message) ==> exists|place: int| #[trigger]
            tells_of_place(lex(src), message@, place),
{
    law_lex_ended(src);
    lemma_items_tell(lex(src), 0);
    if let Err(message) = r {
        let place = program_at(lex(src), 0)->Err_0.1;
        assert(tells_of_place(lex(src), message@, place));
    }
    if r is Ok {
        let items = law_accepted_programs_are_written(lex(src));
        lemma_registry_holds(items);
        items
    } else {
        Seq::empty()
    }
}

/// Whatever a parser at the first of a row of tokens comes to: from the tokens of a program its
/// definitions, with the parser at the end of the text.
pub proof fn law_parser_reads_definitions(
    r: Result<ToylangRegistry, String>,
    place: int,
    items: Seq<ItemTree>,
)
    requires
        agrees(r, place, program_at(program_toks(items, 0), 0)),
        forall|k: int| 0 <= k < items.len() ==> readable(#[trigger] items[k]),
    ensures
        r matches Ok(registry) && holds_definitions(registry@, items),
        0 <= place < program_toks(items, 0).len(),
        program_toks(items, 0)[place] == Tok::Eof,
{
    law_program_read_back(items);
    lemma_registry_holds(items);
    lemma_items_end(program_toks(items, 0), 0);
}

/// A row of definitions goes up to the end of the text.
proof fn lemma_items_end(t: Seq<Tok>, i: int)
    ensures
        items_at(t, i) matches Ok((_, end)) ==> 0 <= end < t.len() && t[end] == Tok::Eof,
    decreases t.len() - i,
{
    if !(0 <= i < t.len() && t[i] == Tok::Eof) {
        if let Ok((_, next)) = item_at(t, i) {
            if i < next <= t.len() {
                lemma_items_end(t, next);
            }
        }
    }
}

/// Whatever a parser at the first of a row of tokens refuses: the message tells of the token at which
/// it stands then, or of the one before it.
pub proof fn law_parser_refuses_at_the_token(
    r: Result<ToylangRegistry, String>,
    place: int,
    t: Seq<Tok>,
)
    requires
        agrees(r, place, program_at(t, 0)),
        ended(t),
    ensures
        r matches Err(message) ==> tells_of_place(t, message@, place),
{
    lemma_items_tell(t, 0);
}

} // verus!
