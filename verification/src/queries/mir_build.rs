//! The bodies of Toylang's functions.
use std::sync::Arc;

use vstd::prelude::*;

use crate::execution::{content, finish, returned, Value};
use crate::mir::{
    BlockView, Body, BodyView, Local, Operand, RvalueView, StatementView, TerminatorView, MAX_INDEX,
};
use crate::mir_helpers::{build_const_i32_body, const_i32_body, law_helper_bodies_compute};
use crate::queries::{function_asked_for, installed, RegistrySlot};
use crate::text::{concat3, str_eq, views};
use crate::toylang::ast::{ExprView, FnBodyView};
use crate::toylang::lower::{
    arg_locals, build_body, entry, lower_body, LowerError, LowerErrorView,
};
use crate::toylang::meaning::{
    eval_body, last_of_name, law_lowered_bodies_compute, lemma_entry_binds, named_inputs, rebinds,
    Env,
};
use crate::toylang::refusals::{at_fault, blames_stmt, law_errors_tell_what_is_wrong, within};
use crate::toylang::registry::{
    FunctionView, ParamView, RegistryView, ToyFunction, ToylangRegistry,
};
use crate::toylang::scope::{
    blocks_of_body, body_in_scope, law_lowering_succeeds, locals_of_body, names_after, param_scope,
    roomy,
};

verus! {

/// Hands the hook the definitions of the program.
pub fn install_registry(slot: &mut RegistrySlot, r: Arc<ToylangRegistry>)
    ensures
        final(slot)@ == installed(old(slot)@, r@),
{
    slot.set(r);
}

/// Why a Toylang function has no body.
#[derive(Debug)]
pub enum BuildError<'a> {
    /// The function has none of its own and the compiler knows none either. This is the message.
    NoBody(String),
    /// Its own body cannot be lowered.
    Lower(LowerError<'a>),
}

/// Why a Toylang function has no body, as contracts speak of it.
pub enum BuildErrorView {
    NoBody(Seq<char>),
    Lower(LowerErrorView),
}

impl<'a> View for BuildError<'a> {
    type V = BuildErrorView;

    open spec fn view(&self) -> BuildErrorView {
        match self {
            BuildError::NoBody(message) => BuildErrorView::NoBody(message@),
            BuildError::Lower(err) => BuildErrorView::Lower(err@),
        }
    }
}

/// The body that the compiler has for a function whose signature has `inputs` parameters.
pub open spec fn hardcoded_body(name: Seq<char>, inputs: int) -> Result<
    BodyView,
    BuildErrorView,
> {
    if name == "get_x"@ {
        if inputs <= MAX_INDEX {
            Ok(const_i32_body(inputs, 42))
        } else {
            Err(BuildErrorView::Lower(LowerErrorView::TooManyLocals))
        }
    } else {
        Err(
            BuildErrorView::NoBody(
                "[toylang] no body for '"@ + name + "' and no AST body in registry"@,
            ),
        )
    }
}

/// The names of a function's parameters.
pub open spec fn param_names(f: FunctionView) -> Seq<Seq<char>> {
    f.params.map_values(|p: ParamView| p.name)
}

/// The body of a Toylang function whose signature has `inputs` parameters.
pub open spec fn function_body(name: Seq<char>, f: FunctionView, inputs: int) -> Result<
    BodyView,
    BuildErrorView,
> {
    match f.body {
        Some(body) => match lower_body(param_names(f), inputs, body) {
            Ok(b) => Ok(b),
            Err(err) => Err(BuildErrorView::Lower(err)),
        },
        None => hardcoded_body(name, inputs),
    }
}

/// The body of an item, where it is one of Toylang's functions.
pub open spec fn toy_body(slot: Option<RegistryView>, item: Option<&str>, inputs: int) -> Option<
    Result<BodyView, BuildErrorView>,
> {
    match function_asked_for(slot, item) {
        Some(name) => Some(function_body(name, slot->0.functions[name], inputs)),
        None => None,
    }
}

/// Whether a result is the body or the error that is expected.
pub open spec fn builds(
    r: Result<Body, BuildError<'_>>,
    expected: Result<BodyView, BuildErrorView>,
) -> bool {
    match (r, expected) {
        (Ok(body), Ok(b)) => body@ == b,
        (Err(e), Err(err)) => e@ == err,
        _ => false,
    }
}

/// Builds the body that the compiler has for a function whose signature has `inputs` parameters.
pub fn build_hardcoded<'a>(fn_name: &str, inputs: usize) -> (r: Result<Body, BuildError<'a>>)
    ensures
        builds(r, hardcoded_body(fn_name@, inputs as int)),
{
    if str_eq(fn_name, "get_x") {
        if inputs <= MAX_INDEX {
            Ok(build_const_i32_body(inputs, 42))
        } else {
            Err(BuildError::Lower(LowerError::TooManyLocals))
        }
    } else {
        Err(
            BuildError::NoBody(
                concat3("[toylang] no body for '", fn_name, "' and no AST body in registry"),
            ),
        )
    }
}

/// The function of the program that an item is, by its name.
pub fn toylang_fn_name(slot: &RegistrySlot, item: Option<&str>) -> (r: Option<String>)
    ensures
        match r {
            Some(name) => function_asked_for(slot@, item) == Some(name@),
            None => function_asked_for(slot@, item) is None,
        },
{
    match item {
        Some(name) => match slot.get() {
            Some(registry) => if registry.functions.contains_key(name) {
                Some(name.to_owned())
            } else {
                None
            },
            None => None,
        },
        None => None,
    }
}

/// The names of a function's parameters.
fn names_of_params(f: &ToyFunction) -> (r: Vec<String>)
    ensures
        views(r@) == param_names(f@),
{
    let mut names: Vec<String> = Vec::new();
    let mut i: usize = 0;
    while i < f.params.len()
        invariant
            i <= f.params@.len(),
            i == names@.len(),
            forall|k: int| 0 <= k < i ==> (#[trigger] names@[k])@ == f.params@[k].name@,
        decreases f.params.len() - i,
    {
        names.push(f.params[i].name.clone());
        i = i + 1;
    }
    assert(views(names@) =~= param_names(f@));
    names
}

/// Whether an answer is the body of an item or the error that comes instead, or leaves the item to
/// the compiler's own provider.
pub open spec fn is_answer(
    r: Option<Result<Body, BuildError<'_>>>,
    slot: Option<RegistryView>,
    item: Option<&str>,
    inputs: int,
) -> bool {
    match (r, toy_body(slot, item, inputs)) {
        (Some(built), Some(expected)) => builds(built, expected),
        (None, None) => true,
        _ => false,
    }
}

/// Builds the body of an item whose signature has `inputs` parameters. `None` leaves the item to
/// the compiler's own provider. Some items have no name.
pub fn toy_mir_built<'a>(slot: &'a RegistrySlot, item: Option<&str>, inputs: usize) -> (r: Option<
    Result<Body, BuildError<'a>>,
>)
    ensures
        is_answer(r, slot@, item, inputs as int),
{
    if let Some(fn_name) = toylang_fn_name(slot, item) {
        if let Some(registry) = slot.get() {
            if let Some(toy_fn) = registry.functions.get(fn_name.as_str()) {
                if let Some(fn_body) = &toy_fn.body {
                    let names: Vec<String> = names_of_params(toy_fn);
                    return Some(
                        match build_body(&names, inputs, fn_body) {
                            Ok(body) => Ok(body),
                            Err(err) => Err(BuildError::Lower(err)),
                        },
                    );
                }
            }
        }
        return Some(build_hardcoded(fn_name.as_str(), inputs));
    }
    None
}

/// How many parameters of a function get an argument where its signature has `inputs` parameters.
pub open spec fn passed_params(f: FunctionView, inputs: int) -> int {
    if inputs < f.params.len() {
        inputs
    } else {
        f.params.len() as int
    }
}

/// Whether parameter `k` of the first `n` parameters of a function has a name that no later one of
/// them has.
pub open spec fn has_its_name(f: FunctionView, n: int, k: int) -> bool {
    &&& 0 <= k < n <= f.params.len()
    &&& forall|j: int| k < j < n ==> (#[trigger] f.params[j]).name != f.params[k].name
}

proof fn lemma_has_its_name(f: FunctionView, n: int)
    requires
        0 <= n <= f.params.len(),
    ensures
        param_names(f).len() == f.params.len(),
        forall|k: int|
            0 <= k < f.params.len() ==> #[trigger] param_names(f)[k] == f.params[k].name,
        forall|k: int| #[trigger] last_of_name(param_names(f), n, k) <==> has_its_name(f, n, k),
{
    let names = param_names(f);
    assert forall|k: int| #[trigger] last_of_name(names, n, k) <==> has_its_name(f, n, k) by {
        if last_of_name(names, n, k) {
            assert forall|j: int| k < j < n implies (#[trigger] f.params[j]).name
                != f.params[k].name by {
                assert(names[j] != names[k]);
            }
        }
        if has_its_name(f, n, k) {
            assert forall|j: int| k < j < n implies #[trigger] names[j] != names[k] by {
                assert(f.params[j].name != f.params[k].name);
            }
        }
    }
}

/// The body that an item gets for a function of the registry does what the function's own body
/// means with each parameter standing for its argument. It returns the value of the own body, and
/// a parameter that is not bound anew then holds what its name stands for at the end. Where the
/// signature has fewer parameters than the function, the further names stand for nothing.
pub proof fn law_built_functions_compute(
    registry: RegistryView,
    item: &str,
    body: FnBodyView,
    inputs: int,
    args: Seq<Value>,
    env: Env,
)
    requires
        inputs >= 0,
        registry.functions.contains_key(item@),
        registry.functions[item@].body == Some(body),
        args.len() == inputs,
        ({
            let f = registry.functions[item@];
            forall|k: int| #[trigger]
                has_its_name(f, passed_params(f, inputs), k) ==> env[f.params[k].name] == args[k]
        }),
    ensures
        ({
            let f = registry.functions[item@];
            let n = passed_params(f, inputs);
            let (end, value) = eval_body(env, body);
            toy_body(Some(registry), Some(item), inputs) matches Some(built) && (built matches Ok(b)
                ==> b.arg_count == inputs && (finish(b, args) matches Some(st) && {
                &&& content(st, 0) == value
                &&& forall|k: int| #[trigger]
                    has_its_name(f, n, k) && !rebinds(body.stmts, f.params[k].name) ==> content(
                        st,
                        (k + 1) as Local,
                    ) == end[f.params[k].name]
            }))
        }),
{
    let f = registry.functions[item@];
    let n = passed_params(f, inputs);
    let names = param_names(f);
    lemma_has_its_name(f, n);
    assert(named_inputs(names, inputs) == n);
    assert forall|k: int| #[trigger] last_of_name(names, n, k) implies env[names[k]] == args[k] by {
        assert(has_its_name(f, n, k));
        assert(names[k] == f.params[k].name);
    }
    law_lowered_bodies_compute(names, inputs, body, args, env);
    if let Ok(b) = lower_body(names, inputs, body) {
        let st = finish(b, args)->0;
        assert forall|k: int| #[trigger] has_its_name(f, n, k) && !rebinds(
            body.stmts,
            f.params[k].name,
        ) implies content(st, (k + 1) as Local) == eval_body(env, body).0[f.params[k].name] by {
            assert(last_of_name(names, n, k));
            assert(names[k] == f.params[k].name);
        }
    }
}

/// A function of the registry gets a body exactly if its own body means something where the names
/// of the parameters that have an argument are bound, and there is room.
pub proof fn law_functions_are_built(
    registry: RegistryView,
    item: &str,
    body: FnBodyView,
    inputs: int,
    scope: Set<Seq<char>>,
)
    requires
        inputs >= 0,
        registry.functions.contains_key(item@),
        registry.functions[item@].body == Some(body),
        forall|name: Seq<char>| #[trigger]
            scope.contains(name) <==> exists|k: int|
                0 <= k < registry.functions[item@].params.len() && k < inputs && (
                #[trigger] registry.functions[item@].params[k]).name == name,
    ensures
        ({
            let f = registry.functions[item@];
            let n = passed_params(f, inputs);
            toy_body(Some(registry), Some(item), inputs) matches Some(built) && (built is Ok
                <==> body_in_scope(scope, body) && roomy(
                n + 1 + locals_of_body(body),
                blocks_of_body(body),
            ))
        }),
{
    let f = registry.functions[item@];
    law_lowering_succeeds(param_names(f), inputs, body);
    lemma_param_scope(f, inputs, scope);
}

/// The names of the parameters that get an argument.
proof fn lemma_param_scope(f: FunctionView, inputs: int, scope: Set<Seq<char>>)
    requires
        inputs >= 0,
        forall|name: Seq<char>| #[trigger]
            scope.contains(name) <==> exists|k: int|
                0 <= k < f.params.len() && k < inputs && (#[trigger] f.params[k]).name == name,
    ensures
        scope == param_scope(param_names(f), arg_locals(param_names(f), inputs)),
{
    let names = param_names(f);
    let n = arg_locals(names, inputs);
    let bound = names.take(n);
    assert forall|name: Seq<char>| #[trigger] scope.contains(name) <==> param_scope(
        names,
        n,
    ).contains(name) by {
        if scope.contains(name) {
            let k = choose|k: int|
                0 <= k < f.params.len() && k < inputs && (#[trigger] f.params[k]).name == name;
            assert(bound[k] == name);
        }
        if bound.contains(name) {
            let k = bound.index_of(name);
            assert(f.params[k].name == name);
        }
    }
    assert(scope =~= param_scope(names, n));
}

/// Where a function of the registry with an own body gets none, the error says what is wrong with
/// its own body: that it needs more locals or blocks than there are indices, or that a part of some
/// statement or of the value is wrong in just the way that the error says, with the names of the
/// parameters that get an argument and of the `let` statements before it bound.
pub proof fn law_build_errors_tell_what_is_wrong(
    registry: RegistryView,
    item: &str,
    body: FnBodyView,
    inputs: int,
    scope: Set<Seq<char>>,
)
    requires
        inputs >= 0,
        registry.functions.contains_key(item@),
        registry.functions[item@].body == Some(body),
        forall|name: Seq<char>| #[trigger]
            scope.contains(name) <==> exists|k: int|
                0 <= k < registry.functions[item@].params.len() && k < inputs && (
                #[trigger] registry.functions[item@].params[k]).name == name,
    ensures
        toy_body(Some(registry), Some(item), inputs) matches Some(built) && (built matches Err(e)
            ==> (e matches BuildErrorView::Lower(err) && match err {
            LowerErrorView::TooManyLocals => passed_params(registry.functions[item@], inputs) + 1
                + locals_of_body(body) > MAX_INDEX + 1,
            LowerErrorView::TooManyBlocks => blocks_of_body(body) > MAX_INDEX,
            _ => {
                ||| exists|k: int, part: ExprView| #[trigger]
                    blames_stmt(scope, body.stmts, k, part, err)
                ||| body.ret matches Some(value) && exists|part: ExprView|
                    within(part, value) && #[trigger] at_fault(
                        names_after(scope, body.stmts),
                        part,
                        err,
                    )
            },
        })),
{
    let f = registry.functions[item@];
    law_errors_tell_what_is_wrong(param_names(f), inputs, body);
    lemma_param_scope(f, inputs, scope);
}

/// A function whose own body is nothing but one of its parameters moves the argument of that
/// parameter to the place of the return value.
pub proof fn law_parameters_stand_for_arguments(registry: RegistryView, item: &str, k: int)
    requires
        registry.functions.contains_key(item@),
        has_its_name(
            registry.functions[item@],
            registry.functions[item@].params.len() as int,
            k,
        ),
        registry.functions[item@].params.len() <= MAX_INDEX,
        registry.functions[item@].body == Some(
            FnBodyView {
                stmts: Seq::empty(),
                ret: Some(ExprView::Var(registry.functions[item@].params[k].name)),
            },
        ),
    ensures
        toy_body(
            Some(registry),
            Some(item),
            registry.functions[item@].params.len() as int,
        ) matches Some(built) && (built matches Ok(b) && b.blocks == seq![
            BlockView {
                statements: seq![
                    StatementView::Assign(0, RvalueView::Use(Operand::Move((k + 1) as Local))),
                ],
                terminator: TerminatorView::Return,
            },
        ]),
{
    let f = registry.functions[item@];
    let n = f.params.len() as int;
    let names = param_names(f);
    lemma_has_its_name(f, n);
    lemma_entry_binds(names, n);
    assert(last_of_name(names, n, k));
    let b = lower_body(names, n, f.body->0)->Ok_0;
    let s = entry(names, n);
    assert(s.names.contains_key(names[k]));
    let statements = seq![
        StatementView::Assign(0, RvalueView::Use(Operand::Move((k + 1) as Local))),
    ];
    assert(s.current.push(statements[0]) =~= statements);
    assert(b.blocks =~= seq![BlockView { statements, terminator: TerminatorView::Return }]);
}

/// Of the functions without an own body `get_x` returns 42, whatever arguments it takes, and no
/// other one gets a body. What is said of it instead holds its name and nothing else that depends
/// on the function.
pub proof fn law_functions_without_own_body(
    registry: RegistryView,
    item: &str,
    other: &str,
    inputs: int,
    args: Seq<Value>,
)
    requires
        registry.functions.contains_key(item@),
        registry.functions.contains_key(other@),
        registry.functions[item@].body is None,
        registry.functions[other@].body is None,
        0 <= inputs <= MAX_INDEX,
    ensures
        toy_body(Some(registry), Some(item), inputs) matches Some(built) && {
            &&& built is Ok <==> item@ == "get_x"@
            &&& built matches Ok(b) ==> returned(b, args) == Some(Value::Int(42)) && b.arg_count
                == inputs
        },
        item@ != "get_x"@ && other@ != "get_x"@ ==> exists|before: Seq<char>, after: Seq<char>| {
            &&& toy_body(Some(registry), Some(item), inputs) == Some(
                Err::<BodyView, BuildErrorView>(
                    BuildErrorView::NoBody(#[trigger] (before + item@ + after)),
                ),
            )
            &&& toy_body(Some(registry), Some(other), inputs) == Some(
                Err::<BodyView, BuildErrorView>(
                    BuildErrorView::NoBody(#[trigger] (before + other@ + after)),
                ),
            )
        },
{
    law_helper_bodies_compute(inputs, 42, None, args);
    if item@ != "get_x"@ && other@ != "get_x"@ {
        let before = "[toylang] no body for '"@;
        let after = "' and no AST body in registry"@;
        assert(toy_body(Some(registry), Some(item), inputs) == Some(
            Err::<BodyView, BuildErrorView>(BuildErrorView::NoBody(before + item@ + after)),
        ));
        assert(toy_body(Some(registry), Some(other), inputs) == Some(
            Err::<BodyView, BuildErrorView>(BuildErrorView::NoBody(before + other@ + after)),
        ));
    }
}

/// An item gets a body or an error from the registry exactly if it bears the name of one of its
/// functions.
pub proof fn law_items_by_their_name(slot: Option<RegistryView>, item: Option<&str>, inputs: int)
    ensures
        toy_body(slot, item, inputs) is Some <==> (slot matches Some(registry) && item matches Some(
            name,
        ) && registry.functions.contains_key(name@)),
{
}

/// Whatever is answered for an item: it is something exactly if the item bears the name of a function
/// of the registry. For a function with an own body it is a body exactly if the own body means
/// something with the names of the parameters that get an argument bound and there is room, and the
/// body then returns the value of the own body with each of these parameters standing for its
/// argument. An error that is answered is the one that the lowering of the own body gives.
pub proof fn law_answered_bodies_compute(
    r: Option<Result<Body, BuildError<'_>>>,
    registry: RegistryView,
    item: &str,
    body: FnBodyView,
    inputs: int,
    scope: Set<Seq<char>>,
    args: Seq<Value>,
    env: Env,
)
    requires
        is_answer(r, Some(registry), Some(item), inputs),
        inputs >= 0,
        registry.functions.contains_key(item@),
        registry.functions[item@].body == Some(body),
        args.len() == inputs,
        forall|name: Seq<char>| #[trigger]
            scope.contains(name) <==> exists|k: int|
                0 <= k < registry.functions[item@].params.len() && k < inputs && (
                #[trigger] registry.functions[item@].params[k]).name == name,
        forall|k: int| #[trigger]
            has_its_name(
                registry.functions[item@],
                passed_params(registry.functions[item@], inputs),
                k,
            ) ==> env[registry.functions[item@].params[k].name] == args[k],
    ensures
        r matches Some(built) && {
            &&& built is Ok <==> body_in_scope(scope, body) && roomy(
                passed_params(registry.functions[item@], inputs) + 1 + locals_of_body(body),
                blocks_of_body(body),
            )
            &&& built matches Ok(b) ==> returned(b@, args) == Some(eval_body(env, body).1)
                && b@.arg_count == inputs
            &&& built matches Err(e) ==> toy_body(Some(registry), Some(item), inputs) == Some(
                Err::<BodyView, BuildErrorView>(e@),
            )
        },
{
    law_functions_are_built(registry, item, body, inputs, scope);
    law_built_functions_compute(registry, item, body, inputs, args, env);
}

/// Whatever is answered for an item: it is left to the compiler's own provider exactly if the item
/// bears the name of no function of the registry.
pub proof fn law_answers_by_name(
    r: Option<Result<Body, BuildError<'_>>>,
    slot: Option<RegistryView>,
    item: Option<&str>,
    inputs: int,
)
    requires
        is_answer(r, slot, item, inputs),
    ensures
        r is Some <==> (slot matches Some(registry) && item matches Some(name)
            && registry.functions.contains_key(name@)),
        r matches Some(Ok(b)) ==> toy_body(slot, item, inputs) == Some(
            Ok::<BodyView, BuildErrorView>(b@),
        ),
        r matches Some(Err(e)) ==> toy_body(slot, item, inputs) == Some(
            Err::<BodyView, BuildErrorView>(e@),
        ),
{
}

} // verus!
