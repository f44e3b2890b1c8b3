//! The drop glue of Toylang's structs.
use std::sync::Arc;

use vstd::prelude::*;

use crate::mir::{
    BlockView, Body, BodySource, BodyView, Callee, MirTy, Operand, StatementView, TerminatorView,
};
use crate::mir_helpers::{build_drop_call_body, drop_call_body, drop_name};
use crate::queries::{installed, struct_asked_for, QueriedTy, RegistrySlot};
use crate::text::{find, law_first_is_found, views};
use crate::toylang::registry::{RegistryView, ToylangRegistry};

verus! {

/// Hands the hook the definitions of the program.
pub fn install_registry(slot: &mut RegistrySlot, r: Arc<ToylangRegistry>)
    ensures
        final(slot)@ == installed(old(slot)@, r@),
{
    slot.set(r);
}

/// A function that the compiler wants a synthetic body for.
#[derive(Clone, Copy, Debug)]
pub enum Instance<'a> {
    /// The drop glue of a type, or of a type that needs none.
    DropGlue(Option<QueriedTy<'a>>),
    Other,
}

/// The struct of the program that a type is, by its name.
pub fn toylang_struct_name(slot: &RegistrySlot, ty: QueriedTy<'_>) -> (r: Option<String>)
    ensures
        match r {
            Some(name) => struct_asked_for(slot@, ty) == Some(name@),
            None => struct_asked_for(slot@, ty) is None,
        },
{
    match ty {
        QueriedTy::Adt(name) => match slot.get() {
            Some(registry) => if registry.is_toylang_type(name) {
                Some(name.to_owned())
            } else {
                None
            },
            None => None,
        },
        QueriedTy::Other => None,
    }
}

/// The body of a synthetic function, where it is Toylang's.
pub open spec fn shim_of(
    slot: Option<RegistryView>,
    instance: Instance<'_>,
    foreign: Seq<Seq<char>>,
) -> Option<BodyView> {
    match instance {
        Instance::DropGlue(Some(ty)) => match struct_asked_for(slot, ty) {
            Some(name) => Some(drop_call_body(find(foreign, drop_name(name)))),
            None => None,
        },
        _ => None,
    }
}

/// Whether an answer is the body of a synthetic function, or leaves it to the compiler's own provider.
pub open spec fn is_shim(
    r: Option<Body>,
    slot: Option<RegistryView>,
    instance: Instance<'_>,
    foreign: Seq<Seq<char>>,
) -> bool {
    match r {
        Some(body) => shim_of(slot, instance, foreign) == Some(body@),
        None => shim_of(slot, instance, foreign) is None,
    }
}

/// Builds the drop glue of a Toylang struct. `None` leaves the function to the compiler's own
/// provider. `foreign` holds the names of the crate's foreign items.
pub fn toy_mir_shims(
    slot: &RegistrySlot,
    instance: Instance<'_>,
    foreign: &Vec<String>,
) -> (r: Option<Body>)
    ensures
        is_shim(r, slot@, instance, views(foreign@)),
{
    if let Instance::DropGlue(Some(ty)) = instance {
        if let Some(struct_name) = toylang_struct_name(slot, ty) {
            return Some(build_drop_call_body(struct_name.as_str(), foreign));
        }
    }
    None
}

/// Whether a body does nothing but call the foreign function at a place with its first argument.
pub open spec fn only_calls(b: BodyView, foreign: usize) -> bool {
    b.blocks == seq![
        BlockView {
            statements: Seq::<StatementView>::empty(),
            terminator: TerminatorView::Call {
                func: Callee::Foreign(foreign),
                args: seq![Operand::Copy(1)],
                destination: 0,
                target: 1,
            },
        },
        BlockView {
            statements: Seq::<StatementView>::empty(),
            terminator: TerminatorView::Return,
        },
    ]
}

/// Whether a body does nothing.
pub open spec fn only_returns(b: BodyView) -> bool {
    b.blocks == seq![
        BlockView {
            statements: Seq::<StatementView>::empty(),
            terminator: TerminatorView::Return,
        },
    ]
}

/// The drop glue of a struct of the registry calls the foreign function whose name is
/// `__toylang_drop_` with the name of that struct behind it, the first one with that name, and hands
/// it the pointer. Where no foreign function has the name the glue does nothing.
pub proof fn law_drop_glue_calls_own_function(
    registry: RegistryView,
    name: &str,
    foreign: Seq<Seq<char>>,
)
    requires
        registry.structs.contains_key(name@),
        foreign.len() <= usize::MAX,
    ensures
        shim_of(
            Some(registry),
            Instance::DropGlue(Some(QueriedTy::Adt(name))),
            foreign,
        ) matches Some(b) && {
            let own = "__toylang_drop_"@ + name@;
            &&& b.source == BodySource::DropGlue
            &&& b.arg_count == 1
            &&& b.locals == seq![MirTy::Unit, MirTy::MutPtrElem]
            &&& (forall|k: int| 0 <= k < foreign.len() ==> #[trigger] foreign[k] != own)
                ==> only_returns(b)
            &&& forall|i: int|
                0 <= i < foreign.len() && #[trigger] foreign[i] == own && (forall|k: int|
                    0 <= k < i ==> #[trigger] foreign[k] != own) ==> only_calls(b, i as usize)
        },
{
    let own = "__toylang_drop_"@ + name@;
    law_first_is_found(foreign, own);
    let b = drop_call_body(find(foreign, own));
    if let Some(first) = find(foreign, own) {
        assert(foreign[first as int] == own);
        assert forall|i: int|
            0 <= i < foreign.len() && #[trigger] foreign[i] == own && (forall|k: int|
                0 <= k < i ==> #[trigger] foreign[k] != own) implies only_calls(b, i as usize) by {
            assert(i <= first);
            assert(first <= i);
        }
    }
}

/// Only the drop glue of the structs of the registry is Toylang's.
pub proof fn law_other_shims_are_left(
    slot: Option<RegistryView>,
    instance: Instance<'_>,
    foreign: Seq<Seq<char>>,
)
    ensures
        shim_of(slot, instance, foreign) is Some <==> (slot matches Some(registry)
            && instance matches Instance::DropGlue(Some(ty)) && ty matches QueriedTy::Adt(name)
            && registry.structs.contains_key(name@)),
{
}

/// Whatever body is answered for the drop glue of a struct of the registry: it calls foreign function
/// `i` exactly if the name of foreign item `i` is `__toylang_drop_` with the name of the struct behind
/// it and no earlier foreign item has that name, and it does nothing where none has it.
pub proof fn law_answered_drop_glue(
    r: Option<Body>,
    registry: RegistryView,
    name: &str,
    foreign: Seq<Seq<char>>,
    i: int,
)
    requires
        is_shim(r, Some(registry), Instance::DropGlue(Some(QueriedTy::Adt(name))), foreign),
        registry.structs.contains_key(name@),
        foreign.len() <= usize::MAX,
        0 <= i < foreign.len(),
    ensures
        r matches Some(body) && {
            let own = "__toylang_drop_"@ + name@;
            let first = foreign[i] == own && forall|k: int| 0 <= k < i ==> #[trigger] foreign[k] != own;
            &&& only_calls(body@, i as usize) <==> first
            &&& only_returns(body@) <==> forall|k: int|
                0 <= k < foreign.len() ==> #[trigger] foreign[k] != own
        },
{
    let own = "__toylang_drop_"@ + name@;
    law_drop_glue_calls_own_function(registry, name, foreign);
    law_first_is_found(foreign, own);
    let b = r->0@;
    match find(foreign, own) {
        Some(j) => {
            assert(foreign[j as int] == own);
            assert(only_calls(b, j));
            assert(b.blocks.len() == 2);
            assert(!only_returns(b));
            if only_calls(b, i as usize) {
                assert(b.blocks[0].terminator->func == Callee::Foreign(i as usize));
                assert(b.blocks[0].terminator->func == Callee::Foreign(j));
            }
        },
        None => {
            assert(only_returns(b));
            assert(b.blocks.len() == 1);
        },
    }
}

/// Whatever body is answered for a synthetic function: there is one exactly for the drop glue of the
/// structs of the registry.
pub proof fn law_shims_by_name(
    r: Option<Body>,
    slot: Option<RegistryView>,
    instance: Instance<'_>,
    foreign: Seq<Seq<char>>,
)
    requires
        is_shim(r, slot, instance, foreign),
    ensures
        r is Some <==> (slot matches Some(registry) && instance matches Instance::DropGlue(Some(ty))
            && ty matches QueriedTy::Adt(name) && registry.structs.contains_key(name@)),
{
}

} // verus!
