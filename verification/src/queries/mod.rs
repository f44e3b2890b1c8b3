//! The decisions that the compiler's query hooks take.
//!
//! Each hook is told what the compiler asks about as plain values and answers what to use in place
//! of the compiler's own result, or that the compiler's own provider is to be asked.
use std::sync::Arc;

use vstd::prelude::*;

use crate::queries::borrowck::{borrowck_of, Borrowck};
use crate::queries::drop_glue::{shim_of, Instance};
use crate::queries::layout::toy_layout;
use crate::queries::mir_build::toy_body;
use crate::text::has_suffix;
use crate::toylang::registry::{RegistryView, ToylangRegistry};

pub mod borrowck;
pub mod drop_glue;
pub mod layout;
pub mod mir_build;

verus! {

/// A type that the compiler asks about.
#[derive(Clone, Copy, Debug)]
pub enum QueriedTy<'a> {
    /// A struct, an enum or a union, by its name.
    Adt(&'a str),
    /// Any other type. Pointers and references to a struct are such types, too.
    Other,
}

/// The struct of the registry that a type is, by its name. Without a registry there is none.
pub open spec fn struct_asked_for(slot: Option<RegistryView>, ty: QueriedTy<'_>) -> Option<
    Seq<char>,
> {
    match (slot, ty) {
        (Some(registry), QueriedTy::Adt(name)) => if registry.structs.contains_key(name@) {
            Some(name@)
        } else {
            None
        },
        _ => None,
    }
}

/// The function of the registry that an item is, by its name. Without a registry there is none.
pub open spec fn function_asked_for(slot: Option<RegistryView>, item: Option<&str>) -> Option<
    Seq<char>,
> {
    match (slot, item) {
        (Some(registry), Some(name)) => if registry.functions.contains_key(name@) {
            Some(name@)
        } else {
            None
        },
        _ => None,
    }
}

/// A place for the registry that a hook works with. It is filled once.
pub struct RegistrySlot {
    registry: Option<Arc<ToylangRegistry>>,
}

impl View for RegistrySlot {
    type V = Option<RegistryView>;

    closed spec fn view(&self) -> Option<RegistryView> {
        match self.registry {
            Some(registry) => Some(registry@),
            None => None,
        }
    }
}

/// What a slot holds after a registry has been put there: the first registry stays.
pub open spec fn installed(slot: Option<RegistryView>, registry: RegistryView) -> Option<
    RegistryView,
> {
    match slot {
        Some(first) => Some(first),
        None => Some(registry),
    }
}

impl RegistrySlot {
    /// An empty slot.
    pub fn new() -> (r: Self)
        ensures
            r@ is None,
    {
        RegistrySlot { registry: None }
    }

    /// Fills the slot. A slot that is filled stays as it is.
    pub fn set(&mut self, registry: Arc<ToylangRegistry>)
        ensures
            final(self)@ == installed(old(self)@, registry@),
            old(self)@ is Some ==> *final(self) == *old(self),
    {
        if self.registry.is_none() {
            self.registry = Some(registry);
        }
    }

    /// The registry in the slot.
    pub fn get(&self) -> (r: Option<&ToylangRegistry>)
        ensures
            match r {
                Some(registry) => self@ == Some(registry@),
                None => self@ is None,
            },
    {
        match &self.registry {
            Some(registry) => Some(registry),
            None => None,
        }
    }
}

/// The registry that was installed first stays, whatever is installed later.
pub proof fn law_first_registry_stays(
    slot: Option<RegistryView>,
    first: RegistryView,
    later: RegistryView,
)
    ensures
        installed(None, first) == Some(first),
        installed(Some(first), later) == Some(first),
        installed(installed(slot, first), later) == installed(slot, first),
{
}

/// The layout hook and the drop glue hook take the same types for Toylang's: those that bear the
/// name of a struct of the registry, and no pointer or reference to one.
pub proof fn law_same_types_have_layout_and_drop_glue(
    slot: Option<RegistryView>,
    ty: QueriedTy<'_>,
    foreign: Seq<Seq<char>>,
)
    ensures
        toy_layout(slot, ty) is Some <==> shim_of(
            slot,
            Instance::DropGlue(Some(ty)),
            foreign,
        ) is Some,
        toy_layout(slot, ty) is Some <==> (slot matches Some(registry) && ty matches QueriedTy::Adt(
            name,
        ) && registry.structs.contains_key(name@)),
{
}

/// An item that gets its body from the registry is never borrow checked, whatever file it is in.
pub proof fn law_built_bodies_are_not_borrow_checked(
    slot: Option<RegistryView>,
    item: Option<&str>,
    inputs: int,
    file: Seq<char>,
)
    ensures
        toy_body(slot, item, inputs) is Some ==> borrowck_of(slot, file, item) == Borrowck::Skip,
        borrowck_of(slot, file, item) == Borrowck::Skip && !has_suffix(file, ".toylang"@)
            ==> toy_body(slot, item, inputs) is Some,
{
}

/// Without a registry every hook leaves the compiler's own result, but that items of Toylang files
/// are not borrow checked.
pub proof fn law_nothing_changes_without_registry(
    ty: QueriedTy<'_>,
    instance: Instance<'_>,
    foreign: Seq<Seq<char>>,
    item: Option<&str>,
    inputs: int,
    file: Seq<char>,
)
    ensures
        toy_layout(None, ty) is None,
        shim_of(None, instance, foreign) is None,
        toy_body(None, item, inputs) is None,
        borrowck_of(None, file, item) == Borrowck::Default <==> !has_suffix(file, ".toylang"@),
{
}

} // verus!
