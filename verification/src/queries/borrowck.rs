//! Borrow checking, which Toylang items are exempt from.
use std::sync::Arc;

use vstd::prelude::*;

use crate::queries::{function_asked_for, installed, RegistrySlot};
use crate::text::{ends_with, has_suffix, law_suffix_stands_behind};
use crate::toylang::registry::{RegistryView, ToylangRegistry};

verus! {

/// Hands the hook the definitions of the program.
pub fn install_registry(slot: &mut RegistrySlot, r: Arc<ToylangRegistry>)
    ensures
        final(slot)@ == installed(old(slot)@, r@),
{
    slot.set(r);
}

/// How an item is to be borrow checked.
#[derive(Clone, Copy, Debug, PartialEq, Eq, Structural)]
pub enum Borrowck {
    /// Not at all: the result is one without findings.
    Skip,
    /// By the compiler's own provider.
    Default,
}

/// Whether an item is Toylang's: it stands in a Toylang file, or it bears the name of a function of
/// the program.
pub open spec fn is_toylang(
    slot: Option<RegistryView>,
    file: Seq<char>,
    item: Option<&str>,
) -> bool {
    has_suffix(file, ".toylang"@) || function_asked_for(slot, item) is Some
}

/// Whether an item of a file is Toylang's. Some items have no name.
pub fn is_toylang_item(slot: &RegistrySlot, file: &str, item: Option<&str>) -> (r: bool)
    ensures
        r == is_toylang(slot@, file@, item),
{
    if ends_with(file, ".toylang") {
        return true;
    }
    if let Some(name) = item {
        if let Some(registry) = slot.get() {
            return registry.functions.contains_key(name);
        }
    }
    false
}

/// How the borrow checker deals with an item.
pub open spec fn borrowck_of(
    slot: Option<RegistryView>,
    file: Seq<char>,
    item: Option<&str>,
) -> Borrowck {
    if is_toylang(slot, file, item) {
        Borrowck::Skip
    } else {
        Borrowck::Default
    }
}

/// How the borrow checker is to deal with an item of a file. Some items have no name.
pub fn toy_mir_borrowck(slot: &RegistrySlot, file: &str, item: Option<&str>) -> (r: Borrowck)
    ensures
        r == borrowck_of(slot@, file@, item),
{
    if is_toylang_item(slot, file, item) {
        Borrowck::Skip
    } else {
        Borrowck::Default
    }
}

/// An item is exempt from borrow checking exactly if the name of its file ends in `.toylang` or the
/// item bears the name of a function of the registry.
pub proof fn law_who_is_borrow_checked(
    slot: Option<RegistryView>,
    file: Seq<char>,
    item: Option<&str>,
)
    ensures
        borrowck_of(slot, file, item) == Borrowck::Skip <==> {
            ||| exists|front: Seq<char>| file == #[trigger] (front + ".toylang"@)
            ||| slot matches Some(registry) && item matches Some(name)
                && registry.functions.contains_key(name@)
        },
{
    law_suffix_stands_behind(file, ".toylang"@);
}

} // verus!
