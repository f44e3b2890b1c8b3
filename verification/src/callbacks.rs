//! What happens around a compiler session.
use std::sync::Arc;

use vstd::prelude::*;

use crate::queries::{borrowck, drop_glue, installed, layout, mir_build, RegistrySlot};
use crate::toylang::registry::{RegistryView, ToylangRegistry};

verus! {

/// The Toylang side of a compiler session.
pub struct ToyCallbacks {
    /// Parsed Toylang definitions, loaded before the session starts. Several hooks share them.
    registry: Arc<ToylangRegistry>,
}

impl View for ToyCallbacks {
    type V = RegistryView;

    closed spec fn view(&self) -> RegistryView {
        self.registry@
    }
}

impl ToyCallbacks {
    /// The callbacks for a program.
    pub fn new(registry: Arc<ToylangRegistry>) -> (r: Self)
        ensures
            r@ == registry@,
    {
        ToyCallbacks { registry }
    }

    /// The definitions of the program.
    pub fn registry(&self) -> (r: &ToylangRegistry)
        ensures
            r@ == self@,
    {
        &self.registry
    }

    /// Hands every hook the definitions of the program, before the session starts.
    pub fn config(
        &self,
        for_layout: &mut RegistrySlot,
        for_borrowck: &mut RegistrySlot,
        for_mir_build: &mut RegistrySlot,
        for_drop_glue: &mut RegistrySlot,
    )
        ensures
            final(for_layout)@ == installed(old(for_layout)@, self@),
            final(for_borrowck)@ == installed(old(for_borrowck)@, self@),
            final(for_mir_build)@ == installed(old(for_mir_build)@, self@),
            final(for_drop_glue)@ == installed(old(for_drop_glue)@, self@),
    {
        layout::install_registry(for_layout, self.registry.clone());
        borrowck::install_registry(for_borrowck, self.registry.clone());
        mir_build::install_registry(for_mir_build, self.registry.clone());
        drop_glue::install_registry(for_drop_glue, self.registry.clone());
    }
}

} // verus!
