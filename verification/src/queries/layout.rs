//! The memory layout of Toylang's structs.
use std::sync::Arc;

use vstd::prelude::*;

use crate::queries::{installed, struct_asked_for, QueriedTy, RegistrySlot};
use crate::toylang::registry::{
    align_of, fields_end, law_align_is_largest, law_fields_are_disjoint, law_fields_are_placed,
    law_fields_as_in_rust, law_size_is_padded, lemma_fields_align, lemma_round_up, rust_size,
    RegistryView, StructView, ToyStruct, ToylangRegistry,
};

verus! {

/// Hands the hook the definitions of the program.
pub fn install_registry(slot: &mut RegistrySlot, r: Arc<ToylangRegistry>)
    ensures
        final(slot)@ == installed(old(slot)@, r@),
{
    slot.set(r);
}

/// A layout: a single variant that lives in memory, without niches, with each field at an offset.
#[derive(Debug)]
pub struct Layout {
    /// In bytes.
    pub size: u64,
    /// In bytes.
    pub align: u64,
    /// In bytes, by the order of the declaration.
    pub offsets: Vec<u64>,
    /// For each field, by the order of the declaration, how many fields come before it in memory.
    pub memory_index: Vec<u32>,
}

/// A layout, as contracts speak of it.
#[verifier::ext_equal]
pub struct LayoutView {
    pub size: int,
    pub align: int,
    pub offsets: Seq<int>,
    pub memory_index: Seq<int>,
}

impl View for Layout {
    type V = LayoutView;

    open spec fn view(&self) -> LayoutView {
        LayoutView {
            size: self.size as int,
            align: self.align as int,
            offsets: self.offsets@.map_values(|o: u64| o as int),
            memory_index: self.memory_index@.map_values(|i: u32| i as int),
        }
    }
}

/// The layout of a struct: its fields follow each other in memory as in the declaration.
pub open spec fn layout_of(s: StructView) -> LayoutView {
    LayoutView {
        size: s.size(),
        align: s.align(),
        offsets: s.offsets(),
        memory_index: Seq::new(s.fields.len(), |i: int| i),
    }
}

/// Builds the layout of a struct.
pub fn build_layout(toy: &ToyStruct) -> (r: Layout)
    requires
        toy@.size() <= u64::MAX,
        toy@.fields.len() <= u32::MAX,
    ensures
        r@ == layout_of(toy@),
{
    proof {
        lemma_fields_align(toy@.fields);
        lemma_round_up(fields_end(toy@.fields), toy@.align());
    }
    let count: u32 = toy.fields.len() as u32;
    let mut memory_index: Vec<u32> = Vec::new();
    let mut i: u32 = 0;
    while i < count
        invariant
            i <= count,
            memory_index@.len() == i,
            forall|k: int| 0 <= k < i ==> memory_index@[k] == k,
        decreases count - i,
    {
        memory_index.push(i);
        i = i + 1;
    }
    let r = Layout {
        size: toy.size(),
        align: toy.align(),
        offsets: toy.field_offsets(),
        memory_index,
    };
    assert(r@.memory_index =~= layout_of(toy@).memory_index);
    r
}

/// The layout of a type, where it is one of Toylang's structs.
pub open spec fn toy_layout(slot: Option<RegistryView>, ty: QueriedTy<'_>) -> Option<LayoutView> {
    match struct_asked_for(slot, ty) {
        Some(name) => Some(layout_of(slot->0.structs[name])),
        None => None,
    }
}

/// Whether an answer is the layout of a type, or leaves the type to the compiler's own provider.
pub open spec fn is_layout(
    r: Option<Layout>,
    slot: Option<RegistryView>,
    ty: QueriedTy<'_>,
) -> bool {
    match r {
        Some(layout) => toy_layout(slot, ty) == Some(layout@),
        None => toy_layout(slot, ty) is None,
    }
}

/// The layout of a Toylang struct. `None` leaves the type to the compiler's own provider.
pub fn toy_layout_of(slot: &RegistrySlot, ty: QueriedTy<'_>) -> (r: Option<Layout>)
    requires
        struct_asked_for(slot@, ty) matches Some(name) ==> {
            &&& slot@->0.structs[name].size() <= u64::MAX
            &&& slot@->0.structs[name].fields.len() <= u32::MAX
        },
    ensures
        is_layout(r, slot@, ty),
{
    match ty {
        QueriedTy::Adt(name) => match slot.get() {
            Some(registry) => match registry.structs.get(name) {
                Some(toy) => Some(build_layout(toy)),
                None => None,
            },
            None => None,
        },
        QueriedTy::Other => None,
    }
}

/// In the layout of a struct of the registry the alignment is the largest that a field has, and 1
/// without fields. The size is a multiple of the alignment, reaches behind the last field, and does
/// so by less than the alignment. There is an offset for each field.
pub proof fn law_layouts_are_padded(registry: RegistryView, name: &str)
    requires
        registry.structs.contains_key(name@),
    ensures
        toy_layout(Some(registry), QueriedTy::Adt(name)) matches Some(layout) && {
            let fields = registry.structs[name@].fields;
            &&& layout.offsets.len() == fields.len()
            &&& layout.memory_index.len() == fields.len()
            &&& layout.align > 0
            &&& layout.size % layout.align == 0
            &&& forall|i: int|
                0 <= i < fields.len() ==> rust_size((#[trigger] fields[i]).rust_type)
                    <= layout.align
            &&& fields.len() == 0 ==> layout.align == 1 && layout.size == 0
            &&& fields.len() > 0 ==> {
                let end = layout.offsets.last() + rust_size(fields.last().rust_type);
                &&& end <= layout.size < end + layout.align
                &&& exists|i: int|
                    0 <= i < fields.len() && rust_size((#[trigger] fields[i]).rust_type)
                        == layout.align
            }
        },
{
    let s = registry.structs[name@];
    law_align_is_largest(s);
    law_size_is_padded(s);
    assert forall|i: int| 0 <= i < s.fields.len() implies rust_size(
        (#[trigger] s.fields[i]).rust_type,
    ) <= s.align() by {
        law_fields_as_in_rust(s.fields[i].rust_type);
    }
    if s.fields.len() > 0 {
        let i = choose|i: int|
            0 <= i < s.fields.len() && align_of((#[trigger] s.fields[i]).rust_type) == s.align();
        law_fields_as_in_rust(s.fields[i].rust_type);
        assert(rust_size(s.fields[i].rust_type) == s.align());
        law_fields_as_in_rust(s.fields.last().rust_type);
    }
}

/// In the layout of a struct of the registry each field stands on a multiple of its own size and
/// ends inside the struct. The first field stands at the beginning, and each other one behind the
/// field before it, with less padding than its own size between them. The fields stand in memory in
/// the order of the declaration.
pub proof fn law_layouts_place_fields(registry: RegistryView, name: &str, i: int)
    requires
        registry.structs.contains_key(name@),
        0 <= i < registry.structs[name@].fields.len(),
    ensures
        toy_layout(Some(registry), QueriedTy::Adt(name)) matches Some(layout) && {
            let fields = registry.structs[name@].fields;
            let size = rust_size(fields[i].rust_type);
            &&& 0 <= layout.offsets[i]
            &&& layout.offsets[i] % size == 0
            &&& layout.offsets[i] + size <= layout.size
            &&& i == 0 ==> layout.offsets[i] == 0
            &&& i > 0 ==> {
                let end = layout.offsets[i - 1] + rust_size(fields[i - 1].rust_type);
                end <= layout.offsets[i] < end + size
            }
            &&& layout.memory_index[i] == i
        },
{
    let s = registry.structs[name@];
    law_fields_are_placed(s, i);
    law_fields_as_in_rust(s.fields[i].rust_type);
    if i > 0 {
        law_fields_as_in_rust(s.fields[i - 1].rust_type);
    }
}

/// In the layout of a struct of the registry no two fields share a byte.
pub proof fn law_layouts_keep_fields_apart(registry: RegistryView, name: &str, i: int, j: int)
    requires
        registry.structs.contains_key(name@),
        0 <= i < j < registry.structs[name@].fields.len(),
    ensures
        toy_layout(Some(registry), QueriedTy::Adt(name)) matches Some(layout) && layout.offsets[i]
            + rust_size(registry.structs[name@].fields[i].rust_type) <= layout.offsets[j],
{
    let s = registry.structs[name@];
    law_fields_are_disjoint(s, i, j);
    law_fields_as_in_rust(s.fields[i].rust_type);
}

/// Whatever layout is answered for a struct of the registry: the alignment is the largest that a
/// field has, and 1 without fields. The size is a multiple of the alignment and exceeds the end of
/// the last field by less than the alignment. There is an offset for each field.
#[verifier::rlimit(40)]
pub proof fn law_answered_layouts_are_padded(
    r: Option<Layout>,
    registry: RegistryView,
    name: &str,
)
    requires
        is_layout(r, Some(registry), QueriedTy::Adt(name)),
        registry.structs.contains_key(name@),
    ensures
        r matches Some(layout) && {
            let fields = registry.structs[name@].fields;
            &&& layout.offsets@.len() == fields.len()
            &&& layout.memory_index@.len() == fields.len()
            &&& layout.align > 0
            &&& layout.size % layout.align == 0
            &&& forall|i: int|
                0 <= i < fields.len() ==> rust_size((#[trigger] fields[i]).rust_type)
                    <= layout.align
            &&& fields.len() == 0 ==> layout.align == 1 && layout.size == 0
            &&& fields.len() > 0 ==> {
                let end = layout.offsets@.last() + rust_size(fields.last().rust_type);
                &&& end <= layout.size < end + layout.align
                &&& exists|i: int|
                    0 <= i < fields.len() && rust_size((#[trigger] fields[i]).rust_type)
                        == layout.align
            }
        },
{
    law_layouts_are_padded(registry, name);
    let layout = r->0;
    let view = toy_layout(Some(registry), QueriedTy::Adt(name))->0;
    assert(view == layout@);
    assert(view.offsets.len() == layout.offsets@.len());
    assert(view.memory_index.len() == layout.memory_index@.len());
    if registry.structs[name@].fields.len() > 0 {
        assert(view.offsets.last() == layout.offsets@.last() as int);
    }
}

/// Whatever layout is answered for a struct of the registry: each field stands on a multiple of its
/// own size and ends inside the struct. The first field stands at the beginning, and each other one
/// behind the field before it, with less padding than its own size between them. The fields stand in
/// memory in the order of the declaration.
#[verifier::rlimit(40)]
pub proof fn law_answered_layouts_place_fields(
    r: Option<Layout>,
    registry: RegistryView,
    name: &str,
    i: int,
)
    requires
        is_layout(r, Some(registry), QueriedTy::Adt(name)),
        registry.structs.contains_key(name@),
        0 <= i < registry.structs[name@].fields.len(),
    ensures
        r matches Some(layout) && {
            let fields = registry.structs[name@].fields;
            let size = rust_size(fields[i].rust_type);
            &&& layout.offsets@[i] as int % size == 0
            &&& layout.offsets@[i] + size <= layout.size
            &&& i == 0 ==> layout.offsets@[i] == 0
            &&& i > 0 ==> {
                let end = layout.offsets@[i - 1] + rust_size(fields[i - 1].rust_type);
                end <= layout.offsets@[i] < end + size
            }
            &&& layout.memory_index@[i] == i
        },
{
    law_layouts_are_padded(registry, name);
    law_layouts_place_fields(registry, name, i);
    let layout = r->0;
    let view = toy_layout(Some(registry), QueriedTy::Adt(name))->0;
    assert(view == layout@);
    assert(view.offsets.len() == layout.offsets@.len());
    assert(view.memory_index.len() == layout.memory_index@.len());
    assert(view.offsets[i] == layout.offsets@[i] as int);
    assert(view.memory_index[i] == layout.memory_index@[i] as int);
    if i > 0 {
        assert(view.offsets[i - 1] == layout.offsets@[i - 1] as int);
    }
}

/// Whatever layout is answered: there is one exactly for the structs of the registry.
pub proof fn law_layouts_by_name(
    r: Option<Layout>,
    slot: Option<RegistryView>,
    ty: QueriedTy<'_>,
)
    requires
        is_layout(r, slot, ty),
    ensures
        r is Some <==> (slot matches Some(registry) && ty matches QueriedTy::Adt(name)
            && registry.structs.contains_key(name@)),
{
}

} // verus!
