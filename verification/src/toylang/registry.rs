//! The definitions of a Toylang program, and the memory layout of its structs.
use vstd::prelude::*;

use crate::names::NameMap;
use crate::text::views;
use crate::toylang::ast::{FnBody, FnBodyView};

verus! {

/// A Toylang struct field.
#[derive(Clone, Debug)]
pub struct ToyField {
    pub name: String,
    /// The Rust type of this field. Only primitive Rust types are supported.
    pub rust_type: ToyFieldType,
}

/// The types that a field can have.
#[derive(Clone, Copy, Debug, PartialEq, Eq, Structural)]
pub enum ToyFieldType {
    I32,
    I64,
    F64,
    Bool,
}

/// A Toylang struct definition.
#[derive(Clone, Debug)]
pub struct ToyStruct {
    pub name: String,
    pub fields: Vec<ToyField>,
}

/// A parameter in a Toylang function signature.
#[derive(Clone, Debug)]
pub struct ToyParam {
    pub name: String,
    pub ty: String,
}

/// A Toylang function definition. A function without a body is one that the compiler has a body
/// for.
#[derive(Clone, Debug)]
pub struct ToyFunction {
    pub name: String,
    pub params: Vec<ToyParam>,
    pub return_ty: Option<String>,
    pub body: Option<FnBody>,
}

/// All Toylang definitions visible to the current compilation.
pub struct ToylangRegistry {
    pub structs: NameMap<ToyStruct>,
    pub functions: NameMap<ToyFunction>,
}

/// A struct field, as contracts speak of it.
#[verifier::ext_equal]
pub struct FieldView {
    pub name: Seq<char>,
    pub rust_type: ToyFieldType,
}

/// A struct definition, as contracts speak of it.
#[verifier::ext_equal]
pub struct StructView {
    pub name: Seq<char>,
    pub fields: Seq<FieldView>,
}

/// A parameter, as contracts speak of it.
#[verifier::ext_equal]
pub struct ParamView {
    pub name: Seq<char>,
    pub ty: Seq<char>,
}

/// A function definition, as contracts speak of it.
#[verifier::ext_equal]
pub struct FunctionView {
    pub name: Seq<char>,
    pub params: Seq<ParamView>,
    pub return_ty: Option<Seq<char>>,
    pub body: Option<FnBodyView>,
}

/// The definitions of a program, as contracts speak of them.
#[verifier::ext_equal]
pub struct RegistryView {
    pub structs: Map<Seq<char>, StructView>,
    pub functions: Map<Seq<char>, FunctionView>,
}

impl View for ToyFieldType {
    type V = ToyFieldType;

    open spec fn view(&self) -> ToyFieldType {
        *self
    }
}

impl View for ToyField {
    type V = FieldView;

    open spec fn view(&self) -> FieldView {
        FieldView { name: self.name@, rust_type: self.rust_type }
    }
}

impl View for ToyStruct {
    type V = StructView;

    open spec fn view(&self) -> StructView {
        StructView { name: self.name@, fields: views(self.fields@) }
    }
}

impl View for ToyParam {
    type V = ParamView;

    open spec fn view(&self) -> ParamView {
        ParamView { name: self.name@, ty: self.ty@ }
    }
}

impl View for ToyFunction {
    type V = FunctionView;

    open spec fn view(&self) -> FunctionView {
        FunctionView {
            name: self.name@,
            params: views(self.params@),
            return_ty: match self.return_ty {
                Some(ty) => Some(ty@),
                None => None,
            },
            body: match self.body {
                Some(body) => Some(body@),
                None => None,
            },
        }
    }
}

impl View for ToylangRegistry {
    type V = RegistryView;

    open spec fn view(&self) -> RegistryView {
        RegistryView { structs: self.structs@, functions: self.functions@ }
    }
}

/// The size of a value of a field type, in bytes.
pub open spec fn size_of(ty: ToyFieldType) -> int {
    match ty {
        ToyFieldType::I32 => 4,
        ToyFieldType::I64 => 8,
        ToyFieldType::F64 => 8,
        ToyFieldType::Bool => 1,
    }
}

/// The alignment of a field type: each primitive is aligned to its size.
pub open spec fn align_of(ty: ToyFieldType) -> int {
    size_of(ty)
}

/// The least multiple of `align` that is not below `n`.
pub open spec fn round_up(n: int, align: int) -> int {
    ((n + align - 1) / align) * align
}

/// The first byte behind the last of the fields, each at the first aligned place behind the one
/// before it.
pub open spec fn fields_end(fields: Seq<FieldView>) -> int
    decreases fields.len(),
{
    if fields.len() == 0 {
        0
    } else {
        let ty = fields.last().rust_type;
        round_up(fields_end(fields.drop_last()), align_of(ty)) + size_of(ty)
    }
}

/// Where field `i` begins.
pub open spec fn field_offset(fields: Seq<FieldView>, i: int) -> int {
    round_up(fields_end(fields.take(i)), align_of(fields[i].rust_type))
}

/// The largest alignment among the fields, and 1 without fields.
pub open spec fn fields_align(fields: Seq<FieldView>) -> int
    decreases fields.len(),
{
    if fields.len() == 0 {
        1
    } else {
        let rest = fields_align(fields.drop_last());
        let last = align_of(fields.last().rust_type);
        if rest < last {
            last
        } else {
            rest
        }
    }
}

impl StructView {
    /// The alignment of the struct.
    pub open spec fn align(self) -> int {
        fields_align(self.fields)
    }

    /// The size of the struct, padding behind the last field included.
    pub open spec fn size(self) -> int {
        round_up(fields_end(self.fields), self.align())
    }

    /// The offsets of the fields.
    pub open spec fn offsets(self) -> Seq<int> {
        Seq::new(self.fields.len(), |i: int| field_offset(self.fields, i))
    }
}

/// The alignments that occur.
pub open spec fn is_align(align: int) -> bool {
    align == 1 || align == 4 || align == 8
}

/// Rounding up gives a multiple less than `align` further on.
pub proof fn lemma_round_up(n: int, align: int)
    requires
        n >= 0,
        is_align(align),
    ensures
        n <= round_up(n, align) < n + align,
        round_up(n, align) % align == 0,
{
}

/// Rounding up goes no further than the next multiple.
pub proof fn law_round_up_least(n: int, align: int, multiple: int)
    requires
        0 <= n <= multiple,
        is_align(align),
        multiple % align == 0,
    ensures
        round_up(n, align) <= multiple,
{
    lemma_round_up(n, align);
    let beyond = round_up(n, align) - multiple;
    assert(align == 4 ==> beyond % 4 == 0);
    assert(align == 8 ==> beyond % 8 == 0);
    assert(beyond < align);
}

/// The alignment of a row of fields is one of those that occur, and its end is not negative.
pub proof fn lemma_fields_align(fields: Seq<FieldView>)
    ensures
        is_align(fields_align(fields)),
        fields_end(fields) >= 0,
    decreases fields.len(),
{
    if fields.len() > 0 {
        lemma_fields_align(fields.drop_last());
        lemma_round_up(fields_end(fields.drop_last()), align_of(fields.last().rust_type));
    }
}

/// The fields end no earlier than any first part of them.
pub proof fn lemma_fields_end_grows(fields: Seq<FieldView>, i: int)
    requires
        0 <= i <= fields.len(),
    ensures
        0 <= fields_end(fields.take(i)) <= fields_end(fields),
        i < fields.len() ==> field_offset(fields, i) + size_of(fields[i].rust_type) <= fields_end(
            fields,
        ),
    decreases fields.len() - i,
{
    lemma_fields_align(fields.take(i));
    if i == fields.len() {
        assert(fields.take(i) =~= fields);
    } else {
        lemma_fields_end_grows(fields, i + 1);
        assert(fields.take(i + 1).drop_last() =~= fields.take(i));
        lemma_round_up(fields_end(fields.take(i)), align_of(fields[i].rust_type));
    }
}

/// The largest alignment is that of some field, and no field has a larger one.
pub proof fn law_align_is_largest(s: StructView)
    ensures
        is_align(s.align()),
        forall|i: int|
            0 <= i < s.fields.len() ==> align_of((#[trigger] s.fields[i]).rust_type) <= s.align(),
        s.fields.len() == 0 ==> s.align() == 1,
        s.fields.len() > 0 ==> exists|i: int|
            0 <= i < s.fields.len() && align_of((#[trigger] s.fields[i]).rust_type) == s.align(),
    decreases s.fields.len(),
{
    lemma_fields_align(s.fields);
    if s.fields.len() > 0 {
        let rest = StructView { name: s.name, fields: s.fields.drop_last() };
        law_align_is_largest(rest);
        assert forall|i: int| 0 <= i < s.fields.len() implies align_of(
            (#[trigger] s.fields[i]).rust_type,
        ) <= s.align() by {
            if i < rest.fields.len() {
                assert(rest.fields[i] == s.fields[i]);
            }
        }
        if s.align() == align_of(s.fields.last().rust_type) {
            assert(align_of(s.fields[s.fields.len() - 1].rust_type) == s.align());
        } else {
            let i = choose|i: int|
                0 <= i < rest.fields.len() && align_of((#[trigger] rest.fields[i]).rust_type)
                    == rest.align();
            assert(s.fields[i] == rest.fields[i]);
        }
    }
}

/// Each field stands on a multiple of its alignment, right behind the field before it but for
/// less padding than its alignment, and inside the struct.
pub proof fn law_fields_are_placed(s: StructView, i: int)
    requires
        0 <= i < s.fields.len(),
    ensures
        s.offsets()[i] >= 0,
        s.offsets()[i] % align_of(s.fields[i].rust_type) == 0,
        s.offsets()[i] + size_of(s.fields[i].rust_type) <= s.size(),
        i == 0 ==> s.offsets()[i] == 0,
        i > 0 ==> {
            let behind = s.offsets()[i - 1] + size_of(s.fields[i - 1].rust_type);
            behind <= s.offsets()[i] < behind + align_of(s.fields[i].rust_type)
        },
{
    let fields = s.fields;
    lemma_fields_align(fields.take(i));
    lemma_round_up(fields_end(fields.take(i)), align_of(fields[i].rust_type));
    lemma_fields_end_grows(fields, i);
    lemma_fields_align(fields);
    lemma_round_up(fields_end(fields), s.align());
    if i > 0 {
        assert(fields.take(i).drop_last() =~= fields.take(i - 1));
    } else {
        law_round_up_least(0, align_of(fields[i].rust_type), 0);
    }
}

/// No two fields share a byte: a later field begins behind the end of an earlier one.
pub proof fn law_fields_are_disjoint(s: StructView, i: int, j: int)
    requires
        0 <= i < j < s.fields.len(),
    ensures
        s.offsets()[i] + size_of(s.fields[i].rust_type) <= s.offsets()[j],
    decreases j - i,
{
    law_fields_are_placed(s, j);
    if i < j - 1 {
        law_fields_are_disjoint(s, i, j - 1);
    }
}

/// The size is a multiple of the alignment, with less padding behind the last field than the
/// alignment, so that values can stand in a row.
pub proof fn law_size_is_padded(s: StructView)
    ensures
        s.size() % s.align() == 0,
        s.fields.len() == 0 ==> s.size() == 0,
        s.fields.len() > 0 ==> {
            let last = s.fields.len() - 1;
            let behind = s.offsets()[last] + size_of(s.fields[last].rust_type);
            behind <= s.size() < behind + s.align()
        },
{
    lemma_fields_align(s.fields);
    lemma_round_up(fields_end(s.fields), s.align());
    if s.fields.len() > 0 {
        assert(s.fields.drop_last() =~= s.fields.take(s.fields.len() - 1));
    }
}

/// A struct takes no more than eight bytes for each field, so its size is a `u64` unless it has
/// more fields than memory has room for.
pub proof fn law_size_fits(s: StructView)
    ensures
        s.size() <= 8 * s.fields.len(),
        s.fields.len() <= u64::MAX / 8 ==> s.size() <= u64::MAX,
{
    lemma_fields_end_bound(s.fields);
    lemma_fields_align(s.fields);
    let room = 8 * s.fields.len() as int;
    let align = s.align();
    assert(align == 4 ==> room % 4 == 0);
    assert(align == 8 ==> room % 8 == 0);
    law_round_up_least(fields_end(s.fields), s.align(), room);
}

/// A row of fields takes no more than eight bytes for each field.
proof fn lemma_fields_end_bound(fields: Seq<FieldView>)
    ensures
        fields_end(fields) <= 8 * fields.len(),
    decreases fields.len(),
{
    if fields.len() > 0 {
        let fewer = fields.drop_last();
        let align = align_of(fields.last().rust_type);
        lemma_fields_end_bound(fewer);
        lemma_fields_align(fewer);
        let room = 8 * fewer.len() as int;
        assert(room % align == 0);
        law_round_up_least(fields_end(fewer), align, room);
    }
}

/// The next place from `offset` on that is a multiple of `align`.
fn pad(offset: u64, align: u64) -> (r: u64)
    requires
        is_align(align as int),
        round_up(offset as int, align as int) <= u64::MAX,
    ensures
        r == round_up(offset as int, align as int),
{
    let raised: u64 = offset + (align - 1);
    proof {
        assert(raised & !0u64 == raised) by (bit_vector);
        assert(raised & !3u64 == (raised / 4) * 4) by (bit_vector);
        assert(raised & !7u64 == (raised / 8) * 8) by (bit_vector);
    }
    raised & !(align - 1)
}

/// The next place from `offset` on that is a multiple of `align`, where it may be beyond a `u64`.
fn pad_wide(offset: u128, align: u64) -> (r: u128)
    requires
        is_align(align as int),
        offset <= u64::MAX * 8,
    ensures
        r == round_up(offset as int, align as int),
        r < offset + align,
{
    proof {
        lemma_round_up(offset as int, align as int);
    }
    let wide: u128 = align as u128;
    let raised: u128 = offset + (wide - 1);
    raised / wide * wide
}

impl ToyFieldType {
    /// The size of a value, in bytes.
    pub fn size(&self) -> (r: u64)
        ensures
            r == size_of(*self),
    {
        match self {
            ToyFieldType::I32 => 4,
            ToyFieldType::I64 => 8,
            ToyFieldType::F64 => 8,
            ToyFieldType::Bool => 1,
        }
    }

    /// The alignment, in bytes.
    pub fn align(&self) -> (r: u64)
        ensures
            r == align_of(*self),
            is_align(r as int),
    {
        match self {
            ToyFieldType::I32 => 4,
            ToyFieldType::I64 => 8,
            ToyFieldType::F64 => 8,
            ToyFieldType::Bool => 1,
        }
    }
}

impl ToyStruct {
    /// Whether the size of the struct is a `u64`.
    pub fn fits(&self) -> (r: bool)
        ensures
            r == (self@.size() <= u64::MAX),
    {
        let mut end: u128 = 0;
        let mut i: usize = 0;
        while i < self.fields.len()
            invariant
                i <= self.fields@.len(),
                end == fields_end(self@.fields.take(i as int)),
            decreases self.fields.len() - i,
        {
            proof {
                let fields = self@.fields;
                lemma_fields_end_bound(fields.take(i as int));
                lemma_fields_align(fields.take(i as int));
                assert(fields.take(i + 1).drop_last() =~= fields.take(i as int));
                assert(fields[i as int].rust_type == self.fields@[i as int].rust_type);
            }
            let start: u128 = pad_wide(end, self.fields[i].rust_type.align());
            end = start + self.fields[i].rust_type.size() as u128;
            i = i + 1;
        }
        assert(self@.fields.take(i as int) =~= self@.fields);
        proof {
            lemma_fields_end_bound(self@.fields);
            lemma_fields_align(self@.fields);
        }
        pad_wide(end, self.align()) <= u64::MAX as u128
    }

    /// Total size, with field padding applied.
    pub fn size(&self) -> (r: u64)
        requires
            self@.size() <= u64::MAX,
        ensures
            r == self@.size(),
    {
        let mut offset: u64 = 0;
        let mut i: usize = 0;
        proof {
            lemma_fields_align(self@.fields);
            lemma_round_up(fields_end(self@.fields), self@.align());
        }
        while i < self.fields.len()
            invariant
                i <= self.fields@.len(),
                fields_end(self@.fields) <= u64::MAX,
                offset == fields_end(self@.fields.take(i as int)),
            decreases self.fields.len() - i,
        {
            let ghost fields = self@.fields;
            proof {
                lemma_fields_end_grows(fields, i as int);
                assert(fields.take(i + 1).drop_last() =~= fields.take(i as int));
                assert(fields[i as int].rust_type == self.fields@[i as int].rust_type);
            }
            let align: u64 = self.fields[i].rust_type.align();
            offset = pad(offset, align);
            offset = offset + self.fields[i].rust_type.size();
            i = i + 1;
        }
        assert(self@.fields.take(i as int) =~= self@.fields);
        pad(offset, self.align())
    }

    /// The alignment is the largest alignment of any field.
    pub fn align(&self) -> (r: u64)
        ensures
            r == self@.align(),
            is_align(r as int),
    {
        let mut largest: u64 = 1;
        let mut i: usize = 0;
        while i < self.fields.len()
            invariant
                i <= self.fields@.len(),
                largest == fields_align(self@.fields.take(i as int)),
            decreases self.fields.len() - i,
        {
            let align: u64 = self.fields[i].rust_type.align();
            proof {
                let fields = self@.fields;
                assert(fields.take(i + 1).drop_last() =~= fields.take(i as int));
                assert(fields[i as int].rust_type == self.fields@[i as int].rust_type);
            }
            if largest < align {
                largest = align;
            }
            i = i + 1;
        }
        assert(self@.fields.take(i as int) =~= self@.fields);
        proof {
            lemma_fields_align(self@.fields);
        }
        largest
    }

    /// Byte offset of each field after padding.
    pub fn field_offsets(&self) -> (r: Vec<u64>)
        requires
            fields_end(self@.fields) <= u64::MAX,
        ensures
            r@.map_values(|o: u64| o as int) == self@.offsets(),
    {
        let mut offsets: Vec<u64> = Vec::new();
        let mut offset: u64 = 0;
        let mut i: usize = 0;
        while i < self.fields.len()
            invariant
                i <= self.fields@.len(),
                i == offsets@.len(),
                fields_end(self@.fields) <= u64::MAX,
                offset == fields_end(self@.fields.take(i as int)),
                forall|k: int| 0 <= k < i ==> offsets@[k] == field_offset(self@.fields, k),
            decreases self.fields.len() - i,
        {
            let ghost fields = self@.fields;
            proof {
                lemma_fields_end_grows(fields, i as int);
                assert(fields.take(i + 1).drop_last() =~= fields.take(i as int));
                assert(fields[i as int].rust_type == self.fields@[i as int].rust_type);
            }
            let align: u64 = self.fields[i].rust_type.align();
            offset = pad(offset, align);
            offsets.push(offset);
            offset = offset + self.fields[i].rust_type.size();
            i = i + 1;
        }
        assert(offsets@.map_values(|o: u64| o as int) =~= self@.offsets());
        offsets
    }
}

/// A field of type `i32`.
pub open spec fn i32_field(name: Seq<char>) -> FieldView {
    FieldView { name, rust_type: ToyFieldType::I32 }
}

/// A function that has no body of its own.
pub open spec fn bodiless(
    name: Seq<char>,
    params: Seq<ParamView>,
    return_ty: Option<Seq<char>>,
) -> FunctionView {
    FunctionView { name, params, return_ty, body: None }
}

/// The definitions that stand in where no program is given: the struct `Point` of two `i32`
/// fields, and three functions without bodies.
pub open spec fn point_registry() -> RegistryView {
    RegistryView {
        structs: Map::empty().insert(
            "Point"@,
            StructView { name: "Point"@, fields: seq![i32_field("x"@), i32_field("y"@)] },
        ),
        functions: Map::empty().insert(
            "make_vec"@,
            bodiless("make_vec"@, Seq::empty(), Some("Vec<Point>"@)),
        ).insert(
            "vec_len"@,
            bodiless(
                "vec_len"@,
                seq![ParamView { name: "v"@, ty: "&Vec<Point>"@ }],
                Some("usize"@),
            ),
        ).insert("get_x"@, bodiless("get_x"@, Seq::empty(), None)),
    }
}

impl ToylangRegistry {
    /// The definitions that stand in where no program is given.
    pub fn hardcoded_point() -> (r: Self)
        ensures
            r@ == point_registry(),
    {
        let mut fields: Vec<ToyField> = Vec::new();
        fields.push(ToyField { name: "x".to_owned(), rust_type: ToyFieldType::I32 });
        fields.push(ToyField { name: "y".to_owned(), rust_type: ToyFieldType::I32 });
        let point: ToyStruct = ToyStruct { name: "Point".to_owned(), fields };
        assert(point@.fields =~= seq![i32_field("x"@), i32_field("y"@)]);
        let mut structs: NameMap<ToyStruct> = NameMap::new();
        structs.insert("Point".to_owned(), point);

        let make_vec: ToyFunction = ToyFunction {
            name: "make_vec".to_owned(),
            params: Vec::new(),
            return_ty: Some("Vec<Point>".to_owned()),
            body: None,
        };
        assert(make_vec@.params =~= Seq::empty());
        let mut params: Vec<ToyParam> = Vec::new();
        params.push(ToyParam { name: "v".to_owned(), ty: "&Vec<Point>".to_owned() });
        let vec_len: ToyFunction = ToyFunction {
            name: "vec_len".to_owned(),
            params,
            return_ty: Some("usize".to_owned()),
            body: None,
        };
        assert(vec_len@.params =~= seq![ParamView { name: "v"@, ty: "&Vec<Point>"@ }]);
        let get_x: ToyFunction = ToyFunction {
            name: "get_x".to_owned(),
            params: Vec::new(),
            return_ty: None,
            body: None,
        };
        assert(get_x@.params =~= Seq::empty());
        let mut functions: NameMap<ToyFunction> = NameMap::new();
        functions.insert("make_vec".to_owned(), make_vec);
        functions.insert("vec_len".to_owned(), vec_len);
        functions.insert("get_x".to_owned(), get_x);
        ToylangRegistry { structs, functions }
    }

    /// Whether a name is that of a Toylang struct.
    pub fn is_toylang_type(&self, name: &str) -> (r: bool)
        ensures
            r == self@.structs.contains_key(name@),
    {
        self.structs.contains_key(name)
    }
}

/// How many bytes a value takes that has the Rust type of a field. An `f64` takes as many as its
/// bits do as a `u64`.
pub open spec fn rust_size(ty: ToyFieldType) -> int {
    match ty {
        ToyFieldType::I32 => vstd::layout::size_of::<i32>() as int,
        ToyFieldType::I64 => vstd::layout::size_of::<i64>() as int,
        ToyFieldType::F64 => vstd::layout::size_of::<u64>() as int,
        ToyFieldType::Bool => vstd::layout::size_of::<bool>() as int,
    }
}

/// A field takes as many bytes as a value of its Rust type, and is aligned to as many.
pub proof fn law_fields_as_in_rust(ty: ToyFieldType)
    ensures
        size_of(ty) == rust_size(ty),
        align_of(ty) == rust_size(ty),
        rust_size(ty) > 0,
{
    broadcast use vstd::layout::layout_of_primitives;

}

/// What contracts say of a function they say of its parts: it has the name, the parameters in their
/// order, the return type and the body that it has.
pub proof fn law_functions_are_what_they_hold(f: ToyFunction, k: int)
    requires
        0 <= k < f.params@.len(),
    ensures
        f@.name == f.name@,
        f@.params.len() == f.params@.len(),
        f@.params[k].name == f.params@[k].name@,
        f@.params[k].ty == f.params@[k].ty@,
        f@.return_ty is Some <==> f.return_ty is Some,
        f.return_ty matches Some(ty) ==> f@.return_ty == Some(ty@),
        f@.body is Some <==> f.body is Some,
        f.body matches Some(body) ==> f@.body == Some(body@),
{
}

/// What contracts say of a struct they say of its parts: it has the name and the fields in their
/// order that it has.
pub proof fn law_structs_are_what_they_hold(s: ToyStruct, k: int)
    requires
        0 <= k < s.fields@.len(),
    ensures
        s@.name == s.name@,
        s@.fields.len() == s.fields@.len(),
        s@.fields[k].name == s.fields@[k].name@,
        s@.fields[k].rust_type == s.fields@[k].rust_type,
{
}

} // verus!
