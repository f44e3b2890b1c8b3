//! What the compiler knows of Toylang's types and of the vector methods that they are used with.
//!
//! The compiler's tables come as plain lists. What is found in them is handed back by its place,
//! for the compiler to resolve.
use vstd::prelude::*;

use crate::text::{
    differ_in, digits, find, find_name, holds_text, join, join_strings, law_first_is_found,
    law_joined_parts_are_held, law_numbers_in_texts, lemma_holds_through, str_eq,
    unsigned_text, views,
};
use crate::toylang::registry::{
    fields_end, law_align_is_largest, lemma_fields_align, lemma_round_up, FieldView, StructView,
    ToyField, ToyFieldType, ToyStruct, ToylangRegistry,
};

verus! {

/// What a definition of the crate defines.
#[derive(Clone, Copy, Debug, PartialEq, Eq, Structural)]
pub enum DefKind {
    Struct,
    Other,
}

/// A definition of the crate. Some definitions have no name.
#[derive(Debug)]
pub struct Definition {
    pub kind: DefKind,
    pub name: Option<String>,
}

/// A definition, as contracts speak of it.
pub struct DefinitionView {
    pub kind: DefKind,
    pub name: Option<Seq<char>>,
}

impl View for Definition {
    type V = DefinitionView;

    open spec fn view(&self) -> DefinitionView {
        DefinitionView {
            kind: self.kind,
            name: match self.name {
                Some(name) => Some(name@),
                None => None,
            },
        }
    }
}

/// Whether a definition is that of the struct with a name.
pub open spec fn defines_struct(definition: DefinitionView, name: Seq<char>) -> bool {
    definition.kind == DefKind::Struct && definition.name == Some(name)
}

/// The first definition from place `from` on that is that of the struct with a name.
pub open spec fn find_struct_from(
    definitions: Seq<DefinitionView>,
    name: Seq<char>,
    from: int,
) -> Option<usize>
    decreases definitions.len() - from,
{
    if from >= definitions.len() {
        None
    } else if defines_struct(definitions[from], name) {
        Some(from as usize)
    } else {
        find_struct_from(definitions, name, from + 1)
    }
}

/// The first definition that is that of the struct with a name.
pub fn find_local_struct_ty(definitions: &Vec<Definition>, name: &str) -> (r: Option<usize>)
    ensures
        r == find_struct_from(views(definitions@), name@, 0),
        match r {
            Some(i) => {
                &&& i < definitions@.len()
                &&& defines_struct(definitions@[i as int]@, name@)
                &&& forall|k: int|
                    0 <= k < i ==> !defines_struct(#[trigger] definitions@[k]@, name@)
            },
            None => forall|k: int|
                0 <= k < definitions@.len() ==> !defines_struct(
                    #[trigger] definitions@[k]@,
                    name@,
                ),
        },
{
    let mut i: usize = 0;
    while i < definitions.len()
        invariant
            i <= definitions@.len(),
            find_struct_from(views(definitions@), name@, 0) == find_struct_from(
                views(definitions@),
                name@,
                i as int,
            ),
            forall|k: int| 0 <= k < i ==> !defines_struct(#[trigger] definitions@[k]@, name@),
        decreases definitions.len() - i,
    {
        if definitions[i].kind == DefKind::Struct {
            if let Some(found) = &definitions[i].name {
                if str_eq(found.as_str(), name) {
                    return Some(i);
                }
            }
        }
        i = i + 1;
    }
    None
}

/// The names of the items in each of a row of impl blocks.
pub open spec fn item_names(impls: Seq<Vec<String>>) -> Seq<Seq<Seq<char>>> {
    impls.map_values(|items: Vec<String>| views(items@))
}

/// The first item with a name in the impl blocks from `from` on: its block and its place there.
pub open spec fn find_item_from(
    impls: Seq<Seq<Seq<char>>>,
    name: Seq<char>,
    from: int,
) -> Option<(usize, usize)>
    decreases impls.len() - from,
{
    if from >= impls.len() {
        None
    } else {
        match find(impls[from], name) {
            Some(item) => Some((from as usize, item)),
            None => find_item_from(impls, name, from + 1),
        }
    }
}

/// The first item with a name in the inherent impls of `Vec`, unless `Vec` is not known.
pub open spec fn vec_method(impls: Option<&Vec<Vec<String>>>, method: Seq<char>) -> Option<
    (usize, usize),
> {
    match impls {
        Some(blocks) => find_item_from(item_names(blocks@), method, 0),
        None => None,
    }
}

/// Finds a method by its name in the inherent impls of `Vec`. There are several impl blocks; all
/// are searched, and the block and the place in it are returned. `impls` is `None` where the
/// compiler does not know `Vec`.
pub fn find_vec_method(impls: Option<&Vec<Vec<String>>>, method: &str) -> (r: Option<
    (usize, usize),
>)
    ensures
        r == vec_method(impls, method@),
        match (r, impls) {
            (Some((i, j)), Some(blocks)) => {
                &&& i < blocks@.len()
                &&& j < blocks@[i as int]@.len()
                &&& blocks@[i as int]@[j as int]@ == method@
                &&& forall|k: int| 0 <= k < j ==> #[trigger] blocks@[i as int]@[k]@ != method@
            },
            (Some(_), None) => false,
            (None, Some(blocks)) => forall|k: int, l: int|
                #![trigger blocks@[k]@[l]]
                0 <= k < blocks@.len() && 0 <= l < blocks@[k]@.len() ==> blocks@[k]@[l]@ != method@,
            (None, None) => true,
        },
{
    let blocks: &Vec<Vec<String>> = match impls {
        Some(blocks) => blocks,
        None => {
            return None;
        },
    };
    let mut i: usize = 0;
    while i < blocks.len()
        invariant
            i <= blocks@.len(),
            impls == Some(blocks),
            vec_method(impls, method@) == find_item_from(item_names(blocks@), method@, i as int),
            forall|k: int, l: int|
                #![trigger blocks@[k]@[l]]
                0 <= k < i && 0 <= l < blocks@[k]@.len() ==> blocks@[k]@[l]@ != method@,
        decreases blocks.len() - i,
    {
        if let Some(j) = find_name(&blocks[i], method) {
            return Some((i, j));
        }
        i = i + 1;
    }
    None
}

/// An argument that a generic type is applied to.
#[derive(Clone, Copy, Debug, PartialEq, Eq, Structural)]
pub enum GenericArg {
    Lifetime,
    Type,
    Const,
}

/// The shape of a type: a struct or enum with its generic arguments, or another type.
#[derive(Debug)]
pub enum TyShape {
    Adt(Vec<GenericArg>),
    Other,
}

/// Which generic argument of what `Vec::new` returns is the allocator: the second one, behind the
/// type of the elements.
pub fn extract_global_ty(output: &TyShape) -> (r: Option<usize>)
    requires
        output matches TyShape::Adt(args) ==> args@.len() > 1 && args@[1] == GenericArg::Type,
    ensures
        match output {
            TyShape::Adt(args) => r == Some(1usize) && args@[1] == GenericArg::Type,
            TyShape::Other => r is None,
        },
{
    match output {
        TyShape::Adt(_) => Some(1),
        TyShape::Other => None,
    }
}

/// What the lowering of function bodies refers to in the compiler's tables.
#[derive(Clone, Copy, Debug)]
pub struct Resolved {
    /// The definition of the struct.
    pub elem: usize,
    /// The impl block of `Vec::new` and its place there.
    pub new: (usize, usize),
    /// The impl block of `Vec::push` and its place there.
    pub push: (usize, usize),
    /// The impl block of `Vec::len` and its place there.
    pub len: (usize, usize),
}

/// What the lowering refers to, or the message that says what is missing.
pub open spec fn resolved(
    definitions: Seq<DefinitionView>,
    impls: Option<&Vec<Vec<String>>>,
) -> Result<Resolved, Seq<char>> {
    match find_struct_from(definitions, "Point"@, 0) {
        None => Err("[toylang] Point struct not found"@),
        Some(elem) => match vec_method(impls, "new"@) {
            None => Err("[toylang] Vec::new not found"@),
            Some(new) => match vec_method(impls, "push"@) {
                None => Err("[toylang] Vec::push not found"@),
                Some(push) => match vec_method(impls, "len"@) {
                    None => Err("[toylang] Vec::len not found"@),
                    Some(len) => Ok(Resolved { elem, new, push, len }),
                },
            },
        },
    }
}

/// Whether a result is what the lowering refers to, or the message that says what is missing.
pub open spec fn is_resolved(
    r: Result<Resolved, String>,
    definitions: Seq<DefinitionView>,
    impls: Option<&Vec<Vec<String>>>,
) -> bool {
    match (r, resolved(definitions, impls)) {
        (Ok(found), Ok(expected)) => found == expected,
        (Err(message), Err(expected)) => message@ == expected,
        _ => false,
    }
}

/// Looks up what the lowering of function bodies refers to. The error is the message that says
/// what is missing.
pub fn resolve(definitions: &Vec<Definition>, impls: Option<&Vec<Vec<String>>>) -> (r: Result<
    Resolved,
    String,
>)
    ensures
        is_resolved(r, views(definitions@), impls),
{
    let elem: usize = match find_local_struct_ty(definitions, "Point") {
        Some(elem) => elem,
        None => {
            return Err("[toylang] Point struct not found".to_owned());
        },
    };
    let new: (usize, usize) = match find_vec_method(impls, "new") {
        Some(new) => new,
        None => {
            return Err("[toylang] Vec::new not found".to_owned());
        },
    };
    let push: (usize, usize) = match find_vec_method(impls, "push") {
        Some(push) => push,
        None => {
            return Err("[toylang] Vec::push not found".to_owned());
        },
    };
    let len: (usize, usize) = match find_vec_method(impls, "len") {
        Some(len) => len,
        None => {
            return Err("[toylang] Vec::len not found".to_owned());
        },
    };
    Ok(Resolved { elem, new, push, len })
}

/// What a line of the dump ends in, behind its text.
#[derive(Clone, Copy, Debug, PartialEq, Eq, Structural)]
pub enum Rest {
    Nothing,
    /// The type that the definition at a place defines.
    Ty(usize),
    /// The signature of the item at a place in an impl block of `Vec`.
    Sig(usize, usize),
}

/// A line of the dump.
#[derive(Debug)]
pub struct OracleLine {
    pub text: String,
    pub rest: Rest,
}

/// A line of the dump, as contracts speak of it.
#[verifier::ext_equal]
pub struct LineView {
    pub text: Seq<char>,
    pub rest: Rest,
}

impl View for OracleLine {
    type V = LineView;

    open spec fn view(&self) -> LineView {
        LineView { text: self.text@, rest: self.rest }
    }
}

/// The name of a field type in the dump.
pub open spec fn type_text(ty: ToyFieldType) -> Seq<char> {
    match ty {
        ToyFieldType::I32 => "I32"@,
        ToyFieldType::I64 => "I64"@,
        ToyFieldType::F64 => "F64"@,
        ToyFieldType::Bool => "Bool"@,
    }
}

/// A field in the dump.
pub open spec fn field_text(field: FieldView) -> Seq<char> {
    field.name + ": "@ + type_text(field.rust_type)
}

/// The line of a struct in the dump.
pub open spec fn struct_text(name: Seq<char>, s: StructView) -> Seq<char> {
    "[oracle] "@ + name + ": size="@ + digits(s.size() as nat) + " align="@ + digits(
        s.align() as nat,
    ) + " fields=["@ + join(s.fields.map_values(|f: FieldView| field_text(f)), ", "@) + "]"@
}

/// The line of a struct's type in the dump.
pub open spec fn ty_lines(definitions: Seq<DefinitionView>, name: Seq<char>) -> Seq<LineView> {
    match find_struct_from(definitions, name, 0) {
        Some(i) => seq![LineView { text: "[oracle]   Ty = "@, rest: Rest::Ty(i) }],
        None => Seq::empty(),
    }
}

/// The line of a vector method in the dump.
pub open spec fn method_lines(
    impls: Option<&Vec<Vec<String>>>,
    name: Seq<char>,
    method: Seq<char>,
) -> Seq<LineView> {
    match vec_method(impls, method) {
        Some((i, j)) => seq![
            LineView {
                text: "[oracle]   Vec<"@ + name + ">::"@ + method + " -> "@,
                rest: Rest::Sig(i, j),
            },
        ],
        None => Seq::empty(),
    }
}

/// The lines of a struct in the dump.
pub open spec fn struct_lines(
    name: Seq<char>,
    s: StructView,
    definitions: Seq<DefinitionView>,
    impls: Option<&Vec<Vec<String>>>,
) -> Seq<LineView> {
    seq![LineView { text: struct_text(name, s), rest: Rest::Nothing }] + ty_lines(definitions, name)
        + method_lines(impls, name, "new"@) + method_lines(impls, name, "push"@) + method_lines(
        impls,
        name,
        "len"@,
    )
}

/// The dump of a row of structs, one after the other.
pub open spec fn oracle_lines(
    names: Seq<Seq<char>>,
    structs: Map<Seq<char>, StructView>,
    definitions: Seq<DefinitionView>,
    impls: Option<&Vec<Vec<String>>>,
) -> Seq<LineView>
    decreases names.len(),
{
    if names.len() == 0 {
        Seq::empty()
    } else {
        oracle_lines(names.drop_last(), structs, definitions, impls) + struct_lines(
            names.last(),
            structs[names.last()],
            definitions,
            impls,
        )
    }
}

/// A field in the dump.
fn show_field(field: &ToyField) -> (r: String)
    ensures
        r@ == field_text(field@),
{
    let mut r: String = field.name.clone();
    r.append(": ");
    r.append(
        match field.rust_type {
            ToyFieldType::I32 => "I32",
            ToyFieldType::I64 => "I64",
            ToyFieldType::F64 => "F64",
            ToyFieldType::Bool => "Bool",
        },
    );
    r
}

/// The line of a struct in the dump.
fn show_struct(name: &str, toy_struct: &ToyStruct) -> (r: String)
    requires
        toy_struct@.size() <= u64::MAX,
    ensures
        r@ == struct_text(name@, toy_struct@),
{
    let mut fields: Vec<String> = Vec::new();
    let mut i: usize = 0;
    while i < toy_struct.fields.len()
        invariant
            i <= toy_struct.fields@.len(),
            i == fields@.len(),
            forall|k: int|
                0 <= k < i ==> (#[trigger] fields@[k])@ == field_text(toy_struct.fields@[k]@),
        decreases toy_struct.fields.len() - i,
    {
        fields.push(show_field(&toy_struct.fields[i]));
        i = i + 1;
    }
    assert(views(fields@) =~= toy_struct@.fields.map_values(|f: FieldView| field_text(f)));
    let mut r: String = "[oracle] ".to_owned();
    r.append(name);
    r.append(": size=");
    r.append(unsigned_text(toy_struct.size()).as_str());
    r.append(" align=");
    r.append(unsigned_text(toy_struct.align()).as_str());
    r.append(" fields=[");
    r.append(join_strings(&fields, ", ").as_str());
    r.append("]");
    r
}

/// Adds the line of a vector method to the dump.
fn dump_method(
    lines: &mut Vec<OracleLine>,
    impls: Option<&Vec<Vec<String>>>,
    name: &str,
    method: &str,
)
    ensures
        views(final(lines)@) == views(old(lines)@) + method_lines(impls, name@, method@),
{
    if let Some((i, j)) = find_vec_method(impls, method) {
        let mut text: String = "[oracle]   Vec<".to_owned();
        text.append(name);
        text.append(">::");
        text.append(method);
        text.append(" -> ");
        lines.push(OracleLine { text, rest: Rest::Sig(i, j) });
    }
    assert(views(lines@) =~= views(old(lines)@) + method_lines(impls, name@, method@));
}

/// The dump of all structs of a program: for each its layout, its type, and the signatures of the
/// vector methods. `definitions` are those of the crate, and `impls` the names of the items in the
/// inherent impls of `Vec`.
pub fn dump_toylang_oracle(
    registry: &ToylangRegistry,
    definitions: &Vec<Definition>,
    impls: Option<&Vec<Vec<String>>>,
) -> (r: Vec<OracleLine>)
    requires
        forall|name: Seq<char>| #[trigger]
            registry@.structs.contains_key(name) ==> registry@.structs[name].size() <= u64::MAX,
    ensures
        views(r@) == oracle_lines(
            registry.structs.order(),
            registry@.structs,
            views(definitions@),
            impls,
        ),
        registry.structs.order().no_duplicates(),
        forall|name: Seq<char>|
            registry.structs.order().contains(name) <==> #[trigger] registry@.structs.contains_key(
                name,
            ),
{
    let ghost order = registry.structs.order();
    let mut lines: Vec<OracleLine> = Vec::new();
    let count: usize = registry.structs.len();
    let mut i: usize = 0;
    while i < count
        invariant
            i <= count,
            count == order.len(),
            order == registry.structs.order(),
            forall|name: Seq<char>| #[trigger]
                registry@.structs.contains_key(name) ==> registry@.structs[name].size() <= u64::MAX,
            views(lines@) == oracle_lines(
                order.take(i as int),
                registry@.structs,
                views(definitions@),
                impls,
            ),
        decreases count - i,
    {
        let (name, toy_struct) = registry.structs.entry(i);
        let ghost before = lines@;
        lines.push(
            OracleLine { text: show_struct(name.as_str(), toy_struct), rest: Rest::Nothing },
        );
        let ghost head = seq![
            LineView { text: struct_text(name@, toy_struct@), rest: Rest::Nothing },
        ];
        assert(views(lines@) =~= views(before) + head);
        let ghost with_head = lines@;
        if let Some(definition) = find_local_struct_ty(definitions, name.as_str()) {
            lines.push(
                OracleLine { text: "[oracle]   Ty = ".to_owned(), rest: Rest::Ty(definition) },
            );
        }
        assert(views(lines@) =~= views(with_head) + ty_lines(views(definitions@), name@));
        dump_method(&mut lines, impls, name.as_str(), "new");
        dump_method(&mut lines, impls, name.as_str(), "push");
        dump_method(&mut lines, impls, name.as_str(), "len");
        proof {
            let longer = order.take(i + 1);
            assert(longer.drop_last() =~= order.take(i as int));
            assert(views(lines@) =~= views(before) + struct_lines(
                name@,
                toy_struct@,
                views(definitions@),
                impls,
            ));
        }
        i = i + 1;
    }
    assert(order.take(i as int) =~= order);
    lines
}

/// Whether the definition at a place is the first one of the struct with a name.
pub open spec fn first_struct(definitions: Seq<DefinitionView>, name: Seq<char>, i: int) -> bool {
    &&& 0 <= i < definitions.len()
    &&& definitions[i].kind == DefKind::Struct
    &&& definitions[i].name == Some(name)
    &&& forall|k: int|
        0 <= k < i ==> (#[trigger] definitions[k]).kind != DefKind::Struct || definitions[k].name
            != Some(name)
}

/// Whether there is a definition of the struct with a name.
pub open spec fn has_struct(definitions: Seq<DefinitionView>, name: Seq<char>) -> bool {
    exists|i: int| #[trigger] first_struct(definitions, name, i)
}

/// A struct is found exactly if there is a definition of it, and then its first one.
pub proof fn law_first_struct_is_found(definitions: Seq<DefinitionView>, name: Seq<char>)
    requires
        definitions.len() <= usize::MAX,
    ensures
        match find_struct_from(definitions, name, 0) {
            Some(i) => first_struct(definitions, name, i as int),
            None => !has_struct(definitions, name) && forall|k: int|
                0 <= k < definitions.len() ==> (#[trigger] definitions[k]).kind != DefKind::Struct
                    || definitions[k].name != Some(name),
        },
{
    lemma_find_struct(definitions, name, 0);
}

proof fn lemma_find_struct(definitions: Seq<DefinitionView>, name: Seq<char>, from: int)
    requires
        definitions.len() <= usize::MAX,
        0 <= from <= definitions.len(),
    ensures
        match find_struct_from(definitions, name, from) {
            Some(i) => {
                &&& from <= i < definitions.len()
                &&& defines_struct(definitions[i as int], name)
                &&& forall|k: int|
                    from <= k < i ==> !defines_struct(#[trigger] definitions[k], name)
            },
            None => forall|k: int|
                from <= k < definitions.len() ==> !defines_struct(#[trigger] definitions[k], name),
        },
    decreases definitions.len() - from,
{
    if from < definitions.len() && !defines_struct(definitions[from], name) {
        lemma_find_struct(definitions, name, from + 1);
    }
}

/// Whether the item at a place of an impl block is the first one with a name.
pub open spec fn first_item(impls: Seq<Vec<String>>, name: Seq<char>, i: int, j: int) -> bool {
    &&& 0 <= i < impls.len()
    &&& 0 <= j < impls[i]@.len()
    &&& impls[i]@[j]@ == name
    &&& forall|l: int| 0 <= l < j ==> #[trigger] impls[i]@[l]@ != name
    &&& forall|k: int, l: int|
        #![trigger impls[k]@[l]]
        0 <= k < i && 0 <= l < impls[k]@.len() ==> impls[k]@[l]@ != name
}

/// Whether an item of the impl blocks has a name.
pub open spec fn has_item(impls: Option<&Vec<Vec<String>>>, name: Seq<char>) -> bool {
    impls matches Some(blocks) && exists|i: int, j: int| #[trigger] first_item(blocks@, name, i, j)
}

proof fn lemma_find_item(impls: Seq<Vec<String>>, name: Seq<char>, from: int)
    requires
        impls.len() <= usize::MAX,
        0 <= from <= impls.len(),
        forall|k: int, l: int|
            #![trigger impls[k]@[l]]
            0 <= k < from && 0 <= l < impls[k]@.len() ==> impls[k]@[l]@ != name,
    ensures
        match find_item_from(item_names(impls), name, from) {
            Some((i, j)) => first_item(impls, name, i as int, j as int),
            None => forall|k: int, l: int|
                #![trigger impls[k]@[l]]
                0 <= k < impls.len() && 0 <= l < impls[k]@.len() ==> impls[k]@[l]@ != name,
        },
    decreases impls.len() - from,
{
    if from < impls.len() {
        let names = views(impls[from]@);
        assert(names.len() == impls[from].len());
        assert(item_names(impls)[from] == names);
        law_first_is_found(names, name);
        match find(names, name) {
            Some(j) => {
                assert forall|l: int| 0 <= l < j implies #[trigger] impls[from]@[l]@ != name by {
                    assert(names[l] != name);
                }
            },
            None => {
                assert forall|k: int, l: int|
                    #![trigger impls[k]@[l]]
                    0 <= k < from + 1 && 0 <= l < impls[k]@.len() implies impls[k]@[l]@ != name by {
                    if k == from {
                        assert(names[l] != name);
                    }
                }
                lemma_find_item(impls, name, from + 1);
            },
        }
    }
}

/// A method of `Vec` is found exactly if an item of the impl blocks has its name, and then the first
/// one in the first block with such an item.
pub proof fn law_first_method_is_found(impls: Option<&Vec<Vec<String>>>, method: Seq<char>)
    ensures
        match vec_method(impls, method) {
            Some((i, j)) => impls matches Some(blocks) && first_item(
                blocks@,
                method,
                i as int,
                j as int,
            ),
            None => !has_item(impls, method),
        },
{
    if let Some(blocks) = impls {
        assert(blocks@.len() == blocks.len());
        lemma_find_item(blocks@, method, 0);
        if vec_method(impls, method) is None && has_item(impls, method) {
            let (i, j) = choose|i: int, j: int| #[trigger] first_item(blocks@, method, i, j);
            assert(blocks@[i]@[j]@ == method);
        }
    }
}

/// What the lowering refers to is found exactly if there are the struct `Point` and the methods
/// `new`, `push` and `len` of `Vec`, and each is the first one with its name. The message about what
/// is missing holds the name of something that is missing.
#[verifier::rlimit(40)]
pub proof fn law_resolution(
    r: Result<Resolved, String>,
    definitions: Seq<DefinitionView>,
    impls: Option<&Vec<Vec<String>>>,
)
    requires
        is_resolved(r, definitions, impls),
        definitions.len() <= usize::MAX,
    ensures
        match r {
            Ok(found) => impls matches Some(blocks) && {
                &&& first_struct(definitions, "Point"@, found.elem as int)
                &&& first_item(blocks@, "new"@, found.new.0 as int, found.new.1 as int)
                &&& first_item(blocks@, "push"@, found.push.0 as int, found.push.1 as int)
                &&& first_item(blocks@, "len"@, found.len.0 as int, found.len.1 as int)
            },
            Err(message) => {
                ||| !has_struct(definitions, "Point"@) && holds_text(message@, "Point"@)
                ||| !has_item(impls, "new"@) && holds_text(message@, "Vec::new"@)
                ||| !has_item(impls, "push"@) && holds_text(message@, "Vec::push"@)
                ||| !has_item(impls, "len"@) && holds_text(message@, "Vec::len"@)
            },
        },
{
    law_first_struct_is_found(definitions, "Point"@);
    law_first_method_is_found(impls, "new"@);
    law_first_method_is_found(impls, "push"@);
    law_first_method_is_found(impls, "len"@);
    if resolved(definitions, impls) is Err {
        reveal_strlit("Point");
        reveal_strlit("[toylang] Point struct not found");
        reveal_strlit("Vec::new");
        reveal_strlit("[toylang] Vec::new not found");
        reveal_strlit("Vec::push");
        reveal_strlit("[toylang] Vec::push not found");
        reveal_strlit("Vec::len");
        reveal_strlit("[toylang] Vec::len not found");
        let point = "[toylang] Point struct not found"@;
        assert(point =~= point.take(10) + "Point"@ + point.skip(15));
        let new = "[toylang] Vec::new not found"@;
        assert(new =~= new.take(10) + "Vec::new"@ + new.skip(18));
        let push = "[toylang] Vec::push not found"@;
        assert(push =~= push.take(10) + "Vec::push"@ + push.skip(19));
        let len = "[toylang] Vec::len not found"@;
        assert(len =~= len.take(10) + "Vec::len"@ + len.skip(18));
    }
}

/// The line of a struct in the dump holds the name of the struct and the names of its fields.
pub proof fn law_struct_line_holds_names(name: Seq<char>, s: StructView, i: int)
    requires
        0 <= i < s.fields.len(),
    ensures
        holds_text(struct_text(name, s), name),
        holds_text(struct_text(name, s), s.fields[i].name),
{
    let texts = s.fields.map_values(|f: FieldView| field_text(f));
    let whole = struct_text(name, s);
    let numbers = ": size="@ + digits(s.size() as nat) + " align="@ + digits(s.align() as nat)
        + " fields=["@;
    assert(whole =~= "[oracle] "@ + name + (numbers + join(texts, ", "@) + "]"@));
    assert(whole =~= ("[oracle] "@ + name + numbers) + join(texts, ", "@) + "]"@);
    law_joined_parts_are_held(texts, ", "@, i);
    lemma_holds_through(whole, join(texts, ", "@), texts[i]);
    let field = s.fields[i];
    assert(texts[i] =~= Seq::empty() + field.name + (": "@ + type_text(field.rust_type)));
    lemma_holds_through(whole, texts[i], field.name);
}

/// The line of a struct in the dump tells its size and its alignment: structs of one name with the
/// same line have the same.
#[verifier::rlimit(40)]
pub proof fn law_struct_line_tells_layout(name: Seq<char>, s: StructView, other: StructView)
    requires
        struct_text(name, s) == struct_text(name, other),
    ensures
        s.size() == other.size(),
        s.align() == other.align(),
{
    let head = "[oracle] "@ + name + ": size="@;
    let a = layout_text(s);
    let b = layout_text(other);
    lemma_struct_text(name, s);
    lemma_struct_text(name, other);
    assert(a =~= struct_text(name, s).skip(head.len() as int));
    assert(b =~= struct_text(name, other).skip(head.len() as int));
    reveal_strlit(" align=");
    reveal_strlit(" fields=[");
    let x = " align="@ + align_text(s);
    let y = " align="@ + align_text(other);
    assert(x[0] == ' ' && y[0] == ' ');
    assert(a =~= digits(s.size() as nat) + x);
    assert(b =~= digits(other.size() as nat) + y);
    law_numbers_in_texts(s.size() as nat, x, other.size() as nat, y);
    assert(align_text(s) =~= x.skip(" align="@.len() as int));
    assert(align_text(other) =~= y.skip(" align="@.len() as int));
    law_numbers_in_texts(s.align() as nat, fields_part(s), other.align() as nat, fields_part(other));
    law_align_is_largest(s);
    law_align_is_largest(other);
    lemma_size_not_negative(s);
    lemma_size_not_negative(other);
}

/// The end of the line of a struct, from the fields on.
spec fn fields_part(s: StructView) -> Seq<char> {
    " fields=["@ + join(s.fields.map_values(|f: FieldView| field_text(f)), ", "@) + "]"@
}

/// The end of the line of a struct, from the number of its alignment on.
spec fn align_text(s: StructView) -> Seq<char> {
    digits(s.align() as nat) + fields_part(s)
}

/// The end of the line of a struct, from the number of its size on.
spec fn layout_text(s: StructView) -> Seq<char> {
    digits(s.size() as nat) + " align="@ + align_text(s)
}

proof fn lemma_struct_text(name: Seq<char>, s: StructView)
    ensures
        struct_text(name, s) == "[oracle] "@ + name + ": size="@ + layout_text(s),
{
    assert(struct_text(name, s) =~= "[oracle] "@ + name + ": size="@ + layout_text(s));
}

proof fn lemma_size_not_negative(s: StructView)
    ensures
        s.size() >= 0,
{
    lemma_fields_align(s.fields);
    lemma_round_up(fields_end(s.fields), s.align());
}

/// Behind the line of a struct stand, each where it is found, the line of its type with the first
/// definition of the struct, and the lines of the vector methods `new`, `push` and `len`, in this
/// order, each with the first item of its name.
#[verifier::rlimit(40)]
pub proof fn law_lines_of_a_struct(
    name: Seq<char>,
    s: StructView,
    definitions: Seq<DefinitionView>,
    impls: Option<&Vec<Vec<String>>>,
)
    requires
        definitions.len() <= usize::MAX,
    ensures
        ({
            let lines = struct_lines(name, s, definitions, impls);
            let behind_ty = 1 + one_if(has_struct(definitions, name));
            let behind_new = behind_ty + one_if(has_item(impls, "new"@));
            let behind_push = behind_new + one_if(has_item(impls, "push"@));
            &&& lines.len() == behind_push + one_if(has_item(impls, "len"@))
            &&& lines[0].rest == Rest::Nothing
            &&& has_struct(definitions, name) ==> (lines[1].rest matches Rest::Ty(i)
                && first_struct(definitions, name, i as int))
            &&& has_item(impls, "new"@) ==> is_method_line(lines[behind_ty], impls, name, "new"@)
            &&& has_item(impls, "push"@) ==> is_method_line(lines[behind_new], impls, name, "push"@)
            &&& has_item(impls, "len"@) ==> is_method_line(lines[behind_push], impls, name, "len"@)
        }),
{
    law_first_struct_is_found(definitions, name);
    lemma_method_lines(impls, name, "new"@);
    lemma_method_lines(impls, name, "push"@);
    lemma_method_lines(impls, name, "len"@);
    assert(find_struct_from(definitions, name, 0) is Some <==> has_struct(definitions, name));
}

/// One, if something holds.
pub open spec fn one_if(b: bool) -> int {
    if b {
        1
    } else {
        0
    }
}

/// Whether a line of the dump shows a vector method: it holds the name of the struct and of the
/// method, and ends in the signature of the first item with the name of the method.
pub open spec fn is_method_line(
    line: LineView,
    impls: Option<&Vec<Vec<String>>>,
    name: Seq<char>,
    method: Seq<char>,
) -> bool {
    &&& holds_text(line.text, "Vec<"@ + name + ">::"@ + method)
    &&& line.rest matches Rest::Sig(i, j) && (impls matches Some(blocks) && first_item(
        blocks@,
        method,
        i as int,
        j as int,
    ))
}

proof fn lemma_method_lines(impls: Option<&Vec<Vec<String>>>, name: Seq<char>, method: Seq<char>)
    ensures
        method_lines(impls, name, method).len() == one_if(has_item(impls, method)),
        has_item(impls, method) ==> is_method_line(
            method_lines(impls, name, method)[0],
            impls,
            name,
            method,
        ),
{
    law_first_method_is_found(impls, method);
    if let Some((i, j)) = vec_method(impls, method) {
        let blocks = impls->0;
        assert(first_item(blocks@, method, i as int, j as int));
        reveal_strlit("[oracle]   Vec<");
        reveal_strlit("Vec<");
        let head = "[oracle]   Vec<"@;
        let text = head + name + ">::"@ + method + " -> "@;
        assert(text =~= head.take(11) + ("Vec<"@ + name + ">::"@ + method) + " -> "@);
    }
}

/// The dump of two rows of structs one after the other is the dump of the first and that of the
/// second, and the dump of one struct is the lines of that struct.
pub proof fn law_dump_in_order(
    first: Seq<Seq<char>>,
    second: Seq<Seq<char>>,
    name: Seq<char>,
    structs: Map<Seq<char>, StructView>,
    definitions: Seq<DefinitionView>,
    impls: Option<&Vec<Vec<String>>>,
)
    ensures
        oracle_lines(first + second, structs, definitions, impls) == oracle_lines(
            first,
            structs,
            definitions,
            impls,
        ) + oracle_lines(second, structs, definitions, impls),
        oracle_lines(seq![name], structs, definitions, impls) == struct_lines(
            name,
            structs[name],
            definitions,
            impls,
        ),
    decreases second.len(),
{
    assert(seq![name].drop_last() =~= Seq::empty());
    assert(oracle_lines(Seq::empty(), structs, definitions, impls) =~= Seq::empty());
    assert(Seq::empty() + struct_lines(name, structs[name], definitions, impls) =~= struct_lines(
        name,
        structs[name],
        definitions,
        impls,
    ));
    if second.len() == 0 {
        assert(first + second =~= first);
        assert(oracle_lines(first, structs, definitions, impls) + Seq::empty() =~= oracle_lines(
            first,
            structs,
            definitions,
            impls,
        ));
    } else {
        law_dump_in_order(first, second.drop_last(), name, structs, definitions, impls);
        assert((first + second).drop_last() =~= first + second.drop_last());
    }
}

/// In the line of a struct only the name, the numbers and the fields depend on the struct: the lines
/// of two structs that differ in one of them are the same but for it.
pub proof fn law_struct_lines_differ_in_the_struct(
    a: Seq<char>,
    b: Seq<char>,
    s: StructView,
    other: StructView,
)
    ensures
        differ_in(struct_text(a, s), a, struct_text(b, s), b),
        s.size() == other.size() && s.align() == other.align() ==> differ_in(
            struct_text(a, s),
            fields_text(s),
            struct_text(a, other),
            fields_text(other),
        ),
{
    let numbers = ": size="@ + digits(s.size() as nat) + " align="@ + digits(s.align() as nat)
        + " fields=["@;
    let rest = numbers + fields_text(s) + "]"@;
    assert(struct_text(a, s) =~= "[oracle] "@ + a + rest);
    assert(struct_text(b, s) =~= "[oracle] "@ + b + rest);
    if s.size() == other.size() && s.align() == other.align() {
        let head = "[oracle] "@ + a + numbers;
        assert(struct_text(a, s) =~= head + fields_text(s) + "]"@);
        assert(struct_text(a, other) =~= head + fields_text(other) + "]"@);
    }
}

/// The fields of a struct in the dump, with a comma between each two neighbours.
pub open spec fn fields_text(s: StructView) -> Seq<char> {
    join(s.fields.map_values(|f: FieldView| field_text(f)), ", "@)
}

/// A field in the dump: of two fields of one type only the name differs, and of two fields with one
/// name only the type.
pub proof fn law_field_texts_differ_in_the_field(f: FieldView, g: FieldView)
    ensures
        f.rust_type == g.rust_type ==> differ_in(field_text(f), f.name, field_text(g), g.name),
        f.name == g.name ==> differ_in(
            field_text(f),
            type_text(f.rust_type),
            field_text(g),
            type_text(g.rust_type),
        ),
{
    let tail = ": "@ + type_text(f.rust_type);
    assert(field_text(f) =~= Seq::empty() + f.name + tail);
    if f.rust_type == g.rust_type {
        assert(field_text(g) =~= Seq::empty() + g.name + tail);
    }
    if f.name == g.name {
        let head = f.name + ": "@;
        assert(field_text(f) =~= head + type_text(f.rust_type) + Seq::empty());
        assert(field_text(g) =~= head + type_text(g.rust_type) + Seq::empty());
    }
}

} // verus!
