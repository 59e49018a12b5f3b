//! Reading a project's Rust source file with `syn`: the file is parsed
//! here, and its syntax tree is read into the item shapes that the
//! component scan works on (see `rust_components`).
//!
//! What the scan reads of each node of the tree is modelled below
//! (`TypeModel`, `StructModel`, ...): the parse and each node's model are
//! named results of `syn`, and every read of the tree goes through one small
//! trusted accessor whose contract is stated over those models. What is
//! done with what the accessors hand back is verified code, and
//! `parse_source_items` states its result over the model of the parse.

use vstd::prelude::*;

use crate::rust_components::{
    FnInput, FunctionItem, GenericArg, ItemVisibility, ModuleItem, NamedField, SourceItem,
    StructFields, StructItem, TypeShape,
};
use crate::project_manager::model::opt_view;
use crate::rust_components::TypePathSegment;
use crate::text::{str_equal, string_views};

verus! {

// ---------------------------------------------------------------------
// The syntax tree's types.
// ---------------------------------------------------------------------

#[verifier::external_type_specification]
#[verifier::external_body]
pub struct ExSynItem(syn::Item);

#[verifier::external_type_specification]
#[verifier::external_body]
pub struct ExSynItemStruct(syn::ItemStruct);

#[verifier::external_type_specification]
#[verifier::external_body]
pub struct ExSynItemMod(syn::ItemMod);

#[verifier::external_type_specification]
#[verifier::external_body]
pub struct ExSynItemFn(syn::ItemFn);

#[verifier::external_type_specification]
#[verifier::external_body]
pub struct ExSynAttribute(syn::Attribute);

#[verifier::external_type_specification]
#[verifier::external_body]
pub struct ExSynField(syn::Field);

#[verifier::external_type_specification]
#[verifier::external_body]
pub struct ExSynType(syn::Type);

#[verifier::external_type_specification]
#[verifier::external_body]
pub struct ExSynPath(syn::Path);

#[verifier::external_type_specification]
#[verifier::external_body]
pub struct ExSynPathSegment(syn::PathSegment);

#[verifier::external_type_specification]
#[verifier::external_body]
pub struct ExSynGenericArgument(syn::GenericArgument);

#[verifier::external_type_specification]
#[verifier::external_body]
pub struct ExSynVisibility(syn::Visibility);

#[verifier::external_type_specification]
#[verifier::external_body]
pub struct ExSynFnArg(syn::FnArg);

// ---------------------------------------------------------------------
// What the scan reads of the tree.
// ---------------------------------------------------------------------

/// A type: a path's segments, a reference (`mut` or not) and its referent,
/// a tuple's elements, or another kind of type.
pub enum TypeModel {
    Path(Seq<SegmentModel>),
    Reference(bool, Box<TypeModel>),
    Tuple(Seq<TypeModel>),
    Other,
}

/// A path segment: its name, and its angle-bracketed arguments, if it has
/// them (`Some` of the type for a type argument, `None` for any other).
pub struct SegmentModel {
    pub ident: Seq<char>,
    pub args: Option<Seq<Option<TypeModel>>>,
}

/// An attribute: the single identifier of its path (if its path is one),
/// the segment names of each path its arguments list (if they parse as a
/// comma-separated list of paths), and the text of its parenthesized
/// arguments (if it has them).
pub struct AttributeModel {
    pub name: Option<Seq<char>>,
    pub paths: Option<Seq<Seq<Seq<char>>>>,
    pub list_text: Option<Seq<char>>,
}

/// A field: its name (none in a tuple struct) and its type.
pub struct FieldModel {
    pub name: Option<Seq<char>>,
    pub ty: TypeModel,
}

pub enum FieldsModel {
    Named(Seq<FieldModel>),
    Unnamed(Seq<FieldModel>),
    Unit,
}

pub struct StructModel {
    pub name: Seq<char>,
    pub attributes: Seq<AttributeModel>,
    pub fields: FieldsModel,
}

/// A visibility: `pub`, `pub(path)` with the path's segment names, or none.
pub enum VisibilityModel {
    Public,
    Restricted(Seq<Seq<char>>),
    Inherited,
}

/// A function: its name, visibility, qualifiers, the number of its generic
/// parameters, its parameters (`None` for `self`, else the type) and its
/// declared return type.
pub struct FunctionModel {
    pub name: Seq<char>,
    pub visibility: VisibilityModel,
    pub is_async: bool,
    pub is_const: bool,
    pub is_unsafe: bool,
    pub has_abi: bool,
    pub is_variadic: bool,
    pub generic_count: nat,
    pub inputs: Seq<Option<TypeModel>>,
    pub output: Option<TypeModel>,
}

/// A module: its name, and its items when it is inline.
pub struct ModuleModel {
    pub name: Seq<char>,
    pub content: Option<Seq<ItemModel>>,
}

pub enum ItemModel {
    Struct(StructModel),
    Module(ModuleModel),
    Function(FunctionModel),
    Other,
}

/// The name `syn::parse_file` gives a source text: the models of the
/// file's items, `None` when it does not parse.
pub uninterp spec fn syn_parse(source: Seq<char>) -> Option<Seq<ItemModel>>;

/// The names for what the scan reads of each kind of node.
pub uninterp spec fn item_model(item: syn::Item) -> ItemModel;

pub uninterp spec fn struct_model(item: syn::ItemStruct) -> StructModel;

pub uninterp spec fn module_model(item: syn::ItemMod) -> ModuleModel;

pub uninterp spec fn function_model(item: syn::ItemFn) -> FunctionModel;

pub uninterp spec fn attribute_model(attribute: syn::Attribute) -> AttributeModel;

pub uninterp spec fn field_model(field: syn::Field) -> FieldModel;

pub uninterp spec fn type_model(ty: syn::Type) -> TypeModel;

pub uninterp spec fn segment_model(segment: syn::PathSegment) -> SegmentModel;

pub uninterp spec fn argument_model(argument: syn::GenericArgument) -> Option<TypeModel>;

pub uninterp spec fn visibility_model(vis: syn::Visibility) -> VisibilityModel;

pub uninterp spec fn input_model(argument: syn::FnArg) -> Option<TypeModel>;

pub uninterp spec fn path_model(path: syn::Path) -> Seq<Seq<char>>;

pub open spec fn item_models(items: Seq<syn::Item>) -> Seq<ItemModel> {
    items.map_values(|item: syn::Item| item_model(item))
}

pub open spec fn attribute_models(attributes: Seq<syn::Attribute>) -> Seq<AttributeModel> {
    attributes.map_values(|a: syn::Attribute| attribute_model(a))
}

pub open spec fn field_models(fields: Seq<syn::Field>) -> Seq<FieldModel> {
    fields.map_values(|f: syn::Field| field_model(f))
}

pub open spec fn segment_models(segments: Seq<syn::PathSegment>) -> Seq<SegmentModel> {
    segments.map_values(|s: syn::PathSegment| segment_model(s))
}

pub open spec fn type_models(types: Seq<syn::Type>) -> Seq<TypeModel> {
    types.map_values(|t: syn::Type| type_model(t))
}

pub open spec fn argument_models(arguments: Seq<syn::GenericArgument>) -> Seq<Option<TypeModel>> {
    arguments.map_values(|a: syn::GenericArgument| argument_model(a))
}

pub open spec fn input_models(inputs: Seq<syn::FnArg>) -> Seq<Option<TypeModel>> {
    inputs.map_values(|a: syn::FnArg| input_model(a))
}

pub open spec fn path_models(paths: Seq<syn::Path>) -> Seq<Seq<Seq<char>>> {
    paths.map_values(|p: syn::Path| path_model(p))
}

/// The parsed item's kind, with its parts.
pub enum ItemParts {
    Struct(syn::ItemStruct),
    Module(syn::ItemMod),
    Function(syn::ItemFn),
    Other,
}

/// The fields of a parsed struct.
pub enum FieldsParts {
    Named(Vec<syn::Field>),
    Unnamed(Vec<syn::Field>),
    Unit,
}

/// A parsed type: a path's segments, a reference (`mut` or not) and its
/// referent, a tuple's elements, or another kind of type.
pub enum TypeParts {
    Path(Vec<syn::PathSegment>),
    Reference(bool, syn::Type),
    Tuple(Vec<syn::Type>),
    Other,
}

/// The parts of a parsed function the scan reads.
pub struct FunctionParts {
    pub name: String,
    pub visibility: syn::Visibility,
    pub inputs: Vec<syn::FnArg>,
    pub output: Option<syn::Type>,
}

/// The qualifiers of a parsed function's signature: `async`, `const`,
/// `unsafe`, an ABI, a variadic parameter, and how many generic
/// parameters it declares.
pub struct FunctionFlags {
    pub is_async: bool,
    pub is_const: bool,
    pub is_unsafe: bool,
    pub has_abi: bool,
    pub is_variadic: bool,
    pub generic_count: usize,
}

// ---------------------------------------------------------------------
// Accessors.
// ---------------------------------------------------------------------

/// `syn::parse_file`: the items of the file, `None` when it does not
/// parse. Trusted: the result is what the name `syn_parse` gives.
#[verifier::external_body]
fn parse_items(source: &str) -> (r: Option<Vec<syn::Item>>)
    ensures
        match syn_parse(source@) {
            None => r is None,
            Some(models) => match r {
                Some(items) => item_models(items@) == models,
                None => false,
            },
        },
{
    syn::parse_file(source).ok().map(|file| file.items)
}

/// The kind of a `syn::Item`, with its contents.
#[verifier::external_body]
fn item_parts(item: &syn::Item) -> (r: ItemParts)
    ensures
        match item_model(*item) {
            ItemModel::Struct(m) => match r {
                ItemParts::Struct(s) => struct_model(s) == m,
                _ => false,
            },
            ItemModel::Module(m) => match r {
                ItemParts::Module(s) => module_model(s) == m,
                _ => false,
            },
            ItemModel::Function(m) => match r {
                ItemParts::Function(s) => function_model(s) == m,
                _ => false,
            },
            ItemModel::Other => r is Other,
        },
{
    match item {
        syn::Item::Struct(s) => ItemParts::Struct(s.clone()),
        syn::Item::Mod(m) => ItemParts::Module(m.clone()),
        syn::Item::Fn(f) => ItemParts::Function(f.clone()),
        _ => ItemParts::Other,
    }
}

/// A `syn::ItemStruct`'s name, attributes and fields.
#[verifier::external_body]
fn struct_parts(item: &syn::ItemStruct) -> (r: (String, Vec<syn::Attribute>, FieldsParts))
    ensures
        r.0@ == struct_model(*item).name,
        attribute_models(r.1@) == struct_model(*item).attributes,
        match struct_model(*item).fields {
            FieldsModel::Named(fs) => match r.2 {
                FieldsParts::Named(v) => field_models(v@) == fs,
                _ => false,
            },
            FieldsModel::Unnamed(fs) => match r.2 {
                FieldsParts::Unnamed(v) => field_models(v@) == fs,
                _ => false,
            },
            FieldsModel::Unit => r.2 is Unit,
        },
{
    let fields = match &item.fields {
        syn::Fields::Named(f) => FieldsParts::Named(f.named.iter().cloned().collect()),
        syn::Fields::Unnamed(f) => FieldsParts::Unnamed(f.unnamed.iter().cloned().collect()),
        syn::Fields::Unit => FieldsParts::Unit,
    };
    (item.ident.to_string(), item.attrs.clone(), fields)
}

/// A `syn::Field`'s name (none in a tuple struct) and type.
#[verifier::external_body]
fn field_parts(field: &syn::Field) -> (r: (Option<String>, syn::Type))
    ensures
        opt_view(r.0) == field_model(*field).name,
        type_model(r.1) == field_model(*field).ty,
{
    (field.ident.as_ref().map(|ident| ident.to_string()), field.ty.clone())
}

/// The kind of a `syn::Type`, with its parts.
#[verifier::external_body]
fn type_parts(ty: &syn::Type) -> (r: TypeParts)
    ensures
        match type_model(*ty) {
            TypeModel::Path(segments) => match r {
                TypeParts::Path(v) => segment_models(v@) == segments,
                _ => false,
            },
            TypeModel::Reference(mutable, elem) => match r {
                TypeParts::Reference(m, t) => m == mutable && type_model(t) == *elem,
                _ => false,
            },
            TypeModel::Tuple(elems) => match r {
                TypeParts::Tuple(v) => type_models(v@) == elems,
                _ => false,
            },
            TypeModel::Other => r is Other,
        },
{
    match ty {
        syn::Type::Path(p) => TypeParts::Path(p.path.segments.iter().cloned().collect()),
        syn::Type::Reference(r) => TypeParts::Reference(r.mutability.is_some(), (*r.elem).clone()),
        syn::Type::Tuple(t) => TypeParts::Tuple(t.elems.iter().cloned().collect()),
        _ => TypeParts::Other,
    }
}

/// A `syn::PathSegment`'s name, and its arguments when they are in angle
/// brackets.
#[verifier::external_body]
fn segment_parts(segment: &syn::PathSegment) -> (r: (String, Option<Vec<syn::GenericArgument>>))
    ensures
        r.0@ == segment_model(*segment).ident,
        match segment_model(*segment).args {
            None => r.1 is None,
            Some(args) => match r.1 {
                Some(v) => argument_models(v@) == args,
                None => false,
            },
        },
{
    let args = match &segment.arguments {
        syn::PathArguments::AngleBracketed(a) => Some(a.args.iter().cloned().collect()),
        _ => None,
    };
    (segment.ident.to_string(), args)
}

/// The type of a `syn::GenericArgument` that is a type.
#[verifier::external_body]
fn argument_type(argument: &syn::GenericArgument) -> (r: Option<syn::Type>)
    ensures
        match argument_model(*argument) {
            None => r is None,
            Some(t) => match r {
                Some(ty) => type_model(ty) == t,
                None => false,
            },
        },
{
    match argument {
        syn::GenericArgument::Type(ty) => Some(ty.clone()),
        _ => None,
    }
}

/// A `syn::ItemMod`'s name, and its items when it is inline.
#[verifier::external_body]
fn module_parts(item: &syn::ItemMod) -> (r: (String, Option<Vec<syn::Item>>))
    ensures
        r.0@ == module_model(*item).name,
        match module_model(*item).content {
            None => r.1 is None,
            Some(content) => match r.1 {
                Some(v) => item_models(v@) == content,
                None => false,
            },
        },
{
    (item.ident.to_string(), item.content.as_ref().map(|(_, items)| items.clone()))
}

/// A `syn::ItemFn`'s name, visibility, parameters and declared return type.
#[verifier::external_body]
fn function_parts(item: &syn::ItemFn) -> (r: FunctionParts)
    ensures
        r.name@ == function_model(*item).name,
        visibility_model(r.visibility) == function_model(*item).visibility,
        input_models(r.inputs@) == function_model(*item).inputs,
        match function_model(*item).output {
            None => r.output is None,
            Some(t) => match r.output {
                Some(ty) => type_model(ty) == t,
                None => false,
            },
        },
{
    let output = match &item.sig.output {
        syn::ReturnType::Type(_, ty) => Some((**ty).clone()),
        syn::ReturnType::Default => None,
    };
    FunctionParts {
        name: item.sig.ident.to_string(),
        visibility: item.vis.clone(),
        inputs: item.sig.inputs.iter().cloned().collect(),
        output,
    }
}

/// The qualifiers of a `syn::ItemFn`'s signature.
#[verifier::external_body]
fn function_flags(item: &syn::ItemFn) -> (r: FunctionFlags)
    ensures
        r.is_async == function_model(*item).is_async,
        r.is_const == function_model(*item).is_const,
        r.is_unsafe == function_model(*item).is_unsafe,
        r.has_abi == function_model(*item).has_abi,
        r.is_variadic == function_model(*item).is_variadic,
        r.generic_count as nat == function_model(*item).generic_count,
{
    FunctionFlags {
        is_async: item.sig.asyncness.is_some(),
        is_const: item.sig.constness.is_some(),
        is_unsafe: item.sig.unsafety.is_some(),
        has_abi: item.sig.abi.is_some(),
        is_variadic: item.sig.variadic.is_some(),
        generic_count: item.sig.generics.params.len(),
    }
}

/// A `syn::Visibility` taken apart: `pub`, `pub(path)` with its path, or
/// none.
enum VisibilityParts {
    Public,
    Restricted(syn::Path),
    Inherited,
}

/// The variants of a `syn::Visibility`.
#[verifier::external_body]
fn visibility_parts(vis: &syn::Visibility) -> (r: VisibilityParts)
    ensures
        match visibility_model(*vis) {
            VisibilityModel::Public => r is Public,
            VisibilityModel::Restricted(segments) => match r {
                VisibilityParts::Restricted(path) => path_model(path) == segments,
                _ => false,
            },
            VisibilityModel::Inherited => r is Inherited,
        },
{
    match vis {
        syn::Visibility::Public(_) => VisibilityParts::Public,
        syn::Visibility::Restricted(r) => VisibilityParts::Restricted((*r.path).clone()),
        syn::Visibility::Inherited => VisibilityParts::Inherited,
    }
}

/// A visibility as the scan records it: `pub(path)` keeps the path's last
/// segment.
fn visibility_of(vis: &syn::Visibility) -> (r: ItemVisibility)
    ensures
        visibility_is(r, visibility_model(*vis)),
{
    match visibility_parts(vis) {
        VisibilityParts::Public => ItemVisibility::Public,
        VisibilityParts::Restricted(path) => ItemVisibility::Restricted(path_last_name(&path)),
        VisibilityParts::Inherited => ItemVisibility::Inherited,
    }
}

/// The type of a typed `syn::FnArg`; `None` for a `self` parameter.
#[verifier::external_body]
fn argument_pattern_type(argument: &syn::FnArg) -> (r: Option<syn::Type>)
    ensures
        match input_model(*argument) {
            None => r is None,
            Some(t) => match r {
                Some(ty) => type_model(ty) == t,
                None => false,
            },
        },
{
    match argument {
        syn::FnArg::Typed(pattern) => Some((*pattern.ty).clone()),
        syn::FnArg::Receiver(_) => None,
    }
}

/// `Path::get_ident` on an attribute's path: its name when the path is a
/// single identifier.
#[verifier::external_body]
fn attribute_name(attribute: &syn::Attribute) -> (r: Option<String>)
    ensures
        opt_view(r) == attribute_model(*attribute).name,
{
    attribute.path().get_ident().map(|ident| ident.to_string())
}

/// `Attribute::parse_args_with` reading a comma-separated list of paths,
/// as `#[derive(..)]` holds; `None` when the arguments are no such list.
#[verifier::external_body]
fn attribute_paths(attribute: &syn::Attribute) -> (r: Option<Vec<syn::Path>>)
    ensures
        match attribute_model(*attribute).paths {
            None => r is None,
            Some(names) => match r {
                Some(v) => path_models(v@) == names,
                None => false,
            },
        },
{
    attribute
        .parse_args_with(syn::punctuated::Punctuated::<syn::Path, syn::token::Comma>::parse_terminated)
        .ok()
        .map(|paths| paths.into_iter().collect())
}

/// The names of a `syn::Path`'s segments, in order.
#[verifier::external_body]
fn path_segment_names(path: &syn::Path) -> (r: Vec<String>)
    ensures
        string_views(r@) == path_model(*path),
{
    path.segments.iter().map(|segment| segment.ident.to_string()).collect()
}

/// The name of a path's last segment, if it has segments.
fn path_last_name(path: &syn::Path) -> (r: Option<String>)
    ensures
        opt_view(r) == last_name(path_model(*path)),
{
    let names = path_segment_names(path);
    assert(string_views(names@).len() == names@.len());
    if names.len() == 0 {
        None
    } else {
        let last = names[names.len() - 1].clone();
        assert(string_views(names@).last() == names@[names.len() - 1]@);
        Some(last)
    }
}

/// `Meta::require_list` on an attribute: the text of its parenthesized
/// arguments, `None` when it has none.
#[verifier::external_body]
fn attribute_list_text(attribute: &syn::Attribute) -> (r: Option<String>)
    ensures
        opt_view(r) == attribute_model(*attribute).list_text,
{
    attribute.meta.require_list().ok().map(|list| list.tokens.to_string())
}

// ---------------------------------------------------------------------
// How the scan reads the tree.
//
// Each nesting level of the tree takes at least one character of the
// source, so the budget of the source's length given below is never
// used up on a parsed file; it bounds the recursion for the proofs.
// ---------------------------------------------------------------------

/// `r` is how the scan writes the type `m`, read to a depth of `budget`
/// levels (deeper types are `Unsupported`).
pub open spec fn shape_is(r: TypeShape, m: TypeModel, budget: nat) -> bool
    decreases budget, 0nat,
{
    if budget == 0 {
        r is Unsupported
    } else {
        match m {
            TypeModel::Path(segments) => match r {
                TypeShape::Path(v) => v@.len() == segments.len() && forall|i: int|
                    0 <= i < segments.len() ==> segment_is(
                        #[trigger] v@[i],
                        segments[i],
                        (budget - 1) as nat,
                    ),
                _ => false,
            },
            TypeModel::Reference(mutable, elem) => match r {
                TypeShape::Reference(m2, b) => m2 == mutable && shape_is(*b, *elem, (budget - 1) as nat),
                _ => false,
            },
            TypeModel::Tuple(elems) => match r {
                TypeShape::Tuple(v) => v@.len() == elems.len() && forall|i: int|
                    0 <= i < elems.len() ==> shape_is(#[trigger] v@[i], elems[i], (budget - 1) as nat),
                _ => false,
            },
            TypeModel::Other => r is Unsupported,
        }
    }
}

/// `r` is how the scan writes the type argument `m`.
pub open spec fn argument_is(r: GenericArg, m: Option<TypeModel>, budget: nat) -> bool
    decreases budget, 1nat,
{
    match m {
        None => r is Other,
        Some(t) => match r {
            GenericArg::Type(s) => shape_is(s, t, budget),
            GenericArg::Other => false,
        },
    }
}

/// `r` is how the scan writes the path segment `m`.
pub open spec fn segment_is(r: TypePathSegment, m: SegmentModel, budget: nat) -> bool
    decreases budget, 2nat,
{
    r.ident@ == m.ident && match m.args {
        None => r.args is None,
        Some(args) => match r.args {
            Some(v) => v@.len() == args.len() && forall|i: int|
                0 <= i < args.len() ==> argument_is(#[trigger] v@[i], args[i], budget),
            None => false,
        },
    }
}

/// The last segment names of the paths a list names, in order.
/// The last of a path's segment names, if it has any.
pub open spec fn last_name(segments: Seq<Seq<char>>) -> Option<Seq<char>> {
    if segments.len() == 0 {
        None
    } else {
        Some(segments.last())
    }
}

/// The last segment names of the paths that have segments, in order.
pub open spec fn present_names(paths: Seq<Seq<Seq<char>>>) -> Seq<Seq<char>>
    decreases paths.len(),
{
    if paths.len() == 0 {
        Seq::empty()
    } else {
        present_names(paths.drop_last()) + match last_name(paths.last()) {
            Some(n) => seq![n],
            None => Seq::empty(),
        }
    }
}

/// What one attribute adds to the derive names: the paths of a
/// `#[derive(..)]` attribute whose arguments are a list of paths.
pub open spec fn attribute_derives(a: AttributeModel) -> Seq<Seq<char>> {
    if a.name == Some("derive"@) {
        match a.paths {
            Some(paths) => present_names(paths),
            None => Seq::empty(),
        }
    } else {
        Seq::empty()
    }
}

/// What one attribute adds to the reflect texts: the argument text of a
/// `#[reflect(..)]` attribute.
pub open spec fn attribute_reflects(a: AttributeModel) -> Seq<Seq<char>> {
    if a.name == Some("reflect"@) {
        match a.list_text {
            Some(t) => seq![t],
            None => Seq::empty(),
        }
    } else {
        Seq::empty()
    }
}

/// The names the struct's `#[derive(..)]` attributes list, in order.
pub open spec fn derive_names(attributes: Seq<AttributeModel>) -> Seq<Seq<char>>
    decreases attributes.len(),
{
    if attributes.len() == 0 {
        Seq::empty()
    } else {
        derive_names(attributes.drop_last()) + attribute_derives(attributes.last())
    }
}

/// The argument texts of the struct's `#[reflect(..)]` attributes, in order.
pub open spec fn reflect_texts(attributes: Seq<AttributeModel>) -> Seq<Seq<char>>
    decreases attributes.len(),
{
    if attributes.len() == 0 {
        Seq::empty()
    } else {
        reflect_texts(attributes.drop_last()) + attribute_reflects(attributes.last())
    }
}

pub open spec fn fields_is(r: StructFields, m: FieldsModel, budget: nat) -> bool {
    match m {
        FieldsModel::Named(fs) => match r {
            StructFields::Named(v) => v@.len() == fs.len() && forall|i: int|
                0 <= i < fs.len() ==> opt_view((#[trigger] v@[i]).name) == fs[i].name && shape_is(
                    v@[i].ty,
                    fs[i].ty,
                    budget,
                ),
            _ => false,
        },
        FieldsModel::Unnamed(fs) => match r {
            StructFields::Unnamed(v) => v@.len() == fs.len() && forall|i: int|
                0 <= i < fs.len() ==> shape_is(#[trigger] v@[i], fs[i].ty, budget),
            _ => false,
        },
        FieldsModel::Unit => r is Unit,
    }
}

/// `r` is how the scan reads the struct `m`.
pub open spec fn struct_is(r: StructItem, m: StructModel, budget: nat) -> bool {
    &&& r.name@ == m.name
    &&& string_views(r.derives@) == derive_names(m.attributes)
    &&& string_views(r.reflect_args@) == reflect_texts(m.attributes)
    &&& fields_is(r.fields, m.fields, budget)
}

pub open spec fn visibility_is(r: ItemVisibility, m: VisibilityModel) -> bool {
    match m {
        VisibilityModel::Public => r is Public,
        VisibilityModel::Restricted(segments) => match r {
            ItemVisibility::Restricted(s) => opt_view(s) == last_name(segments),
            _ => false,
        },
        VisibilityModel::Inherited => r is Inherited,
    }
}

pub open spec fn input_is(r: FnInput, m: Option<TypeModel>, budget: nat) -> bool {
    match m {
        None => r is Receiver,
        Some(t) => match r {
            FnInput::Typed(s) => shape_is(s, t, budget),
            FnInput::Receiver => false,
        },
    }
}

pub open spec fn output_is(r: Option<TypeShape>, m: Option<TypeModel>, budget: nat) -> bool {
    match m {
        None => r is None,
        Some(t) => match r {
            Some(s) => shape_is(s, t, budget),
            None => false,
        },
    }
}

/// `r` is how the scan reads the function `m`.
pub open spec fn function_is(r: FunctionItem, m: FunctionModel, budget: nat) -> bool {
    &&& r.name@ == m.name
    &&& visibility_is(r.visibility, m.visibility)
    &&& r.is_async == m.is_async
    &&& r.is_const == m.is_const
    &&& r.is_unsafe == m.is_unsafe
    &&& r.has_abi == m.has_abi
    &&& r.is_variadic == m.is_variadic
    &&& r.has_generics == (m.generic_count > 0)
    &&& r.inputs@.len() == m.inputs.len()
    &&& forall|i: int| 0 <= i < m.inputs.len() ==> input_is(#[trigger] r.inputs@[i], m.inputs[i], budget)
    &&& output_is(r.output, m.output, budget)
}

/// `r` is how the scan reads the item `m`, to a depth of `budget` levels:
/// structs, inline modules and functions are read, anything else is
/// `Other`.
pub open spec fn item_is(r: SourceItem, m: ItemModel, budget: nat) -> bool
    decreases budget, 0nat,
{
    if budget == 0 {
        r is Other
    } else {
        match m {
            ItemModel::Struct(sm) => match r {
                SourceItem::Struct(s) => struct_is(s, sm, (budget - 1) as nat),
                _ => false,
            },
            ItemModel::Module(mm) => match mm.content {
                Some(content) => match r {
                    SourceItem::Module(mi) => mi.name@ == mm.name && items_are(
                        mi.items@,
                        content,
                        (budget - 1) as nat,
                    ),
                    _ => false,
                },
                None => r is Other,
            },
            ItemModel::Function(fm) => match r {
                SourceItem::Function(f) => function_is(f, fm, (budget - 1) as nat),
                _ => false,
            },
            ItemModel::Other => r is Other,
        }
    }
}

/// `v` is how the scan reads the items `ms`, one for one.
pub open spec fn items_are(v: Seq<SourceItem>, ms: Seq<ItemModel>, budget: nat) -> bool
    decreases budget, 1nat,
{
    v.len() == ms.len() && forall|i: int| 0 <= i < v.len() ==> item_is(#[trigger] v[i], ms[i], budget)
}

#[verifier::loop_isolation(false)]
fn shape_of(ty: &syn::Type, budget: usize) -> (r: TypeShape)
    ensures
        shape_is(r, type_model(*ty), budget as nat),
    decreases budget, 0nat,
{
    if budget == 0 {
        return TypeShape::Unsupported;
    }
    match type_parts(ty) {
        TypeParts::Path(segments) => {
            let mut out: Vec<TypePathSegment> = Vec::new();
            let mut i: usize = 0;
            while i < segments.len()
                invariant
                    i <= segments.len(),
                    out.len() == i,
                    forall|k: int|
                        0 <= k < i ==> segment_is(
                            #[trigger] out@[k],
                            segment_model(segments@[k]),
                            (budget - 1) as nat,
                        ),
                decreases segments.len() - i,
            {
                out.push(segment_of(&segments[i], budget - 1));
                i = i + 1;
            }
            proof {
                assert(segment_models(segments@).len() == segments@.len());
                assert forall|k: int| 0 <= k < segments@.len() implies segment_models(segments@)[k]
                    == segment_model(segments@[k]) by {}
            }
            TypeShape::Path(out)
        },
        TypeParts::Reference(mutable, elem) => TypeShape::Reference(
            mutable,
            Box::new(shape_of(&elem, budget - 1)),
        ),
        TypeParts::Tuple(elems) => {
            let mut out: Vec<TypeShape> = Vec::new();
            let mut i: usize = 0;
            while i < elems.len()
                invariant
                    i <= elems.len(),
                    out.len() == i,
                    forall|k: int|
                        0 <= k < i ==> shape_is(#[trigger] out@[k], type_model(elems@[k]), (budget - 1) as nat),
                decreases elems.len() - i,
            {
                out.push(shape_of(&elems[i], budget - 1));
                i = i + 1;
            }
            proof {
                assert(type_models(elems@).len() == elems@.len());
                assert forall|k: int| 0 <= k < elems@.len() implies type_models(elems@)[k] == type_model(
                    elems@[k],
                ) by {}
            }
            TypeShape::Tuple(out)
        },
        TypeParts::Other => TypeShape::Unsupported,
    }
}

#[verifier::loop_isolation(false)]
fn segment_of(segment: &syn::PathSegment, budget: usize) -> (r: TypePathSegment)
    ensures
        segment_is(r, segment_model(*segment), budget as nat),
    decreases budget, 1nat,
{
    let (ident, args) = segment_parts(segment);
    let args = match args {
        None => None,
        Some(list) => {
            let mut out: Vec<GenericArg> = Vec::new();
            let mut i: usize = 0;
            while i < list.len()
                invariant
                    i <= list.len(),
                    out.len() == i,
                    forall|k: int|
                        0 <= k < i ==> argument_is(#[trigger] out@[k], argument_model(list@[k]), budget as nat),
                decreases list.len() - i,
            {
                let arg = match argument_type(&list[i]) {
                    Some(ty) => GenericArg::Type(shape_of(&ty, budget)),
                    None => GenericArg::Other,
                };
                out.push(arg);
                i = i + 1;
            }
            proof {
                assert(argument_models(list@).len() == list@.len());
                assert forall|k: int| 0 <= k < list@.len() implies argument_models(list@)[k]
                    == argument_model(list@[k]) by {}
            }
            Some(out)
        },
    };
    TypePathSegment { ident, args }
}

/// The names of the paths listed in the struct's `#[derive(..)]`
/// attributes, and the argument texts of its `#[reflect(..)]` attributes.
#[verifier::loop_isolation(false)]
fn attribute_lists(attributes: &Vec<syn::Attribute>) -> (r: (Vec<String>, Vec<String>))
    ensures
        string_views(r.0@) == derive_names(attribute_models(attributes@)),
        string_views(r.1@) == reflect_texts(attribute_models(attributes@)),
{
    let mut derives: Vec<String> = Vec::new();
    let mut reflect_args: Vec<String> = Vec::new();
    let mut i: usize = 0;
    while i < attributes.len()
        invariant
            i <= attributes.len(),
            string_views(derives@) == derive_names(attribute_models(attributes@.take(i as int))),
            string_views(reflect_args@) == reflect_texts(attribute_models(attributes@.take(i as int))),
        decreases attributes.len() - i,
    {
        let attribute = &attributes[i];
        let ghost models = attribute_models(attributes@.take(i + 1));
        let ghost a = attribute_model(*attribute);
        proof {
            reveal_strlit("derive");
            reveal_strlit("reflect");
            assert(models.drop_last() =~= attribute_models(attributes@.take(i as int)));
            assert(models.last() == a);
        }
        let ghost derives_before = string_views(derives@);
        let ghost reflects_before = string_views(reflect_args@);
        if let Some(name) = attribute_name(attribute) {
            if str_equal(name.as_str(), "derive") {
                if let Some(paths) = attribute_paths(attribute) {
                    let ghost names = path_models(paths@);
                    let mut j: usize = 0;
                    while j < paths.len()
                        invariant
                            j <= paths.len(),
                            names == path_models(paths@),
                            string_views(derives@) == derives_before + present_names(names.take(j as int)),
                        decreases paths.len() - j,
                    {
                        proof {
                            assert(names.take(j + 1).drop_last() =~= names.take(j as int));
                            assert(names.take(j + 1).last() == path_model(paths@[j as int]));
                        }
                        let ghost prev = derives@;
                        if let Some(last) = path_last_name(&paths[j]) {
                            derives.push(last);
                            assert(string_views(derives@) =~= string_views(prev).push(last@));
                        }
                        j = j + 1;
                    }
                    proof {
                        assert(names.take(paths.len() as int) =~= names);
                    }
                }
                assert(string_views(reflect_args@) == reflects_before);
            } else if str_equal(name.as_str(), "reflect") {
                let ghost prev = reflect_args@;
                assert(a.name == Some("reflect"@));
                if let Some(text) = attribute_list_text(attribute) {
                    reflect_args.push(text);
                    assert(string_views(reflect_args@) =~= string_views(prev).push(text@));
                    assert(attribute_reflects(a) == seq![text@]);
                    assert(string_views(reflect_args@) =~= reflects_before + attribute_reflects(a));
                }
            }
        }
        proof {
            assert("derive"@ != "reflect"@) by {
                assert("derive"@[0] != "reflect"@[0]);
            }
            assert(string_views(reflect_args@) =~= reflects_before + attribute_reflects(a));
            assert(derive_names(models) == derive_names(models.drop_last()) + attribute_derives(a));
            assert(reflect_texts(models) == reflect_texts(models.drop_last()) + attribute_reflects(a));
        }
        i = i + 1;
    }
    proof {
        assert(attributes@.take(attributes.len() as int) =~= attributes@);
    }
    (derives, reflect_args)
}

#[verifier::loop_isolation(false)]
fn struct_item(item: &syn::ItemStruct, budget: usize) -> (r: StructItem)
    ensures
        struct_is(r, struct_model(*item), budget as nat),
{
    let (name, attributes, fields) = struct_parts(item);
    let (derives, reflect_args) = attribute_lists(&attributes);
    let fields = match fields {
        FieldsParts::Named(list) => {
            let mut out: Vec<NamedField> = Vec::new();
            let mut i: usize = 0;
            while i < list.len()
                invariant
                    i <= list.len(),
                    out.len() == i,
                    forall|k: int|
                        0 <= k < i ==> opt_view((#[trigger] out@[k]).name) == field_model(list@[k]).name
                            && shape_is(out@[k].ty, field_model(list@[k]).ty, budget as nat),
                decreases list.len() - i,
            {
                let (field_name, ty) = field_parts(&list[i]);
                out.push(NamedField { name: field_name, ty: shape_of(&ty, budget) });
                i = i + 1;
            }
            proof {
                assert forall|k: int| 0 <= k < list@.len() implies field_models(list@)[k] == field_model(
                    list@[k],
                ) by {}
            }
            StructFields::Named(out)
        },
        FieldsParts::Unnamed(list) => {
            let mut out: Vec<TypeShape> = Vec::new();
            let mut i: usize = 0;
            while i < list.len()
                invariant
                    i <= list.len(),
                    out.len() == i,
                    forall|k: int|
                        0 <= k < i ==> shape_is(#[trigger] out@[k], field_model(list@[k]).ty, budget as nat),
                decreases list.len() - i,
            {
                let (_, ty) = field_parts(&list[i]);
                out.push(shape_of(&ty, budget));
                i = i + 1;
            }
            proof {
                assert forall|k: int| 0 <= k < list@.len() implies field_models(list@)[k] == field_model(
                    list@[k],
                ) by {}
            }
            StructFields::Unnamed(out)
        },
        FieldsParts::Unit => StructFields::Unit,
    };
    StructItem { name, derives, reflect_args, fields }
}

#[verifier::loop_isolation(false)]
fn function_item(item: &syn::ItemFn, budget: usize) -> (r: FunctionItem)
    ensures
        function_is(r, function_model(*item), budget as nat),
{
    let parts = function_parts(item);
    let flags = function_flags(item);
    let mut inputs: Vec<FnInput> = Vec::new();
    let mut i: usize = 0;
    while i < parts.inputs.len()
        invariant
            i <= parts.inputs.len(),
            inputs.len() == i,
            forall|k: int|
                0 <= k < i ==> input_is(#[trigger] inputs@[k], input_model(parts.inputs@[k]), budget as nat),
        decreases parts.inputs.len() - i,
    {
        let input = match argument_pattern_type(&parts.inputs[i]) {
            Some(ty) => FnInput::Typed(shape_of(&ty, budget)),
            None => FnInput::Receiver,
        };
        inputs.push(input);
        i = i + 1;
    }
    proof {
        assert forall|k: int| 0 <= k < parts.inputs@.len() implies input_models(parts.inputs@)[k]
            == input_model(parts.inputs@[k]) by {}
    }
    let output = match &parts.output {
        Some(ty) => Some(shape_of(ty, budget)),
        None => None,
    };
    FunctionItem {
        name: parts.name,
        visibility: visibility_of(&parts.visibility),
        is_async: flags.is_async,
        is_const: flags.is_const,
        is_unsafe: flags.is_unsafe,
        has_abi: flags.has_abi,
        is_variadic: flags.is_variadic,
        has_generics: flags.generic_count > 0,
        inputs,
        output,
    }
}

#[verifier::loop_isolation(false)]
fn source_items(items: &Vec<syn::Item>, budget: usize) -> (r: Vec<SourceItem>)
    ensures
        items_are(r@, item_models(items@), budget as nat),
    decreases budget,
{
    let mut out: Vec<SourceItem> = Vec::new();
    let mut i: usize = 0;
    while i < items.len()
        invariant
            i <= items.len(),
            out.len() == i,
            forall|k: int| 0 <= k < i ==> item_is(#[trigger] out@[k], item_model(items@[k]), budget as nat),
        decreases items.len() - i,
    {
        let item = if budget == 0 {
            SourceItem::Other
        } else {
            match item_parts(&items[i]) {
                ItemParts::Struct(s) => SourceItem::Struct(struct_item(&s, budget - 1)),
                ItemParts::Module(m) => {
                    let (name, content) = module_parts(&m);
                    match content {
                        Some(nested) => SourceItem::Module(
                            ModuleItem { name, items: source_items(&nested, budget - 1) },
                        ),
                        None => SourceItem::Other,
                    }
                },
                ItemParts::Function(f) => SourceItem::Function(function_item(&f, budget - 1)),
                ItemParts::Other => SourceItem::Other,
            }
        };
        out.push(item);
        i = i + 1;
    }
    proof {
        assert forall|k: int| 0 <= k < items@.len() implies item_models(items@)[k] == item_model(
            items@[k],
        ) by {}
    }
    out
}

/// The items of a Rust source file as the component scan reads them, or
/// `None` when `syn` cannot parse the file. Structs, inline modules and
/// functions are read (to a depth of the source's length, which a parsed
/// file never reaches); any other item is `Other`.
pub fn parse_source_items(source: &str) -> (r: Option<Vec<SourceItem>>)
    ensures
        match syn_parse(source@) {
            None => r is None,
            Some(models) => match r {
                Some(v) => items_are(v@, models, source@.len()),
                None => false,
            },
        },
{
    match parse_items(source) {
        Some(items) => Some(source_items(&items, source.unicode_len())),
        None => None,
    }
}

} // verus!
