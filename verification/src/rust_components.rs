//! Project-defined Rust ECS items for the Inspector: the components,
//! systems and entity lifecycle scripts declared in a project's sources.
//!
//! The scan works on the items of each parsed source file, given in the
//! shapes below, and reports what it finds with the path each item has in
//! the project's crate.

use vstd::prelude::*;

use crate::project_manager::model::{
    lemma_text_lt_irreflexive, lemma_text_lt_total, lemma_text_lt_transitive,
    lemma_text_not_lt_transitive, text_less, text_lt,
};
use crate::toml_doc::{entry, item_get, lookup_str, node_str, parse_toml, toml_parse};

use crate::text::{
    chars_between, chars_equal, chars_from, chars_of, contains_text, contains_text_exec, decimal,
    first_index_of, join_strings, join_with,
    lemma_first_index_of, matches_at, occurs_at, owned, push_decimal, push_str, replace_char,
    replace_char_exec, str_equal, string_of,
    string_views,
};

verus! {

// ---------------------------------------------------------------------
// Types as written in source.
// ---------------------------------------------------------------------

/// A type as written in source, as far as the scan reads it.
#[derive(Debug)]
pub enum TypeShape {
    /// A path such as `bevy::prelude::Query<&mut Movement>`.
    Path(Vec<TypePathSegment>),
    /// `&T` or `&mut T` (the flag says `mut`).
    Reference(bool, Box<TypeShape>),
    /// `(A, B, ...)`; `()` is the empty tuple.
    Tuple(Vec<TypeShape>),
    /// Any other type.
    Unsupported,
}

/// One segment of a type path: its name and its angle-bracketed arguments,
/// if it has them (`None` for no arguments or parenthesized ones).
#[derive(Debug)]
pub struct TypePathSegment {
    pub ident: String,
    pub args: Option<Vec<GenericArg>>,
}

/// An angle-bracketed argument: a type, or anything else (a lifetime, a
/// constant, a binding).
#[derive(Debug)]
pub enum GenericArg {
    Type(TypeShape),
    Other,
}

/// How the Inspector writes a type: path segments joined by `::`, each with
/// its type arguments in `<..>` (other arguments left out), references with
/// `&` or `&mut `, tuples in parentheses, and `Unsupported` for the rest.
pub open spec fn type_text(t: TypeShape) -> Seq<char>
    decreases t,
{
    match t {
        TypeShape::Path(segments) => join_with(segments_text(segments@), "::"@),
        TypeShape::Reference(mutable, elem) => "&"@ + (if mutable {
            "mut "@
        } else {
            ""@
        }) + type_text(*elem),
        TypeShape::Tuple(elems) => "("@ + join_with(types_text(elems@), ", "@) + ")"@,
        TypeShape::Unsupported => "Unsupported"@,
    }
}

pub open spec fn types_text(s: Seq<TypeShape>) -> Seq<Seq<char>>
    decreases s,
{
    if s.len() == 0 {
        Seq::empty()
    } else {
        types_text(s.drop_last()).push(type_text(s.last()))
    }
}

pub open spec fn segments_text(s: Seq<TypePathSegment>) -> Seq<Seq<char>>
    decreases s,
{
    if s.len() == 0 {
        Seq::empty()
    } else {
        segments_text(s.drop_last()).push(segment_text(s.last()))
    }
}

pub open spec fn segment_text(segment: TypePathSegment) -> Seq<char>
    decreases segment,
{
    match segment.args {
        Some(args) => {
            let names = type_args_text(args@);
            if names.len() == 0 {
                segment.ident@
            } else {
                segment.ident@ + "<"@ + join_with(names, ", "@) + ">"@
            }
        },
        None => segment.ident@,
    }
}

/// The texts of the type arguments, in order, others left out.
pub open spec fn type_args_text(s: Seq<GenericArg>) -> Seq<Seq<char>>
    decreases s,
{
    if s.len() == 0 {
        Seq::empty()
    } else {
        let before = type_args_text(s.drop_last());
        match s.last() {
            GenericArg::Type(t) => before.push(type_text(t)),
            GenericArg::Other => before,
        }
    }
}

/// The Inspector's text for a type (see `type_text`).
pub fn type_label(ty: &TypeShape) -> (r: String)
    ensures
        r@ == type_text(*ty),
    decreases ty,
{
    match ty {
        TypeShape::Path(segments) => {
            let mut parts: Vec<String> = Vec::new();
            let mut i: usize = 0;
            while i < segments.len()
                invariant
                    i <= segments.len(),
                    *ty == TypeShape::Path(*segments),
                    string_views(parts@) == segments_text(segments@.take(i as int)),
                decreases segments.len() - i,
            {
                assert(segments@.take(i + 1).drop_last() =~= segments@.take(i as int));
                proof {
                    assert(decreases_to!(*ty => ty->Path_0));
                    assert(decreases_to!(*segments => segments@));
                    assert(decreases_to!(segments@ => segments@[i as int]));
                }
                let part = segment_name(&segments[i]);
                let ghost prev = parts@;
                parts.push(part);
                assert(string_views(parts@) =~= string_views(prev).push(part@));
                i = i + 1;
            }
            assert(segments@.take(segments.len() as int) =~= segments@);
            join_strings(&parts, "::")
        },
        TypeShape::Reference(mutable, elem) => {
            let mut s = owned("&");
            if *mutable {
                push_str(&mut s, "mut ");
            }
            let inner = type_label(elem);
            push_str(&mut s, inner.as_str());
            proof {
                reveal_strlit("mut ");
                reveal_strlit("");
                assert(s@ =~= type_text(*ty));
            }
            s
        },
        TypeShape::Tuple(elems) => {
            let mut parts: Vec<String> = Vec::new();
            let mut i: usize = 0;
            while i < elems.len()
                invariant
                    i <= elems.len(),
                    *ty == TypeShape::Tuple(*elems),
                    string_views(parts@) == types_text(elems@.take(i as int)),
                decreases elems.len() - i,
            {
                assert(elems@.take(i + 1).drop_last() =~= elems@.take(i as int));
                proof {
                    assert(decreases_to!(*ty => ty->Tuple_0));
                    assert(decreases_to!(*elems => elems@));
                    assert(decreases_to!(elems@ => elems@[i as int]));
                }
                let part = type_label(&elems[i]);
                let ghost prev = parts@;
                parts.push(part);
                assert(string_views(parts@) =~= string_views(prev).push(part@));
                i = i + 1;
            }
            assert(elems@.take(elems.len() as int) =~= elems@);
            let mut s = owned("(");
            let inner = join_strings(&parts, ", ");
            push_str(&mut s, inner.as_str());
            push_str(&mut s, ")");
            s
        },
        TypeShape::Unsupported => owned("Unsupported"),
    }
}

fn segment_name(segment: &TypePathSegment) -> (r: String)
    ensures
        r@ == segment_text(*segment),
    decreases segment,
{
    match &segment.args {
        Some(args) => {
            let mut names: Vec<String> = Vec::new();
            let mut i: usize = 0;
            while i < args.len()
                invariant
                    i <= args.len(),
                    segment.args == Some(*args),
                    string_views(names@) == type_args_text(args@.take(i as int)),
                decreases args.len() - i,
            {
                assert(args@.take(i + 1).drop_last() =~= args@.take(i as int));
                match &args[i] {
                    GenericArg::Type(t) => {
                        proof {
                            assert(decreases_to!(*segment => segment.args));
                            assert(decreases_to!(segment.args => segment.args->Some_0));
                            assert(decreases_to!(*args => args@));
                            assert(decreases_to!(args@ => args@[i as int]));
                            assert(decreases_to!(args@[i as int] => *t));
                        }
                        let name = type_label(t);
                        let ghost prev = names@;
                        names.push(name);
                        assert(string_views(names@) =~= string_views(prev).push(name@));
                    },
                    GenericArg::Other => {},
                }
                i = i + 1;
            }
            assert(args@.take(args.len() as int) =~= args@);
            if names.len() == 0 {
                segment.ident.clone()
            } else {
                let mut s = segment.ident.clone();
                push_str(&mut s, "<");
                let inner = join_strings(&names, ", ");
                push_str(&mut s, inner.as_str());
                push_str(&mut s, ">");
                s
            }
        },
        None => segment.ident.clone(),
    }
}

// ---------------------------------------------------------------------
// Parameters and names.
// ---------------------------------------------------------------------

/// One parameter of a function: `self` in some form, or a typed pattern.
#[derive(Debug)]
pub enum FnInput {
    Receiver,
    Typed(TypeShape),
}

/// The name of the last segment of a path type.
pub open spec fn last_ident(t: TypeShape) -> Option<Seq<char>> {
    match t {
        TypeShape::Path(segments) => if segments@.len() > 0 {
            Some(segments@.last().ident@)
        } else {
            None
        },
        _ => None,
    }
}

fn last_ident_exec(t: &TypeShape) -> (r: Option<&String>)
    ensures
        match r {
            Some(s) => last_ident(*t) == Some(s@),
            None => last_ident(*t) is None,
        },
{
    match t {
        TypeShape::Path(segments) => if segments.len() > 0 {
            Some(&segments[segments.len() - 1].ident)
        } else {
            None
        },
        _ => None,
    }
}

/// The Bevy system parameter types the scan recognises.
pub open spec fn is_system_kind(id: Seq<char>) -> bool {
    ||| id == "Commands"@
    ||| id == "Query"@
    ||| id == "Single"@
    ||| id == "ParamSet"@
    ||| id == "Res"@
    ||| id == "ResMut"@
    ||| id == "Local"@
    ||| id == "EventReader"@
    ||| id == "EventWriter"@
    ||| id == "MessageReader"@
    ||| id == "MessageWriter"@
    ||| id == "NonSend"@
    ||| id == "NonSendMut"@
}

fn system_kind(id: &str) -> (r: bool)
    ensures
        r == is_system_kind(id@),
{
    str_equal(id, "Commands") || str_equal(id, "Query") || str_equal(id, "Single") || str_equal(
        id,
        "ParamSet",
    ) || str_equal(id, "Res") || str_equal(id, "ResMut") || str_equal(id, "Local") || str_equal(
        id,
        "EventReader",
    ) || str_equal(id, "EventWriter") || str_equal(id, "MessageReader") || str_equal(
        id,
        "MessageWriter",
    ) || str_equal(id, "NonSend") || str_equal(id, "NonSendMut")
}

/// A typed parameter whose type is one of the system parameter types.
pub open spec fn is_system_parameter(input: FnInput) -> bool {
    match input {
        FnInput::Typed(t) => match last_ident(t) {
            Some(id) => is_system_kind(id),
            None => false,
        },
        FnInput::Receiver => false,
    }
}

pub fn system_parameter(input: &FnInput) -> (r: bool)
    ensures
        r == is_system_parameter(*input),
{
    match input {
        FnInput::Typed(t) => match last_ident_exec(t) {
            Some(id) => system_kind(id.as_str()),
            None => false,
        },
        FnInput::Receiver => false,
    }
}

/// A typed parameter of type `In<..>`.
pub open spec fn is_any_input_parameter(input: FnInput) -> bool {
    match input {
        FnInput::Typed(t) => last_ident(t) == Some("In"@),
        FnInput::Receiver => false,
    }
}

pub fn any_input_parameter(input: &FnInput) -> (r: bool)
    ensures
        r == is_any_input_parameter(*input),
{
    match input {
        FnInput::Typed(t) => match last_ident_exec(t) {
            Some(id) => str_equal(id.as_str(), "In"),
            None => false,
        },
        FnInput::Receiver => false,
    }
}

/// An angle-bracketed argument that is a path type ending in `Entity`.
pub open spec fn is_entity_arg(arg: GenericArg) -> bool {
    match arg {
        GenericArg::Type(t) => last_ident(t) == Some("Entity"@),
        GenericArg::Other => false,
    }
}

/// A typed parameter of type `In<Entity>` (the last segment is `In` and one
/// of its type arguments is a path ending in `Entity`).
pub open spec fn is_entity_input(input: FnInput) -> bool {
    match input {
        FnInput::Typed(t) => match t {
            TypeShape::Path(segments) => segments@.len() > 0 && is_entity_segment(segments@.last()),
            _ => false,
        },
        FnInput::Receiver => false,
    }
}

/// The segment `In<.., Entity, ..>`.
pub open spec fn is_entity_segment(segment: TypePathSegment) -> bool {
    segment.ident@ == "In"@ && match segment.args {
        Some(args) => exists|k: int| 0 <= k < args@.len() && is_entity_arg(#[trigger] args@[k]),
        None => false,
    }
}

pub fn entity_input(input: &FnInput) -> (r: bool)
    ensures
        r == is_entity_input(*input),
{
    let segments = match input {
        FnInput::Typed(TypeShape::Path(segments)) => segments,
        _ => {
            return false;
        },
    };
    if segments.len() == 0 {
        return false;
    }
    let last = &segments[segments.len() - 1];
    if !str_equal(last.ident.as_str(), "In") {
        return false;
    }
    let args = match &last.args {
        Some(args) => args,
        None => {
            return false;
        },
    };
    let mut i: usize = 0;
    while i < args.len()
        invariant
            i <= args.len(),
            *input == FnInput::Typed(TypeShape::Path(*segments)),
            segments@.len() > 0,
            segments@.last().ident@ == "In"@,
            segments@.last().args == Some(*args),
            forall|k: int| 0 <= k < i ==> !is_entity_arg(#[trigger] args@[k]),
        decreases args.len() - i,
    {
        let hit = match &args[i] {
            GenericArg::Type(t) => match last_ident_exec(t) {
                Some(id) => str_equal(id.as_str(), "Entity"),
                None => false,
            },
            GenericArg::Other => false,
        };
        if hit {
            assert(is_entity_arg(args@[i as int]));
            assert(is_entity_arg(segments@.last().args->Some_0@[i as int]));
            return true;
        }
        i = i + 1;
    }
    false
}

/// The text after the last `::` of `s` (all of `s` when it has none),
/// searching the positions up to `i`.
pub open spec fn after_separator(s: Seq<char>, i: int) -> Seq<char>
    decreases i + 1,
{
    if i < 0 {
        s
    } else if occurs_at(s, "::"@, i) {
        s.skip(i + 2)
    } else {
        after_separator(s, i - 1)
    }
}

/// The last `::`-separated piece of `s` (`rsplit("::").next()`).
pub open spec fn short_name(s: Seq<char>) -> Seq<char> {
    after_separator(s, s.len() - 2)
}

pub fn short_name_exec(s: &Vec<char>) -> (r: Vec<char>)
    ensures
        r@ == short_name(s@),
{
    let sep: Vec<char> = vec![':', ':'];
    assert(sep@ =~= "::"@) by {
        reveal_strlit("::");
    }
    if s.len() < 2 {
        proof {
            assert(after_separator(s@, s@.len() - 2) == s@) by {
                if s@.len() == 1 {
                    assert(!occurs_at(s@, "::"@, -1));
                }
            }
        }
        return s.clone();
    }
    let mut i: usize = s.len() - 1;
    // `i` is one past the position tried next.
    while i > 0
        invariant
            i <= s.len() - 1,
            sep@ == "::"@,
            short_name(s@) == after_separator(s@, i - 1),
        decreases i,
    {
        if matches_at(s, &sep, i - 1) {
            return chars_from(s, i + 1);
        }
        i = i - 1;
    }
    s.clone()
}

/// What a Bevy parameter type is called: its text before any `<`, after
/// the last `::`.
pub open spec fn parameter_kind(p: Seq<char>) -> Seq<char> {
    short_name(p.take(first_index_of(p, '<')))
}

/// The parameters whose kind is one of `kinds`, in order.
pub open spec fn parameters_of_kinds(params: Seq<Seq<char>>, kinds: Seq<Seq<char>>) -> Seq<Seq<char>>
    decreases params.len(),
{
    if params.len() == 0 {
        Seq::empty()
    } else {
        let before = parameters_of_kinds(params.drop_last(), kinds);
        if kinds.contains(parameter_kind(params.last())) {
            before.push(params.last())
        } else {
            before
        }
    }
}

/// The parameters of the given kinds joined by `, `, or `None`.
pub open spec fn summary_text(params: Seq<Seq<char>>, kinds: Seq<Seq<char>>) -> Seq<char> {
    let found = parameters_of_kinds(params, kinds);
    if found.len() == 0 {
        "None"@
    } else {
        join_with(found, ", "@)
    }
}

fn before_angle(p: &Vec<char>) -> (r: Vec<char>)
    ensures
        r@ == p@.take(first_index_of(p@, '<')),
{
    let mut i: usize = 0;
    while i < p.len() && p[i] != '<'
        invariant
            i <= p.len(),
            forall|k: int| 0 <= k < i ==> p@[k] != '<',
        decreases p.len() - i,
    {
        i = i + 1;
    }
    proof {
        lemma_first_index_of(p@, '<', i as int);
    }
    chars_between(p, 0, i)
}

fn contains_string(kinds: &Vec<String>, s: &Vec<char>) -> (r: bool)
    ensures
        r == string_views(kinds@).contains(s@),
{
    let mut i: usize = 0;
    while i < kinds.len()
        invariant
            i <= kinds.len(),
            forall|k: int| 0 <= k < i ==> string_views(kinds@)[k] != s@,
        decreases kinds.len() - i,
    {
        let k = chars_of(kinds[i].as_str());
        if chars_equal(&k, s) {
            assert(string_views(kinds@)[i as int] == s@);
            return true;
        }
        i = i + 1;
    }
    false
}

/// The parameters of the given kinds joined by `, `, or `None` (see
/// `summary_text`).
pub fn parameter_summary(parameters: &Vec<String>, kinds: &Vec<String>) -> (r: String)
    ensures
        r@ == summary_text(string_views(parameters@), string_views(kinds@)),
{
    let mut found: Vec<String> = Vec::new();
    let mut i: usize = 0;
    while i < parameters.len()
        invariant
            i <= parameters.len(),
            string_views(found@) == parameters_of_kinds(
                string_views(parameters@).take(i as int),
                string_views(kinds@),
            ),
        decreases parameters.len() - i,
    {
        assert(string_views(parameters@).take(i + 1).drop_last() =~= string_views(parameters@).take(
            i as int,
        ));
        assert(string_views(parameters@).take(i + 1).last() == parameters@[i as int]@);
        let p = chars_of(parameters[i].as_str());
        let before = before_angle(&p);
        let kind = short_name_exec(&before);
        if contains_string(kinds, &kind) {
            let ghost prev = found@;
            found.push(parameters[i].clone());
            assert(string_views(found@) =~= string_views(prev).push(parameters@[i as int]@));
        }
        i = i + 1;
    }
    assert(string_views(parameters@).take(parameters.len() as int) =~= string_views(parameters@));
    if found.len() == 0 {
        owned("None")
    } else {
        join_strings(&found, ", ")
    }
}

// ---------------------------------------------------------------------
// Lifecycle scripts, default values and diagnostics.
// ---------------------------------------------------------------------

/// When an entity lifecycle script runs.
#[derive(Clone, Copy, Debug, PartialEq, Eq, Structural)]
pub enum EntityScriptLifecycle {
    Start,
    Update,
    FixedUpdate,
    PostUpdate,
}

/// The lifecycle a function name selects: `start`/`on_start`,
/// `update`/`on_update`, `fixed_update`/`on_fixed_update`,
/// `post_update`/`on_post_update`.
pub open spec fn spec_entity_script_lifecycle(name: Seq<char>) -> Option<EntityScriptLifecycle> {
    if name == "start"@ || name == "on_start"@ {
        Some(EntityScriptLifecycle::Start)
    } else if name == "update"@ || name == "on_update"@ {
        Some(EntityScriptLifecycle::Update)
    } else if name == "fixed_update"@ || name == "on_fixed_update"@ {
        Some(EntityScriptLifecycle::FixedUpdate)
    } else if name == "post_update"@ || name == "on_post_update"@ {
        Some(EntityScriptLifecycle::PostUpdate)
    } else {
        None
    }
}

/// The base name of each lifecycle's function.
pub open spec fn lifecycle_base_name(l: EntityScriptLifecycle) -> Seq<char> {
    match l {
        EntityScriptLifecycle::Start => "start"@,
        EntityScriptLifecycle::Update => "update"@,
        EntityScriptLifecycle::FixedUpdate => "fixed_update"@,
        EntityScriptLifecycle::PostUpdate => "post_update"@,
    }
}

/// A function name selects a lifecycle exactly when it is that lifecycle's
/// base name, with or without an `on_` prefix; every other name selects
/// none.
pub proof fn lemma_lifecycle_names(name: Seq<char>, l: EntityScriptLifecycle)
    ensures
        spec_entity_script_lifecycle(name) == Some(l) <==> (name == lifecycle_base_name(l) || name
            == "on_"@ + lifecycle_base_name(l)),
        spec_entity_script_lifecycle(name) is None <==> (forall|m: EntityScriptLifecycle|
            name != #[trigger] lifecycle_base_name(m) && name != "on_"@ + lifecycle_base_name(m)),
{
    reveal_strlit("start");
    reveal_strlit("on_start");
    reveal_strlit("update");
    reveal_strlit("on_update");
    reveal_strlit("fixed_update");
    reveal_strlit("on_fixed_update");
    reveal_strlit("post_update");
    reveal_strlit("on_post_update");
    reveal_strlit("on_");
    assert("on_"@ + "start"@ =~= "on_start"@);
    assert("on_"@ + "update"@ =~= "on_update"@);
    assert("on_"@ + "fixed_update"@ =~= "on_fixed_update"@);
    assert("on_"@ + "post_update"@ =~= "on_post_update"@);
    if spec_entity_script_lifecycle(name) is None {
        assert forall|m: EntityScriptLifecycle|
            name != #[trigger] lifecycle_base_name(m) && name != "on_"@ + lifecycle_base_name(m) by {
            match m {
                EntityScriptLifecycle::Start => {},
                EntityScriptLifecycle::Update => {},
                EntityScriptLifecycle::FixedUpdate => {},
                EntityScriptLifecycle::PostUpdate => {},
            }
        }
    } else {
        let m = spec_entity_script_lifecycle(name)->0;
        assert(name == lifecycle_base_name(m) || name == "on_"@ + lifecycle_base_name(m));
    }
}

pub fn entity_script_lifecycle(name: &str) -> (r: Option<EntityScriptLifecycle>)
    ensures
        r == spec_entity_script_lifecycle(name@),
{
    if str_equal(name, "start") || str_equal(name, "on_start") {
        Some(EntityScriptLifecycle::Start)
    } else if str_equal(name, "update") || str_equal(name, "on_update") {
        Some(EntityScriptLifecycle::Update)
    } else if str_equal(name, "fixed_update") || str_equal(name, "on_fixed_update") {
        Some(EntityScriptLifecycle::FixedUpdate)
    } else if str_equal(name, "post_update") || str_equal(name, "on_post_update") {
        Some(EntityScriptLifecycle::PostUpdate)
    } else {
        None
    }
}

pub open spec fn is_integer_name(short: Seq<char>) -> bool {
    ||| short == "i8"@
    ||| short == "i16"@
    ||| short == "i32"@
    ||| short == "i64"@
    ||| short == "i128"@
    ||| short == "isize"@
    ||| short == "u8"@
    ||| short == "u16"@
    ||| short == "u32"@
    ||| short == "u64"@
    ||| short == "u128"@
    ||| short == "usize"@
}

/// The value an Inspector field of the named type starts with, for the
/// types it can edit (looked up by the type's last `::` piece).
pub open spec fn default_text(type_text: Seq<char>) -> Option<Seq<char>> {
    let short = short_name(type_text);
    if short == "bool"@ {
        Some("false"@)
    } else if is_integer_name(short) {
        Some("0"@)
    } else if short == "f32"@ || short == "f64"@ {
        Some("0.0"@)
    } else if short == "String"@ {
        Some(""@)
    } else if short == "Vec2"@ {
        Some("0.0, 0.0"@)
    } else if short == "Vec3"@ {
        Some("0.0, 0.0, 0.0"@)
    } else if short == "Vec4"@ {
        Some("0.0, 0.0, 0.0, 0.0"@)
    } else if short == "Color"@ {
        Some("1.0, 1.0, 1.0, 1.0"@)
    } else {
        None
    }
}

fn integer_name(short: &str) -> (r: bool)
    ensures
        r == is_integer_name(short@),
{
    str_equal(short, "i8") || str_equal(short, "i16") || str_equal(short, "i32") || str_equal(
        short,
        "i64",
    ) || str_equal(short, "i128") || str_equal(short, "isize") || str_equal(short, "u8")
        || str_equal(short, "u16") || str_equal(short, "u32") || str_equal(short, "u64")
        || str_equal(short, "u128") || str_equal(short, "usize")
}

pub fn default_value(type_text: &str) -> (r: Option<String>)
    ensures
        match r {
            Some(v) => default_text(type_text@) == Some(v@),
            None => default_text(type_text@) is None,
        },
{
    let chars = chars_of(type_text);
    let short_chars = short_name_exec(&chars);
    let short = string_of(&short_chars);
    let s = short.as_str();
    if str_equal(s, "bool") {
        Some(owned("false"))
    } else if integer_name(s) {
        Some(owned("0"))
    } else if str_equal(s, "f32") || str_equal(s, "f64") {
        Some(owned("0.0"))
    } else if str_equal(s, "String") {
        proof {
            reveal_strlit("");
        }
        Some(String::new())
    } else if str_equal(s, "Vec2") {
        Some(owned("0.0, 0.0"))
    } else if str_equal(s, "Vec3") {
        Some(owned("0.0, 0.0, 0.0"))
    } else if str_equal(s, "Vec4") {
        Some(owned("0.0, 0.0, 0.0, 0.0"))
    } else if str_equal(s, "Color") {
        Some(owned("1.0, 1.0, 1.0, 1.0"))
    } else {
        None
    }
}

// ---------------------------------------------------------------------
// Source items.
// ---------------------------------------------------------------------

/// An item's visibility: `pub`, `pub(path)` with the path's last segment
/// (if it has one), or none.
#[derive(Debug)]
pub enum ItemVisibility {
    Public,
    Restricted(Option<String>),
    Inherited,
}

/// `pub`, or `pub(..)` ending in `crate`.
pub open spec fn is_crate_visible(v: ItemVisibility) -> bool {
    match v {
        ItemVisibility::Public => true,
        ItemVisibility::Restricted(last) => match last {
            Some(s) => s@ == "crate"@,
            None => false,
        },
        ItemVisibility::Inherited => false,
    }
}

pub fn crate_visible(v: &ItemVisibility) -> (r: bool)
    ensures
        r == is_crate_visible(*v),
{
    match v {
        ItemVisibility::Public => true,
        ItemVisibility::Restricted(last) => match last {
            Some(s) => str_equal(s.as_str(), "crate"),
            None => false,
        },
        ItemVisibility::Inherited => false,
    }
}

/// A function item: its name, visibility, the qualifiers of its signature,
/// its parameters and its return type (`None` when it declares none).
#[derive(Debug)]
pub struct FunctionItem {
    pub name: String,
    pub visibility: ItemVisibility,
    pub is_async: bool,
    pub is_const: bool,
    pub is_unsafe: bool,
    pub has_abi: bool,
    pub is_variadic: bool,
    pub has_generics: bool,
    pub inputs: Vec<FnInput>,
    pub output: Option<TypeShape>,
}

/// A struct item: its name, the last segment of every path its
/// `#[derive(..)]` attributes name, the argument text of its `#[reflect(..)]`
/// attributes, and its fields.
#[derive(Debug)]
pub struct StructItem {
    pub name: String,
    pub derives: Vec<String>,
    pub reflect_args: Vec<String>,
    pub fields: StructFields,
}

#[derive(Debug)]
pub enum StructFields {
    Named(Vec<NamedField>),
    Unnamed(Vec<TypeShape>),
    Unit,
}

#[derive(Debug)]
pub struct NamedField {
    pub name: Option<String>,
    pub ty: TypeShape,
}

/// An inline module and its items.
#[derive(Debug)]
pub struct ModuleItem {
    pub name: String,
    pub items: Vec<SourceItem>,
}

/// An item of a source file, as far as the scan reads it.
#[derive(Debug)]
pub enum SourceItem {
    Struct(StructItem),
    Module(ModuleItem),
    Function(FunctionItem),
    Other,
}

pub open spec fn returns_unit(f: FunctionItem) -> bool {
    match f.output {
        None => true,
        Some(TypeShape::Tuple(elems)) => elems@.len() == 0,
        Some(_) => false,
    }
}

pub open spec fn has_input(inputs: Seq<FnInput>, p: spec_fn(FnInput) -> bool) -> bool {
    exists|k: int| 0 <= k < inputs.len() && p(#[trigger] inputs[k])
}

/// Why a function with system parameters cannot be run as a system, if
/// it cannot: a nested one must be visible to the crate, it must be a
/// plain safe function, it cannot take `In<T>`, and it must return `()`.
pub open spec fn spec_system_diagnostic(f: FunctionItem, nested: bool, source_path: Seq<char>) -> Option<
    Seq<char>,
> {
    if nested && !is_crate_visible(f.visibility) {
        Some(source_path + ": nested system `"@ + f.name@ + "` must be pub(crate)"@)
    } else if f.is_async || f.is_const || f.is_unsafe || f.has_abi || f.is_variadic || f.has_generics {
        Some(
            source_path + ": system `"@ + f.name@
                + "` must be a non-async, non-generic safe Rust function"@,
        )
    } else if has_input(f.inputs@, |i: FnInput| is_any_input_parameter(i)) {
        Some(
            source_path + ": system `"@ + f.name@
                + "` cannot accept In<T>; use an Entity lifecycle script for In<Entity>"@,
        )
    } else if !returns_unit(f) {
        Some(source_path + ": system `"@ + f.name@ + "` must return ()"@)
    } else {
        None
    }
}

/// Why a lifecycle script cannot run, if it cannot: it must take
/// `In<Entity>`, and a nested one must not be private.
pub open spec fn spec_script_diagnostic(f: FunctionItem, nested: bool, source_path: Seq<char>) -> Option<
    Seq<char>,
> {
    if !has_input(f.inputs@, |i: FnInput| is_entity_input(i)) {
        Some(source_path + ": `"@ + f.name@ + "` must accept In<Entity>"@)
    } else if nested && f.visibility is Inherited {
        Some(source_path + ": nested `"@ + f.name@ + "` must be pub(crate)"@)
    } else {
        None
    }
}

fn message3(a: &str, b: &str, c: &str, d: &str) -> (r: String)
    ensures
        r@ == a@ + b@ + c@ + d@,
{
    let mut s = owned(a);
    push_str(&mut s, b);
    push_str(&mut s, c);
    push_str(&mut s, d);
    s
}

fn any_input(inputs: &Vec<FnInput>, entity: bool) -> (r: bool)
    ensures
        entity ==> r == has_input(inputs@, |i: FnInput| is_entity_input(i)),
        !entity ==> r == has_input(inputs@, |i: FnInput| is_any_input_parameter(i)),
{
    let mut i: usize = 0;
    while i < inputs.len()
        invariant
            i <= inputs.len(),
            entity ==> forall|k: int| 0 <= k < i ==> !is_entity_input(#[trigger] inputs@[k]),
            !entity ==> forall|k: int| 0 <= k < i ==> !is_any_input_parameter(#[trigger] inputs@[k]),
        decreases inputs.len() - i,
    {
        let hit = if entity {
            entity_input(&inputs[i])
        } else {
            any_input_parameter(&inputs[i])
        };
        if hit {
            return true;
        }
        i = i + 1;
    }
    false
}

pub fn system_diagnostic(f: &FunctionItem, nested: bool, source_path: &str) -> (r: Option<String>)
    ensures
        match r {
            Some(m) => spec_system_diagnostic(*f, nested, source_path@) == Some(m@),
            None => spec_system_diagnostic(*f, nested, source_path@) is None,
        },
{
    let name = f.name.as_str();
    if nested && !crate_visible(&f.visibility) {
        return Some(message3(source_path, ": nested system `", name, "` must be pub(crate)"));
    }
    if f.is_async || f.is_const || f.is_unsafe || f.has_abi || f.is_variadic || f.has_generics {
        return Some(
            message3(
                source_path,
                ": system `",
                name,
                "` must be a non-async, non-generic safe Rust function",
            ),
        );
    }
    if any_input(&f.inputs, false) {
        return Some(
            message3(
                source_path,
                ": system `",
                name,
                "` cannot accept In<T>; use an Entity lifecycle script for In<Entity>",
            ),
        );
    }
    let unit = match &f.output {
        None => true,
        Some(TypeShape::Tuple(elems)) => elems.len() == 0,
        Some(_) => false,
    };
    if !unit {
        return Some(message3(source_path, ": system `", name, "` must return ()"));
    }
    None
}

pub fn script_diagnostic(f: &FunctionItem, nested: bool, source_path: &str) -> (r: Option<String>)
    ensures
        match r {
            Some(m) => spec_script_diagnostic(*f, nested, source_path@) == Some(m@),
            None => spec_script_diagnostic(*f, nested, source_path@) is None,
        },
{
    let name = f.name.as_str();
    if !any_input(&f.inputs, true) {
        return Some(message3(source_path, ": `", name, "` must accept In<Entity>"));
    }
    let private = match f.visibility {
        ItemVisibility::Inherited => true,
        _ => false,
    };
    if nested && private {
        return Some(message3(source_path, ": nested `", name, "` must be pub(crate)"));
    }
    None
}

// ---------------------------------------------------------------------
// What the scan reports.
// ---------------------------------------------------------------------

/// A field of a component as the Inspector edits it.
#[derive(Debug)]
pub struct RustComponentFieldDefinition {
    pub name: String,
    pub type_label: String,
    pub default_value: String,
    pub editable: bool,
}

pub struct FieldView {
    pub name: Seq<char>,
    pub type_label: Seq<char>,
    pub default_value: Seq<char>,
    pub editable: bool,
}

impl View for RustComponentFieldDefinition {
    type V = FieldView;

    open spec fn view(&self) -> FieldView {
        FieldView {
            name: self.name@,
            type_label: self.type_label@,
            default_value: self.default_value@,
            editable: self.editable,
        }
    }
}

/// A struct deriving `Component`.
#[derive(Debug)]
pub struct RustComponentDefinition {
    pub type_path: String,
    pub name: String,
    pub source_path: String,
    pub fields: Vec<RustComponentFieldDefinition>,
    /// The source type exposes Bevy reflection metadata. Concrete runtime
    /// insertion still requires the game to register the type with its App.
    pub reflection_ready: bool,
}

pub struct ComponentView {
    pub type_path: Seq<char>,
    pub name: Seq<char>,
    pub source_path: Seq<char>,
    pub fields: Seq<FieldView>,
    pub reflection_ready: bool,
}

pub open spec fn field_views(v: Seq<RustComponentFieldDefinition>) -> Seq<FieldView> {
    v.map_values(|f: RustComponentFieldDefinition| f@)
}

impl View for RustComponentDefinition {
    type V = ComponentView;

    open spec fn view(&self) -> ComponentView {
        ComponentView {
            type_path: self.type_path@,
            name: self.name@,
            source_path: self.source_path@,
            fields: field_views(self.fields@),
            reflection_ready: self.reflection_ready,
        }
    }
}

/// A function taking Bevy system parameters.
#[derive(Debug)]
pub struct RustSystemDefinition {
    pub system_path: String,
    pub name: String,
    pub source_path: String,
    pub parameters: Vec<String>,
    /// Whether the generated game entry point can call this function.
    pub valid: bool,
    pub diagnostic: Option<String>,
}

pub struct SystemView {
    pub system_path: Seq<char>,
    pub name: Seq<char>,
    pub source_path: Seq<char>,
    pub parameters: Seq<Seq<char>>,
    pub valid: bool,
    pub diagnostic: Option<Seq<char>>,
}

impl View for RustSystemDefinition {
    type V = SystemView;

    open spec fn view(&self) -> SystemView {
        SystemView {
            system_path: self.system_path@,
            name: self.name@,
            source_path: self.source_path@,
            parameters: string_views(self.parameters@),
            valid: self.valid,
            diagnostic: opt_text(self.diagnostic),
        }
    }
}

/// A function named after an entity lifecycle stage.
#[derive(Debug)]
pub struct RustEntityScriptFunction {
    pub function_path: String,
    pub name: String,
    pub source_path: String,
    pub lifecycle: EntityScriptLifecycle,
    pub valid: bool,
    pub diagnostic: Option<String>,
}

pub struct ScriptView {
    pub function_path: Seq<char>,
    pub name: Seq<char>,
    pub source_path: Seq<char>,
    pub lifecycle: EntityScriptLifecycle,
    pub valid: bool,
    pub diagnostic: Option<Seq<char>>,
}

impl View for RustEntityScriptFunction {
    type V = ScriptView;

    open spec fn view(&self) -> ScriptView {
        ScriptView {
            function_path: self.function_path@,
            name: self.name@,
            source_path: self.source_path@,
            lifecycle: self.lifecycle,
            valid: self.valid,
            diagnostic: opt_text(self.diagnostic),
        }
    }
}

pub open spec fn opt_text(o: Option<String>) -> Option<Seq<char>> {
    match o {
        Some(s) => Some(s@),
        None => None,
    }
}

impl RustSystemDefinition {
    /// The system's query parameters (`Query`, `Single`, `ParamSet`), or `None`.
    pub fn query_summary(&self) -> (r: String)
        ensures
            r@ == summary_text(string_views(self.parameters@), query_kinds()),
    {
        let mut kinds: Vec<String> = Vec::new();
        kinds.push(owned("Query"));
        kinds.push(owned("Single"));
        kinds.push(owned("ParamSet"));
        assert(string_views(kinds@) =~= query_kinds());
        parameter_summary(&self.parameters, &kinds)
    }

    /// The system's other data access parameters (commands, resources,
    /// locals, events, messages, non-send data), or `None`.
    pub fn access_summary(&self) -> (r: String)
        ensures
            r@ == summary_text(string_views(self.parameters@), access_kinds()),
    {
        let mut kinds: Vec<String> = Vec::new();
        kinds.push(owned("Commands"));
        kinds.push(owned("Res"));
        kinds.push(owned("ResMut"));
        kinds.push(owned("Local"));
        kinds.push(owned("EventReader"));
        kinds.push(owned("EventWriter"));
        kinds.push(owned("MessageReader"));
        kinds.push(owned("MessageWriter"));
        kinds.push(owned("NonSend"));
        kinds.push(owned("NonSendMut"));
        assert(string_views(kinds@) =~= access_kinds());
        parameter_summary(&self.parameters, &kinds)
    }
}

pub open spec fn query_kinds() -> Seq<Seq<char>> {
    seq!["Query"@, "Single"@, "ParamSet"@]
}

pub open spec fn access_kinds() -> Seq<Seq<char>> {
    seq![
        "Commands"@,
        "Res"@,
        "ResMut"@,
        "Local"@,
        "EventReader"@,
        "EventWriter"@,
        "MessageReader"@,
        "MessageWriter"@,
        "NonSend"@,
        "NonSendMut"@,
    ]
}

// ---------------------------------------------------------------------
// The scan.
// ---------------------------------------------------------------------

/// Everything found, in the order found.
pub struct ScanView {
    pub components: Seq<ComponentView>,
    pub systems: Seq<SystemView>,
    pub scripts: Seq<ScriptView>,
}

pub open spec fn no_findings() -> ScanView {
    ScanView { components: Seq::empty(), systems: Seq::empty(), scripts: Seq::empty() }
}

pub open spec fn scan_join(a: ScanView, b: ScanView) -> ScanView {
    ScanView {
        components: a.components + b.components,
        systems: a.systems + b.systems,
        scripts: a.scripts + b.scripts,
    }
}

/// The path of an item in the crate: the crate name, the module path and
/// the item's name, joined by `::`.
pub open spec fn item_path(crate_name: Seq<char>, module: Seq<Seq<char>>, name: Seq<char>) -> Seq<char> {
    join_with(seq![crate_name] + module + seq![name], "::"@)
}

/// An Inspector field of the given name and type.
pub open spec fn field_view(name: Seq<char>, ty: TypeShape) -> FieldView {
    let t = type_text(ty);
    FieldView {
        name,
        type_label: t,
        default_value: match default_text(t) {
            Some(v) => v,
            None => Seq::empty(),
        },
        editable: default_text(t) is Some,
    }
}

pub open spec fn named_fields(s: Seq<NamedField>) -> Seq<FieldView>
    decreases s.len(),
{
    if s.len() == 0 {
        Seq::empty()
    } else {
        let before = named_fields(s.drop_last());
        match s.last().name {
            Some(n) => before.push(field_view(n@, s.last().ty)),
            None => before,
        }
    }
}

/// The Inspector fields of a struct: named fields by name (fields without
/// a name are skipped), tuple fields by position.
pub open spec fn struct_field_views(fields: StructFields) -> Seq<FieldView> {
    match fields {
        StructFields::Named(named) => named_fields(named@),
        StructFields::Unnamed(types) => Seq::new(
            types@.len(),
            |i: int| field_view(decimal(i as nat), types@[i]),
        ),
        StructFields::Unit => Seq::empty(),
    }
}

pub open spec fn derives(s: StructItem, name: Seq<char>) -> bool {
    string_views(s.derives@).contains(name)
}

/// Some `#[reflect(..)]` attribute of the struct mentions `Component`.
pub open spec fn reflects_component(s: StructItem) -> bool {
    exists|k: int|
        0 <= k < s.reflect_args@.len() && contains_text(#[trigger] s.reflect_args@[k]@, "Component"@)
}

pub open spec fn component_view(
    s: StructItem,
    crate_name: Seq<char>,
    module: Seq<Seq<char>>,
    source_path: Seq<char>,
) -> ComponentView {
    ComponentView {
        type_path: item_path(crate_name, module, s.name@),
        name: s.name@,
        source_path,
        fields: struct_field_views(s.fields),
        reflection_ready: derives(s, "Reflect"@) && reflects_component(s) && derives(s, "Default"@),
    }
}

/// The typed parameters' type texts, in order.
pub open spec fn parameter_texts(inputs: Seq<FnInput>) -> Seq<Seq<char>>
    decreases inputs.len(),
{
    if inputs.len() == 0 {
        Seq::empty()
    } else {
        let before = parameter_texts(inputs.drop_last());
        match inputs.last() {
            FnInput::Typed(t) => before.push(type_text(t)),
            FnInput::Receiver => before,
        }
    }
}

/// What one function contributes: a lifecycle script when its name is a
/// lifecycle stage, else a system when it takes a system parameter.
pub open spec fn function_findings(
    f: FunctionItem,
    crate_name: Seq<char>,
    module: Seq<Seq<char>>,
    source_path: Seq<char>,
) -> ScanView {
    let path = item_path(crate_name, module, f.name@);
    let nested = module.len() > 0;
    match spec_entity_script_lifecycle(f.name@) {
        Some(lifecycle) => {
            let diagnostic = spec_script_diagnostic(f, nested, source_path);
            ScanView {
                components: Seq::empty(),
                systems: Seq::empty(),
                scripts: seq![
                    ScriptView {
                        function_path: path,
                        name: f.name@,
                        source_path,
                        lifecycle,
                        valid: diagnostic is None,
                        diagnostic,
                    },
                ],
            }
        },
        None => if has_input(f.inputs@, |i: FnInput| is_system_parameter(i)) {
            let diagnostic = spec_system_diagnostic(f, nested, source_path);
            ScanView {
                components: Seq::empty(),
                systems: seq![
                    SystemView {
                        system_path: path,
                        name: f.name@,
                        source_path,
                        parameters: parameter_texts(f.inputs@),
                        valid: diagnostic is None,
                        diagnostic,
                    },
                ],
                scripts: Seq::empty(),
            }
        } else {
            no_findings()
        },
    }
}

/// What the items of a file (or of an inline module) contribute, in order;
/// `module` is the module path they stand in.
pub open spec fn scan_items(
    items: Seq<SourceItem>,
    crate_name: Seq<char>,
    module: Seq<Seq<char>>,
    source_path: Seq<char>,
) -> ScanView
    decreases items,
{
    if items.len() == 0 {
        no_findings()
    } else {
        scan_join(
            scan_items(items.drop_last(), crate_name, module, source_path),
            scan_item(items.last(), crate_name, module, source_path),
        )
    }
}

/// What one item contributes: a struct deriving `Component` is a
/// component; an inline module contributes its items under its name.
pub open spec fn scan_item(
    item: SourceItem,
    crate_name: Seq<char>,
    module: Seq<Seq<char>>,
    source_path: Seq<char>,
) -> ScanView
    decreases item,
{
    match item {
        SourceItem::Struct(s) => if derives(s, "Component"@) {
            ScanView {
                components: seq![component_view(s, crate_name, module, source_path)],
                systems: Seq::empty(),
                scripts: Seq::empty(),
            }
        } else {
            no_findings()
        },
        SourceItem::Module(m) => scan_items(m.items@, crate_name, module.push(m.name@), source_path),
        SourceItem::Function(f) => function_findings(f, crate_name, module, source_path),
        SourceItem::Other => no_findings(),
    }
}

pub open spec fn component_views(v: Seq<RustComponentDefinition>) -> Seq<ComponentView> {
    v.map_values(|c: RustComponentDefinition| c@)
}

pub open spec fn system_views(v: Seq<RustSystemDefinition>) -> Seq<SystemView> {
    v.map_values(|c: RustSystemDefinition| c@)
}

pub open spec fn script_views(v: Seq<RustEntityScriptFunction>) -> Seq<ScriptView> {
    v.map_values(|c: RustEntityScriptFunction| c@)
}

fn item_path_text(crate_name: &str, module: &Vec<String>, name: &str) -> (r: String)
    ensures
        r@ == item_path(crate_name@, string_views(module@), name@),
{
    let mut parts: Vec<String> = Vec::new();
    parts.push(owned(crate_name));
    let mut i: usize = 0;
    while i < module.len()
        invariant
            i <= module.len(),
            string_views(parts@) == seq![crate_name@] + string_views(module@).take(i as int),
        decreases module.len() - i,
    {
        let ghost prev = parts@;
        parts.push(module[i].clone());
        assert(string_views(parts@) =~= string_views(prev).push(module@[i as int]@));
        assert(string_views(module@).take(i + 1) =~= string_views(module@).take(i as int).push(
            module@[i as int]@,
        ));
        i = i + 1;
    }
    let ghost prev = parts@;
    parts.push(owned(name));
    assert(string_views(parts@) =~= string_views(prev).push(name@));
    assert(string_views(module@).take(module.len() as int) =~= string_views(module@));
    assert(string_views(parts@) =~= seq![crate_name@] + string_views(module@) + seq![name@]);
    join_strings(&parts, "::")
}

fn field_definition(name: String, ty: &TypeShape) -> (r: RustComponentFieldDefinition)
    ensures
        r@ == field_view(name@, *ty),
{
    let type_label = type_label(ty);
    let default = default_value(type_label.as_str());
    let editable = default.is_some();
    let default_value = match default {
        Some(v) => v,
        None => String::new(),
    };
    RustComponentFieldDefinition { name, type_label, default_value, editable }
}

fn struct_fields(fields: &StructFields) -> (r: Vec<RustComponentFieldDefinition>)
    ensures
        field_views(r@) == struct_field_views(*fields),
{
    let mut out: Vec<RustComponentFieldDefinition> = Vec::new();
    match fields {
        StructFields::Named(named) => {
            let mut i: usize = 0;
            while i < named.len()
                invariant
                    i <= named.len(),
                    field_views(out@) == named_fields(named@.take(i as int)),
                decreases named.len() - i,
            {
                assert(named@.take(i + 1).drop_last() =~= named@.take(i as int));
                match &named[i].name {
                    Some(n) => {
                        let ghost prev = out@;
                        out.push(field_definition(n.clone(), &named[i].ty));
                        assert(field_views(out@) =~= field_views(prev).push(out@.last()@));
                    },
                    None => {},
                }
                i = i + 1;
            }
            assert(named@.take(named.len() as int) =~= named@);
        },
        StructFields::Unnamed(types) => {
            let mut i: usize = 0;
            while i < types.len()
                invariant
                    i <= types.len(),
                    field_views(out@) =~= Seq::new(
                        i as nat,
                        |k: int| field_view(decimal(k as nat), types@[k]),
                    ),
                decreases types.len() - i,
            {
                let mut name = String::new();
                push_decimal(&mut name, i as u64);
                let ghost prev = out@;
                out.push(field_definition(name, &types[i]));
                assert(field_views(out@) =~= field_views(prev).push(out@.last()@));
                i = i + 1;
            }
        },
        StructFields::Unit => {},
    }
    out
}

fn derives_name(s: &StructItem, expected: &str) -> (r: bool)
    ensures
        r == derives(*s, expected@),
{
    let e = chars_of(expected);
    contains_string(&s.derives, &e)
}

fn reflects_component_exec(s: &StructItem) -> (r: bool)
    ensures
        r == reflects_component(*s),
{
    let pattern = chars_of("Component");
    let mut i: usize = 0;
    while i < s.reflect_args.len()
        invariant
            i <= s.reflect_args.len(),
            pattern@ == "Component"@,
            forall|k: int| 0 <= k < i ==> !contains_text(#[trigger] s.reflect_args@[k]@, "Component"@),
        decreases s.reflect_args.len() - i,
    {
        let text = chars_of(s.reflect_args[i].as_str());
        if contains_text_exec(&text, &pattern) {
            return true;
        }
        i = i + 1;
    }
    false
}

fn component_definition(
    s: &StructItem,
    crate_name: &str,
    module: &Vec<String>,
    source_path: &str,
) -> (r: RustComponentDefinition)
    ensures
        r@ == component_view(*s, crate_name@, string_views(module@), source_path@),
{
    let reflection_ready = derives_name(s, "Reflect") && reflects_component_exec(s) && derives_name(
        s,
        "Default",
    );
    RustComponentDefinition {
        type_path: item_path_text(crate_name, module, s.name.as_str()),
        name: s.name.clone(),
        source_path: owned(source_path),
        fields: struct_fields(&s.fields),
        reflection_ready,
    }
}

fn parameter_list(inputs: &Vec<FnInput>) -> (r: Vec<String>)
    ensures
        string_views(r@) == parameter_texts(inputs@),
{
    let mut out: Vec<String> = Vec::new();
    let mut i: usize = 0;
    while i < inputs.len()
        invariant
            i <= inputs.len(),
            string_views(out@) == parameter_texts(inputs@.take(i as int)),
        decreases inputs.len() - i,
    {
        assert(inputs@.take(i + 1).drop_last() =~= inputs@.take(i as int));
        match &inputs[i] {
            FnInput::Typed(t) => {
                let ghost prev = out@;
                out.push(type_label(t));
                assert(string_views(out@) =~= string_views(prev).push(out@.last()@));
            },
            FnInput::Receiver => {},
        }
        i = i + 1;
    }
    assert(inputs@.take(inputs.len() as int) =~= inputs@);
    out
}

fn any_system_parameter(inputs: &Vec<FnInput>) -> (r: bool)
    ensures
        r == has_input(inputs@, |i: FnInput| is_system_parameter(i)),
{
    let mut i: usize = 0;
    while i < inputs.len()
        invariant
            i <= inputs.len(),
            forall|k: int| 0 <= k < i ==> !is_system_parameter(#[trigger] inputs@[k]),
        decreases inputs.len() - i,
    {
        if system_parameter(&inputs[i]) {
            return true;
        }
        i = i + 1;
    }
    false
}

fn collect_function(
    f: &FunctionItem,
    crate_name: &str,
    module: &Vec<String>,
    source_path: &str,
    systems: &mut Vec<RustSystemDefinition>,
    entity_scripts: &mut Vec<RustEntityScriptFunction>,
)
    ensures
        system_views(final(systems)@) == system_views(old(systems)@) + function_findings(
            *f,
            crate_name@,
            string_views(module@),
            source_path@,
        ).systems,
        script_views(final(entity_scripts)@) == script_views(old(entity_scripts)@) + function_findings(
            *f,
            crate_name@,
            string_views(module@),
            source_path@,
        ).scripts,
{
    let nested = module.len() > 0;
    match entity_script_lifecycle(f.name.as_str()) {
        Some(lifecycle) => {
            let diagnostic = script_diagnostic(f, nested, source_path);
            let script = RustEntityScriptFunction {
                function_path: item_path_text(crate_name, module, f.name.as_str()),
                name: f.name.clone(),
                source_path: owned(source_path),
                lifecycle,
                valid: diagnostic.is_none(),
                diagnostic,
            };
            let ghost prev = entity_scripts@;
            entity_scripts.push(script);
            assert(script_views(entity_scripts@) =~= script_views(prev) + seq![entity_scripts@.last()@]);
            assert(system_views(systems@) =~= system_views(systems@) + Seq::<SystemView>::empty());
        },
        None => if any_system_parameter(&f.inputs) {
            let diagnostic = system_diagnostic(f, nested, source_path);
            let system = RustSystemDefinition {
                system_path: item_path_text(crate_name, module, f.name.as_str()),
                name: f.name.clone(),
                source_path: owned(source_path),
                parameters: parameter_list(&f.inputs),
                valid: diagnostic.is_none(),
                diagnostic,
            };
            let ghost prev = systems@;
            systems.push(system);
            assert(system_views(systems@) =~= system_views(prev) + seq![systems@.last()@]);
            assert(script_views(entity_scripts@) =~= script_views(entity_scripts@) + Seq::<ScriptView>::empty());
        } else {
            assert(system_views(systems@) =~= system_views(systems@) + Seq::<SystemView>::empty());
            assert(script_views(entity_scripts@) =~= script_views(entity_scripts@) + Seq::<ScriptView>::empty());
        },
    }
}

/// Collects the components, systems and lifecycle scripts among `items`
/// (see `scan_items`), appending them to the three lists.
pub fn collect_items(
    items: &Vec<SourceItem>,
    crate_name: &str,
    module: &Vec<String>,
    source_path: &str,
    output: &mut Vec<RustComponentDefinition>,
    systems: &mut Vec<RustSystemDefinition>,
    entity_scripts: &mut Vec<RustEntityScriptFunction>,
)
    ensures
        component_views(final(output)@) == component_views(old(output)@) + scan_items(
            items@,
            crate_name@,
            string_views(module@),
            source_path@,
        ).components,
        system_views(final(systems)@) == system_views(old(systems)@) + scan_items(
            items@,
            crate_name@,
            string_views(module@),
            source_path@,
        ).systems,
        script_views(final(entity_scripts)@) == script_views(old(entity_scripts)@) + scan_items(
            items@,
            crate_name@,
            string_views(module@),
            source_path@,
        ).scripts,
    decreases items,
{
    let ghost path = string_views(module@);
    let mut i: usize = 0;
    assert(items@.take(0) =~= Seq::<SourceItem>::empty());
    assert(component_views(output@) =~= component_views(old(output)@) + Seq::<ComponentView>::empty());
    assert(system_views(systems@) =~= system_views(old(systems)@) + Seq::<SystemView>::empty());
    assert(script_views(entity_scripts@) =~= script_views(old(entity_scripts)@) + Seq::<ScriptView>::empty());
    while i < items.len()
        invariant
            i <= items.len(),
            path == string_views(module@),
            component_views(output@) == component_views(old(output)@) + scan_items(
                items@.take(i as int),
                crate_name@,
                path,
                source_path@,
            ).components,
            system_views(systems@) == system_views(old(systems)@) + scan_items(
                items@.take(i as int),
                crate_name@,
                path,
                source_path@,
            ).systems,
            script_views(entity_scripts@) == script_views(old(entity_scripts)@) + scan_items(
                items@.take(i as int),
                crate_name@,
                path,
                source_path@,
            ).scripts,
        decreases items.len() - i,
    {
        let ghost before = scan_items(items@.take(i as int), crate_name@, path, source_path@);
        let ghost step = scan_item(items@[i as int], crate_name@, path, source_path@);
        assert(items@.take(i + 1).drop_last() =~= items@.take(i as int));
        assert(items@.take(i + 1).last() == items@[i as int]);
        assert(scan_items(items@.take(i + 1), crate_name@, path, source_path@) == scan_join(
            before,
            step,
        ));
        let ghost out0 = component_views(output@);
        let ghost sys0 = system_views(systems@);
        let ghost scr0 = script_views(entity_scripts@);
        match &items[i] {
            SourceItem::Struct(s) => {
                if derives_name(s, "Component") {
                    let c = component_definition(s, crate_name, module, source_path);
                    output.push(c);
                    assert(component_views(output@) =~= out0 + seq![output@.last()@]);
                } else {
                    assert(component_views(output@) =~= out0 + Seq::<ComponentView>::empty());
                }
                assert(system_views(systems@) =~= sys0 + Seq::<SystemView>::empty());
                assert(script_views(entity_scripts@) =~= scr0 + Seq::<ScriptView>::empty());
            },
            SourceItem::Module(m) => {
                let mut nested = module.clone();
                nested.push(m.name.clone());
                assert(string_views(nested@) =~= path.push(m.name@));
                proof {
                    assert(decreases_to!(*items => items@));
                    assert(decreases_to!(items@ => items@[i as int]));
                    assert(decreases_to!(items@[i as int] => items@[i as int]->Module_0));
                    assert(decreases_to!(items@[i as int]->Module_0 => items@[i as int]->Module_0.items));
                }
                collect_items(&m.items, crate_name, &nested, source_path, output, systems, entity_scripts);
            },
            SourceItem::Function(f) => {
                collect_function(f, crate_name, module, source_path, systems, entity_scripts);
                assert(component_views(output@) =~= out0 + Seq::<ComponentView>::empty());
            },
            SourceItem::Other => {
                assert(component_views(output@) =~= out0 + Seq::<ComponentView>::empty());
                assert(system_views(systems@) =~= sys0 + Seq::<SystemView>::empty());
                assert(script_views(entity_scripts@) =~= scr0 + Seq::<ScriptView>::empty());
            },
        }
        assert(component_views(output@) == out0 + step.components);
        assert(system_views(systems@) == sys0 + step.systems);
        assert(script_views(entity_scripts@) == scr0 + step.scripts);
        assert(component_views(output@) =~= component_views(old(output)@) + (before.components + step.components));
        assert(system_views(systems@) =~= system_views(old(systems)@) + (before.systems + step.systems));
        assert(script_views(entity_scripts@) =~= script_views(old(entity_scripts)@) + (before.scripts + step.scripts));
        i = i + 1;
    }
    assert(items@.take(items.len() as int) =~= items@);
}

// ---------------------------------------------------------------------
// Ordering what was found.
// ---------------------------------------------------------------------

/// A finding identified by a path: the lists are ordered by it, and one
/// finding is kept per path.
pub trait ScanKey: View + Sized {
    spec fn key_of(v: Self::V) -> Seq<char>;

    fn key(&self) -> (r: &String)
        ensures
            r@ == Self::key_of(self@),
    ;
}

impl ScanKey for RustComponentDefinition {
    open spec fn key_of(v: ComponentView) -> Seq<char> {
        v.type_path
    }

    fn key(&self) -> (r: &String) {
        &self.type_path
    }
}

impl ScanKey for RustSystemDefinition {
    open spec fn key_of(v: SystemView) -> Seq<char> {
        v.system_path
    }

    fn key(&self) -> (r: &String) {
        &self.system_path
    }
}

impl ScanKey for RustEntityScriptFunction {
    open spec fn key_of(v: ScriptView) -> Seq<char> {
        v.function_path
    }

    fn key(&self) -> (r: &String) {
        &self.function_path
    }
}

pub open spec fn seq_views<T: View>(s: Seq<T>) -> Seq<T::V> {
    s.map_values(|t: T| t@)
}

/// `x` placed into the ordered `s` after every finding whose path does not
/// come after its own (so equal paths keep their order).
pub open spec fn key_insert<T: ScanKey>(s: Seq<T::V>, x: T::V) -> Seq<T::V>
    decreases s.len(),
{
    if s.len() == 0 {
        seq![x]
    } else if text_lt(T::key_of(x), T::key_of(s.last())) {
        key_insert::<T>(s.drop_last(), x).push(s.last())
    } else {
        s.push(x)
    }
}

/// `s` in a stable order of paths (`sort_by` on the path).
pub open spec fn key_sorted<T: ScanKey>(s: Seq<T::V>) -> Seq<T::V>
    decreases s.len(),
{
    if s.len() == 0 {
        s
    } else {
        key_insert::<T>(key_sorted::<T>(s.drop_last()), s.last())
    }
}

/// `s` with each run of equal paths cut to its first finding (`dedup_by`
/// on the path).
pub open spec fn key_deduped<T: ScanKey>(s: Seq<T::V>) -> Seq<T::V>
    decreases s.len(),
{
    if s.len() == 0 {
        s
    } else {
        let before = key_deduped::<T>(s.drop_last());
        if before.len() > 0 && T::key_of(before.last()) == T::key_of(s.last()) {
            before
        } else {
            before.push(s.last())
        }
    }
}

proof fn lemma_key_insert_at<T: ScanKey>(s: Seq<T::V>, x: T::V, j: int)
    requires
        0 <= j <= s.len(),
        forall|k: int| j <= k < s.len() ==> text_lt(T::key_of(x), T::key_of(#[trigger] s[k])),
        j == 0 || !text_lt(T::key_of(x), T::key_of(s[j - 1])),
    ensures
        key_insert::<T>(s, x) == s.insert(j, x),
    decreases s.len(),
{
    if s.len() == 0 {
        assert(s.insert(0, x) =~= seq![x]);
    } else if j == s.len() {
        assert(s.insert(j, x) =~= s.push(x));
    } else {
        assert(text_lt(T::key_of(x), T::key_of(s[s.len() - 1])));
        lemma_key_insert_at::<T>(s.drop_last(), x, j);
        assert(s.drop_last().insert(j, x).push(s.last()) =~= s.insert(j, x));
    }
}

fn key_less<T: ScanKey>(a: &T, b: &T) -> (r: bool)
    ensures
        r == text_lt(T::key_of(a@), T::key_of(b@)),
{
    let x = chars_of(a.key().as_str());
    let y = chars_of(b.key().as_str());
    text_less(&x, &y)
}

fn insert_by_key<T: ScanKey>(out: &mut Vec<T>, x: T)
    ensures
        seq_views(final(out)@) == key_insert::<T>(seq_views(old(out)@), x@),
{
    let mut j: usize = out.len();
    while j > 0 && key_less(&x, &out[j - 1])
        invariant
            j <= out.len(),
            forall|k: int| j <= k < out.len() ==> text_lt(T::key_of(x@), T::key_of(#[trigger] out@[k]@)),
        decreases j,
    {
        j = j - 1;
    }
    proof {
        let vs = seq_views(out@);
        assert forall|k: int| j <= k < vs.len() implies text_lt(T::key_of(x@), T::key_of(#[trigger] vs[k])) by {
            assert(vs[k] == out@[k]@);
        }
        if j > 0 {
            assert(vs[j - 1] == out@[j - 1]@);
        }
        lemma_key_insert_at::<T>(vs, x@, j as int);
    }
    let ghost before = out@;
    out.insert(j, x);
    assert(seq_views(out@) =~= seq_views(before).insert(j as int, x@));
}

/// The findings ordered by path with one finding kept per path (see
/// `key_sorted` and `key_deduped`).
pub fn sort_dedup_by_key<T: ScanKey>(v: Vec<T>) -> (r: Vec<T>)
    ensures
        seq_views(r@) == key_deduped::<T>(key_sorted::<T>(seq_views(v@))),
{
    let ghost all = seq_views(v@);
    let n = v.len();
    let mut rest = v;
    let mut sorted: Vec<T> = Vec::new();
    let mut i: usize = 0;
    while i < n
        invariant
            i <= n,
            n == all.len(),
            rest.len() == n - i,
            seq_views(rest@) == all.skip(i as int),
            seq_views(sorted@) == key_sorted::<T>(all.take(i as int)),
        decreases n - i,
    {
        assert(seq_views(rest@)[0] == all[i as int]);
        let ghost old_rest = rest@;
        let x = rest.remove(0);
        assert(rest@ =~= old_rest.drop_first());
        assert(seq_views(rest@) =~= all.skip(i + 1)) by {
            assert forall|k: int| 0 <= k < rest@.len() implies seq_views(rest@)[k] == all.skip(i + 1)[k] by {
                assert(seq_views(old_rest)[k + 1] == old_rest[k + 1]@);
            }
        }
        assert(all.take(i + 1).drop_last() =~= all.take(i as int));
        assert(all.take(i + 1).last() == all[i as int]);
        insert_by_key(&mut sorted, x);
        i = i + 1;
    }
    assert(all.take(n as int) =~= all);
    let ghost ordered = seq_views(sorted@);
    let m = sorted.len();
    let mut rest = sorted;
    let mut out: Vec<T> = Vec::new();
    let mut i: usize = 0;
    while i < m
        invariant
            i <= m,
            m == ordered.len(),
            rest.len() == m - i,
            seq_views(rest@) == ordered.skip(i as int),
            seq_views(out@) == key_deduped::<T>(ordered.take(i as int)),
        decreases m - i,
    {
        assert(seq_views(rest@)[0] == ordered[i as int]);
        let ghost old_rest = rest@;
        let x = rest.remove(0);
        assert(rest@ =~= old_rest.drop_first());
        assert(seq_views(rest@) =~= ordered.skip(i + 1)) by {
            assert forall|k: int| 0 <= k < rest@.len() implies seq_views(rest@)[k] == ordered.skip(i + 1)[k] by {
                assert(seq_views(old_rest)[k + 1] == old_rest[k + 1]@);
            }
        }
        assert(ordered.take(i + 1).drop_last() =~= ordered.take(i as int));
        assert(ordered.take(i + 1).last() == ordered[i as int]);
        let keep = if out.len() == 0 {
            true
        } else {
            let a = chars_of(out[out.len() - 1].key().as_str());
            let b = chars_of(x.key().as_str());
            assert(seq_views(out@).last() == out@[out.len() - 1]@);
            !chars_equal(&a, &b)
        };
        if keep {
            let ghost prev = out@;
            out.push(x);
            assert(seq_views(out@) =~= seq_views(prev).push(ordered[i as int]));
        }
        i = i + 1;
    }
    assert(ordered.take(m as int) =~= ordered);
    out
}

/// No finding's path comes before the path of a finding ahead of it.
pub open spec fn keys_nondecreasing<T: ScanKey>(s: Seq<T::V>) -> bool {
    forall|i: int, j: int|
        0 <= i < j < s.len() ==> !text_lt(T::key_of(#[trigger] s[j]), T::key_of(#[trigger] s[i]))
}

/// Each finding's path comes strictly before the paths after it: the
/// paths are ordered and none repeats.
pub open spec fn keys_increasing<T: ScanKey>(s: Seq<T::V>) -> bool {
    forall|i: int, j: int|
        0 <= i < j < s.len() ==> text_lt(T::key_of(#[trigger] s[i]), T::key_of(#[trigger] s[j]))
}

proof fn lemma_key_insert_sorted<T: ScanKey>(s: Seq<T::V>, x: T::V)
    requires
        keys_nondecreasing::<T>(s),
    ensures
        keys_nondecreasing::<T>(key_insert::<T>(s, x)),
        key_insert::<T>(s, x).len() == s.len() + 1,
        forall|k: int|
            0 <= k < s.len() + 1 ==> #[trigger] key_insert::<T>(s, x)[k] == x || s.contains(
                key_insert::<T>(s, x)[k],
            ),
    decreases s.len(),
{
    let r = key_insert::<T>(s, x);
    if s.len() == 0 {
    } else if text_lt(T::key_of(x), T::key_of(s.last())) {
        let t = s.drop_last();
        assert(keys_nondecreasing::<T>(t)) by {
            assert forall|i: int, j: int| 0 <= i < j < t.len() implies !text_lt(T::key_of(#[trigger] t[j]), T::key_of(#[trigger] t[i])) by {
                assert(t[j] == s[j] && t[i] == s[i]);
            }
        }
        lemma_key_insert_sorted::<T>(t, x);
        let u = key_insert::<T>(t, x);
        assert(r == u.push(s.last()));
        if text_lt(T::key_of(s.last()), T::key_of(x)) {
            lemma_text_lt_transitive(T::key_of(x), T::key_of(s.last()), T::key_of(x));
            lemma_text_lt_irreflexive(T::key_of(x));
        }
        lemma_text_lt_irreflexive(T::key_of(s.last()));
        assert forall|k: int| 0 <= k < u.len() implies !text_lt(T::key_of(s.last()), T::key_of(#[trigger] u[k])) by {
            if u[k] != x {
                assert(t.contains(u[k]));
                let i = choose|i: int| 0 <= i < t.len() && t[i] == u[k];
                assert(s[i] == u[k]);
                assert(!text_lt(T::key_of(s[s.len() - 1]), T::key_of(s[i])));
            }
        }
        assert forall|i: int, j: int| 0 <= i < j < r.len() implies !text_lt(T::key_of(#[trigger] r[j]), T::key_of(#[trigger] r[i])) by {
            if j == r.len() - 1 {
                assert(r[j] == s.last());
                assert(r[i] == u[i]);
            } else {
                assert(r[j] == u[j] && r[i] == u[i]);
            }
        }
        assert forall|k: int| 0 <= k < s.len() + 1 implies #[trigger] r[k] == x || s.contains(r[k]) by {
            if k == s.len() {
                assert(r[k] == s[s.len() - 1]);
            } else {
                assert(r[k] == u[k]);
                if u[k] != x {
                    let i = choose|i: int| 0 <= i < t.len() && t[i] == u[k];
                    assert(s[i] == u[k]);
                }
            }
        }
    } else {
        assert(r == s.push(x));
        assert forall|i: int, j: int| 0 <= i < j < r.len() implies !text_lt(T::key_of(#[trigger] r[j]), T::key_of(#[trigger] r[i])) by {
            if j == r.len() - 1 {
                assert(r[j] == x);
                assert(r[i] == s[i]);
                if i < s.len() - 1 {
                    lemma_text_not_lt_transitive(T::key_of(s[i]), T::key_of(s[s.len() - 1]), T::key_of(x));
                }
            } else {
                assert(r[j] == s[j] && r[i] == s[i]);
            }
        }
        assert forall|k: int| 0 <= k < s.len() + 1 implies #[trigger] r[k] == x || s.contains(r[k]) by {
            if k < s.len() {
                assert(r[k] == s[k]);
            }
        }
    }
}

proof fn lemma_key_sorted<T: ScanKey>(s: Seq<T::V>)
    ensures
        keys_nondecreasing::<T>(key_sorted::<T>(s)),
    decreases s.len(),
{
    if s.len() > 0 {
        lemma_key_sorted::<T>(s.drop_last());
        lemma_key_insert_sorted::<T>(key_sorted::<T>(s.drop_last()), s.last());
    }
}

proof fn lemma_key_deduped<T: ScanKey>(s: Seq<T::V>)
    requires
        keys_nondecreasing::<T>(s),
    ensures
        keys_increasing::<T>(key_deduped::<T>(s)),
        forall|k: int| 0 <= k < key_deduped::<T>(s).len() ==> s.contains(#[trigger] key_deduped::<T>(s)[k]),
    decreases s.len(),
{
    if s.len() > 0 {
        let t = s.drop_last();
        assert(keys_nondecreasing::<T>(t)) by {
            assert forall|i: int, j: int| 0 <= i < j < t.len() implies !text_lt(T::key_of(#[trigger] t[j]), T::key_of(#[trigger] t[i])) by {
                assert(t[j] == s[j] && t[i] == s[i]);
            }
        }
        lemma_key_deduped::<T>(t);
        let d = key_deduped::<T>(t);
        let r = key_deduped::<T>(s);
        assert forall|k: int| 0 <= k < d.len() implies s.contains(#[trigger] d[k]) by {
            assert(t.contains(d[k]));
            let i = choose|i: int| 0 <= i < t.len() && t[i] == d[k];
            assert(s[i] == d[k]);
        }
        if d.len() > 0 && T::key_of(d.last()) == T::key_of(s.last()) {
        } else {
            assert(r == d.push(s.last()));
            if d.len() > 0 {
                let b = d.last();
                assert(t.contains(d[d.len() - 1]));
                let i = choose|i: int| 0 <= i < t.len() && t[i] == d[d.len() - 1];
                assert(s[i] == b);
                assert(!text_lt(T::key_of(s[s.len() - 1]), T::key_of(s[i])));
                lemma_text_lt_total(T::key_of(b), T::key_of(s.last()));
                assert(text_lt(T::key_of(b), T::key_of(s.last())));
                assert forall|m: int| 0 <= m < d.len() implies text_lt(T::key_of(#[trigger] d[m]), T::key_of(s.last())) by {
                    if m < d.len() - 1 {
                        lemma_text_lt_transitive(T::key_of(d[m]), T::key_of(b), T::key_of(s.last()));
                    }
                }
            }
            assert forall|i: int, j: int| 0 <= i < j < r.len() implies text_lt(T::key_of(#[trigger] r[i]), T::key_of(#[trigger] r[j])) by {
                if j == r.len() - 1 {
                    assert(r[i] == d[i]);
                    assert(r[j] == s.last());
                } else {
                    assert(r[i] == d[i] && r[j] == d[j]);
                }
            }
            assert forall|k: int| 0 <= k < r.len() implies s.contains(#[trigger] r[k]) by {
                if k == r.len() - 1 {
                    assert(s[s.len() - 1] == r[k]);
                } else {
                    assert(r[k] == d[k]);
                }
            }
        }
    }
}

/// What a scan reports is ordered by path with no path twice: the paths of
/// sorting and then cutting repeats are strictly increasing.
pub proof fn lemma_scan_list_ordered<T: ScanKey>(s: Seq<T::V>)
    ensures
        keys_increasing::<T>(key_deduped::<T>(key_sorted::<T>(s))),
{
    lemma_key_sorted::<T>(s);
    lemma_key_deduped::<T>(key_sorted::<T>(s));
}

// ---------------------------------------------------------------------
// Scanning a project.
// ---------------------------------------------------------------------

/// One parsed source file of the project: the module path it defines, its
/// `res://` path and its items.
#[derive(Debug)]
pub struct ScannedFile {
    pub module: Vec<String>,
    pub source_path: String,
    pub items: Vec<SourceItem>,
}

/// What all the files contribute, file by file.
pub open spec fn scan_files(files: Seq<ScannedFile>, crate_name: Seq<char>) -> ScanView
    decreases files.len(),
{
    if files.len() == 0 {
        no_findings()
    } else {
        scan_join(
            scan_files(files.drop_last(), crate_name),
            scan_items(
                files.last().items@,
                crate_name,
                string_views(files.last().module@),
                files.last().source_path@,
            ),
        )
    }
}

/// The components, systems and lifecycle scripts of a project.
#[derive(Debug)]
pub struct RustEcsScan {
    pub components: Vec<RustComponentDefinition>,
    pub systems: Vec<RustSystemDefinition>,
    pub entity_scripts: Vec<RustEntityScriptFunction>,
}

/// Scans the project's parsed files (in the order the files are listed):
/// each list is ordered by path with one finding per path.
pub fn scan_project_files(crate_name: &str, files: &Vec<ScannedFile>) -> (r: RustEcsScan)
    ensures
        seq_views(r.components@) == key_deduped::<RustComponentDefinition>(
            key_sorted::<RustComponentDefinition>(scan_files(files@, crate_name@).components),
        ),
        seq_views(r.systems@) == key_deduped::<RustSystemDefinition>(
            key_sorted::<RustSystemDefinition>(scan_files(files@, crate_name@).systems),
        ),
        seq_views(r.entity_scripts@) == key_deduped::<RustEntityScriptFunction>(
            key_sorted::<RustEntityScriptFunction>(scan_files(files@, crate_name@).scripts),
        ),
        keys_increasing::<RustComponentDefinition>(seq_views(r.components@)),
        keys_increasing::<RustSystemDefinition>(seq_views(r.systems@)),
        keys_increasing::<RustEntityScriptFunction>(seq_views(r.entity_scripts@)),
{
    let mut components: Vec<RustComponentDefinition> = Vec::new();
    let mut systems: Vec<RustSystemDefinition> = Vec::new();
    let mut scripts: Vec<RustEntityScriptFunction> = Vec::new();
    let mut i: usize = 0;
    while i < files.len()
        invariant
            i <= files.len(),
            component_views(components@) == scan_files(files@.take(i as int), crate_name@).components,
            system_views(systems@) == scan_files(files@.take(i as int), crate_name@).systems,
            script_views(scripts@) == scan_files(files@.take(i as int), crate_name@).scripts,
        decreases files.len() - i,
    {
        assert(files@.take(i + 1).drop_last() =~= files@.take(i as int));
        assert(files@.take(i + 1).last() == files@[i as int]);
        collect_items(
            &files[i].items,
            crate_name,
            &files[i].module,
            files[i].source_path.as_str(),
            &mut components,
            &mut systems,
            &mut scripts,
        );
        i = i + 1;
    }
    assert(files@.take(files.len() as int) =~= files@);
    assert(seq_views(components@) =~= component_views(components@));
    assert(seq_views(systems@) =~= system_views(systems@));
    assert(seq_views(scripts@) =~= script_views(scripts@));
    proof {
        lemma_scan_list_ordered::<RustComponentDefinition>(seq_views(components@));
        lemma_scan_list_ordered::<RustSystemDefinition>(seq_views(systems@));
        lemma_scan_list_ordered::<RustEntityScriptFunction>(seq_views(scripts@));
    }
    RustEcsScan {
        components: sort_dedup_by_key(components),
        systems: sort_dedup_by_key(systems),
        entity_scripts: sort_dedup_by_key(scripts),
    }
}

// ---------------------------------------------------------------------
// The crate, module paths and scene components.
// ---------------------------------------------------------------------

/// The package name `Cargo.toml` gives (with `-` written `_`), if it
/// parses and names one.
pub open spec fn spec_package_name(source: Seq<char>) -> Option<Seq<char>> {
    match toml_parse(source) {
        Err(_) => None,
        Ok(document) => match entry(document, "package"@) {
            Some(package) => match node_str(entry(package, "name"@)) {
                Some(name) => Some(replace_char(name, '-', '_')),
                None => None,
            },
            None => None,
        },
    }
}

pub fn package_name(cargo_source: &str) -> (r: Option<String>)
    ensures
        match r {
            Some(n) => spec_package_name(cargo_source@) == Some(n@),
            None => spec_package_name(cargo_source@) is None,
        },
{
    let document = match parse_toml(cargo_source) {
        Ok(d) => d,
        Err(_) => {
            return None;
        },
    };
    let package = match item_get(&document, "package") {
        Some(p) => p,
        None => {
            return None;
        },
    };
    match lookup_str(package, "name") {
        Some(name) => {
            let chars = chars_of(name.as_str());
            let replaced = replace_char_exec(&chars, '-', '_');
            Some(string_of(&replaced))
        },
        None => None,
    }
}

/// The crate name the scan uses: the package name when `Cargo.toml` could
/// be read and names one, else `game`.
pub fn crate_name_for(cargo_source: &Option<String>) -> (r: String)
    ensures
        r@ == match cargo_source {
            Some(source) => match spec_package_name(source@) {
                Some(n) => n,
                None => "game"@,
            },
            None => "game"@,
        },
{
    match cargo_source {
        Some(source) => match package_name(source.as_str()) {
            Some(n) => n,
            None => owned("game"),
        },
        None => owned("game"),
    }
}

/// The module path of a source file: the folders between `src` and the
/// file, then the file's stem unless it is `main`, `lib` or `mod` (or
/// empty).
pub open spec fn spec_module_path(folders: Seq<Seq<char>>, stem: Seq<char>) -> Seq<Seq<char>> {
    if stem == "main"@ || stem == "lib"@ || stem == "mod"@ || stem.len() == 0 {
        folders
    } else {
        folders.push(stem)
    }
}

pub fn source_module_path(folders: Vec<String>, stem: &str) -> (r: Vec<String>)
    ensures
        string_views(r@) == spec_module_path(string_views(folders@), stem@),
{
    let mut parts = folders;
    if str_equal(stem, "main") || str_equal(stem, "lib") || str_equal(stem, "mod") || stem.unicode_len()
        == 0 {
        parts
    } else {
        let ghost prev = parts@;
        parts.push(owned(stem));
        assert(string_views(parts@) =~= string_views(prev).push(stem@));
        parts
    }
}

/// A field of a component placed in a scene.
#[derive(Debug)]
pub struct SceneCustomField {
    pub name: String,
    pub type_label: String,
    pub value: String,
}

/// A project component placed in a scene.
#[derive(Debug)]
pub struct SceneCustomComponent {
    pub type_path: String,
    pub source_path: String,
    pub fields: Vec<SceneCustomField>,
}

impl RustComponentDefinition {
    /// The component as placed in a scene: each field starts at its
    /// default value.
    pub fn instantiate(&self) -> (r: SceneCustomComponent)
        ensures
            r.type_path@ == self.type_path@,
            r.source_path@ == self.source_path@,
            r.fields.len() == self.fields.len(),
            forall|i: int|
                0 <= i < self.fields.len() ==> {
                    &&& (#[trigger] r.fields@[i]).name@ == self.fields@[i].name@
                    &&& r.fields@[i].type_label@ == self.fields@[i].type_label@
                    &&& r.fields@[i].value@ == self.fields@[i].default_value@
                },
    {
        let mut fields: Vec<SceneCustomField> = Vec::new();
        let mut i: usize = 0;
        while i < self.fields.len()
            invariant
                i <= self.fields.len(),
                fields.len() == i,
                forall|k: int|
                    0 <= k < i ==> {
                        &&& (#[trigger] fields@[k]).name@ == self.fields@[k].name@
                        &&& fields@[k].type_label@ == self.fields@[k].type_label@
                        &&& fields@[k].value@ == self.fields@[k].default_value@
                    },
            decreases self.fields.len() - i,
        {
            let f = &self.fields[i];
            fields.push(
                SceneCustomField {
                    name: f.name.clone(),
                    type_label: f.type_label.clone(),
                    value: f.default_value.clone(),
                },
            );
            i = i + 1;
        }
        SceneCustomComponent {
            type_path: self.type_path.clone(),
            source_path: self.source_path.clone(),
            fields,
        }
    }
}

// ---------------------------------------------------------------------
// The registry.
// ---------------------------------------------------------------------

/// Findings that can be compared with another of their kind.
pub trait SameAs: View + Sized {
    fn same_as(&self, other: &Self) -> (r: bool)
        ensures
            r == (self@ == other@),
    ;
}

fn same_opt_text(a: &Option<String>, b: &Option<String>) -> (r: bool)
    ensures
        r == (opt_text(*a) == opt_text(*b)),
{
    match (a, b) {
        (Some(x), Some(y)) => str_equal(x.as_str(), y.as_str()),
        (None, None) => true,
        _ => false,
    }
}

fn same_strings(a: &Vec<String>, b: &Vec<String>) -> (r: bool)
    ensures
        r == (string_views(a@) == string_views(b@)),
{
    if a.len() != b.len() {
        assert(string_views(a@).len() != string_views(b@).len());
        return false;
    }
    let mut i: usize = 0;
    while i < a.len()
        invariant
            i <= a.len(),
            a.len() == b.len(),
            forall|k: int| 0 <= k < i ==> a@[k]@ == b@[k]@,
        decreases a.len() - i,
    {
        if !str_equal(a[i].as_str(), b[i].as_str()) {
            assert(string_views(a@)[i as int] != string_views(b@)[i as int]);
            return false;
        }
        i = i + 1;
    }
    assert(string_views(a@) =~= string_views(b@));
    true
}

impl SameAs for RustComponentFieldDefinition {
    fn same_as(&self, other: &Self) -> (r: bool) {
        str_equal(self.name.as_str(), other.name.as_str()) && str_equal(
            self.type_label.as_str(),
            other.type_label.as_str(),
        ) && str_equal(self.default_value.as_str(), other.default_value.as_str()) && self.editable
            == other.editable
    }
}

fn same_list<T: SameAs>(a: &Vec<T>, b: &Vec<T>) -> (r: bool)
    ensures
        r == (seq_views(a@) == seq_views(b@)),
{
    if a.len() != b.len() {
        assert(seq_views(a@).len() != seq_views(b@).len());
        return false;
    }
    let mut i: usize = 0;
    while i < a.len()
        invariant
            i <= a.len(),
            a.len() == b.len(),
            forall|k: int| 0 <= k < i ==> a@[k]@ == b@[k]@,
        decreases a.len() - i,
    {
        if !a[i].same_as(&b[i]) {
            assert(seq_views(a@)[i as int] != seq_views(b@)[i as int]);
            return false;
        }
        i = i + 1;
    }
    assert(seq_views(a@) =~= seq_views(b@));
    true
}

impl SameAs for RustComponentDefinition {
    fn same_as(&self, other: &Self) -> (r: bool) {
        let same = str_equal(self.type_path.as_str(), other.type_path.as_str()) && str_equal(
            self.name.as_str(),
            other.name.as_str(),
        ) && str_equal(self.source_path.as_str(), other.source_path.as_str()) && same_list(
            &self.fields,
            &other.fields,
        ) && self.reflection_ready == other.reflection_ready;
        assert(seq_views(self.fields@) =~= field_views(self.fields@));
        assert(seq_views(other.fields@) =~= field_views(other.fields@));
        same
    }
}

impl SameAs for RustSystemDefinition {
    fn same_as(&self, other: &Self) -> (r: bool) {
        str_equal(self.system_path.as_str(), other.system_path.as_str()) && str_equal(
            self.name.as_str(),
            other.name.as_str(),
        ) && str_equal(self.source_path.as_str(), other.source_path.as_str()) && same_strings(
            &self.parameters,
            &other.parameters,
        ) && self.valid == other.valid && same_opt_text(&self.diagnostic, &other.diagnostic)
    }
}

impl SameAs for RustEntityScriptFunction {
    fn same_as(&self, other: &Self) -> (r: bool) {
        str_equal(self.function_path.as_str(), other.function_path.as_str()) && str_equal(
            self.name.as_str(),
            other.name.as_str(),
        ) && str_equal(self.source_path.as_str(), other.source_path.as_str()) && self.lifecycle
            == other.lifecycle && self.valid == other.valid && same_opt_text(
            &self.diagnostic,
            &other.diagnostic,
        )
    }
}

/// What the Inspector knows of the project's Rust items, with a revision
/// that changes whenever they do.
#[derive(Debug)]
pub struct RustComponentRegistry {
    pub components: Vec<RustComponentDefinition>,
    pub systems: Vec<RustSystemDefinition>,
    pub entity_scripts: Vec<RustEntityScriptFunction>,
    pub revision: u64,
    /// Identifies the state of the source files the lists were read from.
    pub fingerprint: u64,
}

impl Default for RustComponentRegistry {
    fn default() -> (r: Self)
        ensures
            r.components.len() == 0,
            r.systems.len() == 0,
            r.entity_scripts.len() == 0,
            r.revision == 0,
            r.fingerprint == 0,
    {
        RustComponentRegistry {
            components: Vec::new(),
            systems: Vec::new(),
            entity_scripts: Vec::new(),
            revision: 0,
            fingerprint: 0,
        }
    }
}

fn find_by_key<T: ScanKey>(s: &Vec<T>, key: &str) -> (r: Option<usize>)
    ensures
        match r {
            Some(i) => i < s.len() && T::key_of(s@[i as int]@) == key@ && forall|j: int|
                0 <= j < i ==> T::key_of(#[trigger] s@[j]@) != key@,
            None => forall|j: int| 0 <= j < s.len() ==> T::key_of(#[trigger] s@[j]@) != key@,
        },
{
    let mut i: usize = 0;
    while i < s.len()
        invariant
            i <= s.len(),
            forall|j: int| 0 <= j < i ==> T::key_of(#[trigger] s@[j]@) != key@,
        decreases s.len() - i,
    {
        if str_equal(s[i].key().as_str(), key) {
            return Some(i);
        }
        i = i + 1;
    }
    None
}

impl RustComponentRegistry {
    /// The first component whose type path is `type_path`.
    pub fn get(&self, type_path: &str) -> (r: Option<&RustComponentDefinition>)
        ensures
            match r {
                Some(c) => exists|i: int|
                    #![trigger self.components@[i]]
                    0 <= i < self.components.len() && self.components@[i] == *c && c.type_path@
                        == type_path@ && forall|j: int|
                        0 <= j < i ==> (#[trigger] self.components@[j]).type_path@ != type_path@,
                None => forall|j: int|
                    0 <= j < self.components.len() ==> (#[trigger] self.components@[j]).type_path@
                        != type_path@,
            },
    {
        match find_by_key(&self.components, type_path) {
            Some(i) => {
                proof {
                    assert forall|j: int| 0 <= j < i implies (#[trigger] self.components@[j]).type_path@ != type_path@ by {
                        assert(RustComponentDefinition::key_of(self.components@[j]@) == self.components@[j].type_path@);
                    }
                    assert(RustComponentDefinition::key_of(self.components@[i as int]@) == self.components@[i as int].type_path@);
                }
                let c = &self.components[i];
                assert(self.components@[i as int] == *c);
                Some(c)
            },
            None => {
                proof {
                    assert forall|j: int| 0 <= j < self.components.len() implies (#[trigger] self.components@[j]).type_path@ != type_path@ by {
                        assert(RustComponentDefinition::key_of(self.components@[j]@) == self.components@[j].type_path@);
                    }
                }
                None
            },
        }
    }

    /// The first system whose path is `system_path`.
    pub fn get_system(&self, system_path: &str) -> (r: Option<&RustSystemDefinition>)
        ensures
            match r {
                Some(c) => exists|i: int|
                    #![trigger self.systems@[i]]
                    0 <= i < self.systems.len() && self.systems@[i] == *c && c.system_path@
                        == system_path@ && forall|j: int|
                        0 <= j < i ==> (#[trigger] self.systems@[j]).system_path@ != system_path@,
                None => forall|j: int|
                    0 <= j < self.systems.len() ==> (#[trigger] self.systems@[j]).system_path@
                        != system_path@,
            },
    {
        match find_by_key(&self.systems, system_path) {
            Some(i) => {
                proof {
                    assert forall|j: int| 0 <= j < i implies (#[trigger] self.systems@[j]).system_path@ != system_path@ by {
                        assert(RustSystemDefinition::key_of(self.systems@[j]@) == self.systems@[j].system_path@);
                    }
                    assert(RustSystemDefinition::key_of(self.systems@[i as int]@) == self.systems@[i as int].system_path@);
                }
                let c = &self.systems[i];
                assert(self.systems@[i as int] == *c);
                Some(c)
            },
            None => {
                proof {
                    assert forall|j: int| 0 <= j < self.systems.len() implies (#[trigger] self.systems@[j]).system_path@ != system_path@ by {
                        assert(RustSystemDefinition::key_of(self.systems@[j]@) == self.systems@[j].system_path@);
                    }
                }
                None
            },
        }
    }

    /// Takes a new scan of the sources whose files have the given
    /// fingerprint: when anything differs, the registry holds the scan and
    /// its revision moves on; otherwise nothing changes.
    pub fn apply_scan(&mut self, scan: RustEcsScan, fingerprint: u64)
        ensures
            ({
                let unchanged = seq_views(old(self).components@) == seq_views(scan.components@)
                    && seq_views(old(self).systems@) == seq_views(scan.systems@) && seq_views(
                    old(self).entity_scripts@,
                ) == seq_views(scan.entity_scripts@) && old(self).fingerprint == fingerprint;
                if unchanged {
                    *final(self) == *old(self)
                } else {
                    &&& final(self).components == scan.components
                    &&& final(self).systems == scan.systems
                    &&& final(self).entity_scripts == scan.entity_scripts
                    &&& final(self).fingerprint == fingerprint
                    &&& final(self).revision == (if old(self).revision == u64::MAX {
                        0
                    } else {
                        (old(self).revision + 1) as u64
                    })
                }
            }),
    {
        let unchanged = same_list(&self.components, &scan.components) && same_list(
            &self.systems,
            &scan.systems,
        ) && same_list(&self.entity_scripts, &scan.entity_scripts) && self.fingerprint
            == fingerprint;
        if !unchanged {
            self.components = scan.components;
            self.systems = scan.systems;
            self.entity_scripts = scan.entity_scripts;
            self.fingerprint = fingerprint;
            self.revision = self.revision.wrapping_add(1);
        }
    }
}

} // verus!
