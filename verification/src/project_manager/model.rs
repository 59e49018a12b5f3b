//! Recent-project records and project naming rules.

use vstd::prelude::*;

use crate::text::{
    TrimSet, ascii_alphanumeric_char, ascii_digit_char, ascii_lower, ascii_lower_char, chars_from,
    chars_of, control_char, decimal, flat_map_chars, has_prefix, hex_lower, hex_upper_digit,
    is_ascii_alphanumeric, is_ascii_digit, is_control, lemma_flat_map_step, owned, push_char,
    push_chars, push_decimal, push_hex4_upper, push_hex_lower, push_str, replace_char,
    replace_char_exec, starts_with, string_of, trim, trim_chars, trimmed, signed_decimal,
    push_signed_decimal, string_views, replace_exec, replace_text,
};
use crate::toml_doc::{
    TomlNode, entry, item_at, item_get, item_is_table, item_is_table_array, item_node, lookup_integer, lookup_str, node_integer,
    node_is_table, node_str, parse_toml, toml_parse,
};
use crate::project_settings::{eq_ignore_ascii_case, eq_ignore_ascii_case_exec, file_exists};
use crate::path_ops::{
    climbs_out, has_parent_part, path_is_absolute, path_join, path_parts,
    spec_path_is_absolute, spec_path_join, spec_path_parts,
};
use toml_edit::Item;

verus! {

/// The project manifest format this editor understands.
pub const SUPPORTED_FORMAT_VERSION: i64 = 1;

// ---------------------------------------------------------------------
// Folder and package names.
// ---------------------------------------------------------------------

/// Characters that Windows forbids in a folder name.
pub open spec fn forbidden_in_folder(c: char) -> bool {
    c == '<' || c == '>' || c == ':' || c == '"' || c == '/' || c == '\\' || c == '|' || c
        == '?' || c == '*'
}

pub open spec fn folder_char(c: char) -> char {
    if forbidden_in_folder(c) || is_control(c) {
        '_'
    } else {
        c
    }
}

/// A folder name derived from a project name: forbidden and control
/// characters become `_`, and spaces and dots are trimmed from both ends.
pub open spec fn spec_project_folder_name(name: Seq<char>) -> Seq<char> {
    trimmed(name.map_values(|c: char| folder_char(c)), TrimSet::SpaceOrDot)
}

/// A folder name holds no forbidden or control character, neither starts
/// nor ends with a space or a dot, is no longer than the project name, and
/// is its own folder name.
pub proof fn lemma_project_folder_name_rules(name: Seq<char>)
    ensures
        ({
            let r = spec_project_folder_name(name);
            &&& forall|k: int|
                0 <= k < r.len() ==> !forbidden_in_folder(#[trigger] r[k]) && !is_control(r[k])
            &&& r.len() > 0 ==> r[0] != ' ' && r[0] != '.' && r.last() != ' ' && r.last() != '.'
            &&& r.len() <= name.len()
            &&& spec_project_folder_name(r) == r
        }),
{
    let m = name.map_values(|c: char| folder_char(c));
    let r = spec_project_folder_name(name);
    crate::text::lemma_trimmed_within(m, TrimSet::SpaceOrDot);
    crate::text::lemma_trimmed_ends(m, TrimSet::SpaceOrDot);
    assert forall|k: int| 0 <= k < r.len() implies !forbidden_in_folder(#[trigger] r[k]) && !is_control(r[k]) by {
        let j = crate::text::leading(m, TrimSet::SpaceOrDot) + k;
        assert(r[k] == m[j]);
        assert(m[j] == folder_char(name[j]));
    }
    let mr = r.map_values(|c: char| folder_char(c));
    assert(mr =~= r);
    if r.len() > 0 {
        crate::text::lemma_trimmed_fixed(r, TrimSet::SpaceOrDot);
    } else {
        assert(trimmed(r, TrimSet::SpaceOrDot) =~= r);
    }
}

pub fn project_folder_name(name: &str) -> (r: String)
    ensures
        r@ == spec_project_folder_name(name@),
{
    let v = chars_of(name);
    let mut mapped: Vec<char> = Vec::new();
    let mut i: usize = 0;
    while i < v.len()
        invariant
            i <= v.len(),
            mapped@ == v@.take(i as int).map_values(|c: char| folder_char(c)),
        decreases v.len() - i,
    {
        let c = v[i];
        let forbidden = c == '<' || c == '>' || c == ':' || c == '"' || c == '/' || c == '\\'
            || c == '|' || c == '?' || c == '*';
        if forbidden || control_char(c) {
            mapped.push('_');
        } else {
            mapped.push(c);
        }
        assert(v@.take(i + 1).map_values(|c: char| folder_char(c)) =~= v@.take(
            i as int,
        ).map_values(|c: char| folder_char(c)).push(folder_char(c)));
        i = i + 1;
    }
    assert(v@.take(v.len() as int) =~= v@);
    let t = trim_chars(&mapped, TrimSet::SpaceOrDot);
    string_of(&t)
}

pub open spec fn package_char(c: char) -> char {
    if is_ascii_alphanumeric(c) || c == '_' || c == '-' {
        ascii_lower(c)
    } else {
        '_'
    }
}

/// A Cargo package name derived from a project name: ASCII letters and
/// digits are lower-cased, `_` and `-` are kept, everything else becomes
/// `_`; `_` and `-` are trimmed from both ends; an empty result becomes
/// `revy_game`, and a leading digit gets the prefix `game_`.
pub open spec fn spec_rust_package_name(name: Seq<char>) -> Seq<char> {
    let base = trimmed(name.map_values(|c: char| package_char(c)), TrimSet::UnderscoreOrDash);
    let named = if base.len() == 0 {
        "revy_game"@
    } else {
        base
    };
    if is_ascii_digit(named[0]) {
        "game_"@ + named
    } else {
        named
    }
}

pub fn rust_package_name(name: &str) -> (r: String)
    ensures
        r@ == spec_rust_package_name(name@),
{
    let v = chars_of(name);
    let mut mapped: Vec<char> = Vec::new();
    let mut i: usize = 0;
    while i < v.len()
        invariant
            i <= v.len(),
            mapped@ == v@.take(i as int).map_values(|c: char| package_char(c)),
        decreases v.len() - i,
    {
        let c = v[i];
        if ascii_alphanumeric_char(c) || c == '_' || c == '-' {
            mapped.push(ascii_lower_char(c));
        } else {
            mapped.push('_');
        }
        assert(v@.take(i + 1).map_values(|c: char| package_char(c)) =~= v@.take(
            i as int,
        ).map_values(|c: char| package_char(c)).push(package_char(c)));
        i = i + 1;
    }
    assert(v@.take(v.len() as int) =~= v@);
    let base = trim_chars(&mapped, TrimSet::UnderscoreOrDash);
    let named = if base.len() == 0 {
        chars_of("revy_game")
    } else {
        base
    };
    proof {
        reveal_strlit("revy_game");
    }
    if ascii_digit_char(named[0]) {
        let mut r = owned("game_");
        push_chars(&mut r, &named);
        r
    } else {
        string_of(&named)
    }
}


// ---------------------------------------------------------------------
// Escaping text for TOML and Rust string literals.
// ---------------------------------------------------------------------

/// How one character is written inside a TOML basic string.
pub open spec fn toml_escape_char(c: char) -> Seq<char> {
    if c == '\\' {
        seq!['\\', '\\']
    } else if c == '"' {
        seq!['\\', '"']
    } else if c == '\n' {
        seq!['\\', 'n']
    } else if c == '\r' {
        seq!['\\', 'r']
    } else if c == '\t' {
        seq!['\\', 't']
    } else if c == '\u{08}' {
        seq!['\\', 'b']
    } else if c == '\u{0c}' {
        seq!['\\', 'f']
    } else if is_control(c) {
        seq![
            '\\',
            'u',
            hex_upper_digit((((c as u32) / 4096) % 16) as nat),
            hex_upper_digit((((c as u32) / 256) % 16) as nat),
            hex_upper_digit((((c as u32) / 16) % 16) as nat),
            hex_upper_digit(((c as u32) % 16) as nat),
        ]
    } else {
        seq![c]
    }
}

pub open spec fn spec_escape_toml_string(value: Seq<char>) -> Seq<char> {
    flat_map_chars(value, |c: char| toml_escape_char(c))
}

proof fn lemma_hex_digit_printable(d: nat)
    requires
        d < 16,
    ensures
        !is_control(hex_upper_digit(d)),
{
}

proof fn lemma_escape_char_printable(c: char)
    ensures
        forall|k: int| 0 <= k < toml_escape_char(c).len() ==> !is_control(#[trigger] toml_escape_char(c)[k]),
{
    if !(c == '\\' || c == '"' || c == '\n' || c == '\r' || c == '\t' || c == '\u{08}' || c == '\u{0c}')
        && is_control(c) {
        lemma_hex_digit_printable((((c as u32) / 4096) % 16) as nat);
        lemma_hex_digit_printable((((c as u32) / 256) % 16) as nat);
        lemma_hex_digit_printable((((c as u32) / 16) % 16) as nat);
        lemma_hex_digit_printable(((c as u32) % 16) as nat);
    }
}

/// Escaping for a TOML string leaves no raw control character: each one
/// is written as an escape sequence.
pub proof fn lemma_escape_toml_leaves_no_control(value: Seq<char>)
    ensures
        forall|k: int|
            0 <= k < spec_escape_toml_string(value).len() ==> !is_control(
                #[trigger] spec_escape_toml_string(value)[k],
            ),
    decreases value.len(),
{
    if value.len() > 0 {
        let t = value.drop_last();
        lemma_escape_toml_leaves_no_control(t);
        lemma_escape_char_printable(value.last());
        let before = spec_escape_toml_string(t);
        let tail = toml_escape_char(value.last());
        let e = spec_escape_toml_string(value);
        assert(e == before + tail);
        assert forall|k: int| 0 <= k < e.len() implies !is_control(#[trigger] e[k]) by {
            if k < before.len() {
                assert(e[k] == before[k]);
            } else {
                assert(e[k] == tail[k - before.len()]);
            }
        }
    }
}

/// Escapes `value` for use inside a double-quoted TOML string.
pub fn escape_toml_string(value: &str) -> (r: String)
    ensures
        r@ == spec_escape_toml_string(value@),
{
    let v = chars_of(value);
    let mut out = String::new();
    let mut i: usize = 0;
    while i < v.len()
        invariant
            i <= v.len(),
            out@ == flat_map_chars(v@.take(i as int), |c: char| toml_escape_char(c)),
        decreases v.len() - i,
    {
        let c = v[i];
        proof {
            lemma_flat_map_step(v@, |c: char| toml_escape_char(c), i as int);
        }
        if c == '\\' {
            push_char(&mut out, '\\');
            push_char(&mut out, '\\');
        } else if c == '"' {
            push_char(&mut out, '\\');
            push_char(&mut out, '"');
        } else if c == '\n' {
            push_char(&mut out, '\\');
            push_char(&mut out, 'n');
        } else if c == '\r' {
            push_char(&mut out, '\\');
            push_char(&mut out, 'r');
        } else if c == '\t' {
            push_char(&mut out, '\\');
            push_char(&mut out, 't');
        } else if c == '\u{08}' {
            push_char(&mut out, '\\');
            push_char(&mut out, 'b');
        } else if c == '\u{0c}' {
            push_char(&mut out, '\\');
            push_char(&mut out, 'f');
        } else if control_char(c) {
            push_char(&mut out, '\\');
            push_char(&mut out, 'u');
            push_hex4_upper(&mut out, c as u32);
        } else {
            push_char(&mut out, c);
        }
        assert(out@ == flat_map_chars(v@.take(i as int), |c: char| toml_escape_char(c))
            + toml_escape_char(c));
        i = i + 1;
    }
    assert(v@.take(v.len() as int) =~= v@);
    out
}

/// How `char::escape_default` writes one character.
pub open spec fn rust_escape_char(c: char) -> Seq<char> {
    if c == '\t' {
        seq!['\\', 't']
    } else if c == '\r' {
        seq!['\\', 'r']
    } else if c == '\n' {
        seq!['\\', 'n']
    } else if c == '\'' {
        seq!['\\', '\'']
    } else if c == '"' {
        seq!['\\', '"']
    } else if c == '\\' {
        seq!['\\', '\\']
    } else if 0x20 <= (c as u32) && (c as u32) <= 0x7e {
        seq![c]
    } else {
        seq!['\\', 'u', '{'] + hex_lower(c as u32 as nat) + seq!['}']
    }
}

pub open spec fn spec_escape_rust_string(value: Seq<char>) -> Seq<char> {
    flat_map_chars(value, |c: char| rust_escape_char(c))
}

/// Escapes `value` for use inside a double-quoted Rust string literal,
/// character by character as `char::escape_default` does.
pub fn escape_rust_string(value: &str) -> (r: String)
    ensures
        r@ == spec_escape_rust_string(value@),
{
    let v = chars_of(value);
    let mut out = String::new();
    let mut i: usize = 0;
    while i < v.len()
        invariant
            i <= v.len(),
            out@ == flat_map_chars(v@.take(i as int), |c: char| rust_escape_char(c)),
        decreases v.len() - i,
    {
        let c = v[i];
        proof {
            lemma_flat_map_step(v@, |c: char| rust_escape_char(c), i as int);
        }
        let u = c as u32;
        if c == '\t' {
            push_char(&mut out, '\\');
            push_char(&mut out, 't');
        } else if c == '\r' {
            push_char(&mut out, '\\');
            push_char(&mut out, 'r');
        } else if c == '\n' {
            push_char(&mut out, '\\');
            push_char(&mut out, 'n');
        } else if c == '\'' {
            push_char(&mut out, '\\');
            push_char(&mut out, '\'');
        } else if c == '"' {
            push_char(&mut out, '\\');
            push_char(&mut out, '"');
        } else if c == '\\' {
            push_char(&mut out, '\\');
            push_char(&mut out, '\\');
        } else if 0x20 <= u && u <= 0x7e {
            push_char(&mut out, c);
        } else {
            push_char(&mut out, '\\');
            push_char(&mut out, 'u');
            push_char(&mut out, '{');
            push_hex_lower(&mut out, u);
            push_char(&mut out, '}');
        }
        assert(out@ == flat_map_chars(v@.take(i as int), |c: char| rust_escape_char(c))
            + rust_escape_char(c));
        i = i + 1;
    }
    assert(v@.take(v.len() as int) =~= v@);
    out
}

// ---------------------------------------------------------------------
// Path text.
// ---------------------------------------------------------------------

/// A path as text with `/` separators and without a Windows verbatim
/// prefix: `\\?\UNC\server\share` becomes `//server/share`, and
/// `\\?\E:\dir` becomes `E:/dir`.
pub open spec fn spec_path_string(path: Seq<char>) -> Seq<char> {
    let normalized = replace_char(path, '\\', '/');
    if has_prefix(normalized, "//?/UNC/"@) {
        "//"@ + normalized.skip(8)
    } else if has_prefix(normalized, "//?/"@) {
        normalized.skip(4)
    } else {
        normalized
    }
}

pub fn path_string(path: &str) -> (r: String)
    ensures
        r@ == spec_path_string(path@),
{
    let v = chars_of(path);
    let normalized = replace_char_exec(&v, '\\', '/');
    let unc = chars_of("//?/UNC/");
    let verbatim = chars_of("//?/");
    proof {
        reveal_strlit("//?/UNC/");
        reveal_strlit("//?/");
    }
    if starts_with(&normalized, &unc) {
        let mut r = owned("//");
        let rest = chars_from(&normalized, 8);
        push_chars(&mut r, &rest);
        r
    } else if starts_with(&normalized, &verbatim) {
        let rest = chars_from(&normalized, 4);
        string_of(&rest)
    } else {
        string_of(&normalized)
    }
}

/// A path made absolute against `current_dir` (which the caller reads from
/// the environment, falling back to `.`).
pub open spec fn absolute_path(path: Seq<char>, current_dir: Seq<char>) -> Seq<char> {
    if spec_path_is_absolute(path) {
        path
    } else {
        spec_path_join(current_dir, path)
    }
}

/// Where a new project named `name` would be created under `parent`.
pub open spec fn spec_create_target_path(
    name: Seq<char>,
    parent: Seq<char>,
    current_dir: Seq<char>,
) -> Seq<char> {
    absolute_path(
        spec_path_join(parent, spec_project_folder_name(trimmed(name, TrimSet::Whitespace))),
        current_dir,
    )
}

pub fn create_target_path(name: &str, parent: &str, current_dir: &str) -> (r: String)
    ensures
        r@ == spec_create_target_path(name@, parent@, current_dir@),
{
    let trimmed_name = trim(name);
    let folder = project_folder_name(trimmed_name.as_str());
    let joined = path_join(parent, folder.as_str());
    if path_is_absolute(joined.as_str()) {
        joined
    } else {
        path_join(current_dir, joined.as_str())
    }
}

/// What the file system shows at a folder that is about to be created.
#[derive(Clone, Debug, PartialEq, Eq)]
pub enum TargetState {
    /// Nothing exists at the path.
    Missing,
    /// Something other than a folder exists at the path.
    NotAFolder,
    /// The folder exists but its entries could not be listed (with the reason).
    Unreadable(String),
    /// The folder exists and holds no entries.
    Empty,
    /// The folder exists and holds at least one entry.
    NotEmpty,
}

/// The outcome of checking that a creation target is absent or empty.
pub open spec fn spec_ensure_empty_target(target: Seq<char>, state: TargetState) -> Result<
    (),
    Seq<char>,
> {
    match state {
        TargetState::Missing => Ok(()),
        TargetState::NotAFolder => Err("The target path is not a folder"@),
        TargetState::Unreadable(reason) => Err("Cannot inspect target folder: "@ + reason@),
        TargetState::Empty => Ok(()),
        TargetState::NotEmpty => Err("Target folder is not empty: "@ + target),
    }
}

pub open spec fn result_view<T>(r: Result<T, String>) -> Result<T, Seq<char>> {
    match r {
        Ok(v) => Ok(v),
        Err(e) => Err(e@),
    }
}

pub open spec fn string_result_view(r: Result<String, String>) -> Result<Seq<char>, Seq<char>> {
    match r {
        Ok(v) => Ok(v@),
        Err(e) => Err(e@),
    }
}

pub fn ensure_empty_target(target: &str, state: &TargetState) -> (r: Result<(), String>)
    ensures
        result_view(r) == spec_ensure_empty_target(target@, *state),
{
    match state {
        TargetState::Missing => Ok(()),
        TargetState::NotAFolder => Err(owned("The target path is not a folder")),
        TargetState::Unreadable(reason) => {
            let mut e = owned("Cannot inspect target folder: ");
            push_str(&mut e, reason.as_str());
            Err(e)
        },
        TargetState::Empty => Ok(()),
        TargetState::NotEmpty => {
            let mut e = owned("Target folder is not empty: ");
            push_str(&mut e, target);
            Err(e)
        },
    }
}

/// The outcome of checking the New Project dialog.
pub open spec fn spec_create_validation(
    name: Seq<char>,
    parent: Seq<char>,
    current_dir: Seq<char>,
    state: TargetState,
) -> Result<Seq<char>, Seq<char>> {
    let target = spec_create_target_path(name, parent, current_dir);
    if trimmed(name, TrimSet::Whitespace).len() == 0 {
        Err("Enter a project name"@)
    } else if parent.len() == 0 {
        Err("Choose a location"@)
    } else {
        match spec_ensure_empty_target(target, state) {
            Ok(_) => Ok(target),
            Err(e) => Err(e),
        }
    }
}

/// Checks the New Project dialog: a name, a location, and a target folder
/// that is absent or empty (`state` is what the file system shows at the
/// target that `create_target_path` names).
pub fn create_validation(
    name: &str,
    parent: &str,
    current_dir: &str,
    state: &TargetState,
) -> (r: Result<String, String>)
    ensures
        string_result_view(r) == spec_create_validation(name@, parent@, current_dir@, *state),
{
    let trimmed_name = trim(name);
    if trimmed_name.unicode_len() == 0 {
        return Err(owned("Enter a project name"));
    }
    if parent.unicode_len() == 0 {
        return Err(owned("Choose a location"));
    }
    let target = create_target_path(name, parent, current_dir);
    match ensure_empty_target(target.as_str(), state) {
        Ok(()) => Ok(target),
        Err(e) => Err(e),
    }
}

// ---------------------------------------------------------------------
// Creating a project from the template.
// ---------------------------------------------------------------------

/// The folder a new project goes to, checked before anything is written:
/// the trimmed name must be non-empty and give a non-empty folder name, and
/// the target must be absent or an empty folder (`state`).
pub open spec fn spec_creation_target(
    name: Seq<char>,
    parent: Seq<char>,
    current_dir: Seq<char>,
    state: TargetState,
) -> Result<Seq<char>, Seq<char>> {
    let trimmed_name = trimmed(name, TrimSet::Whitespace);
    if trimmed_name.len() == 0 {
        Err("Project name cannot be empty"@)
    } else if spec_project_folder_name(trimmed_name).len() == 0 {
        Err("Project name does not contain a valid folder name"@)
    } else {
        let target = spec_create_target_path(name, parent, current_dir);
        match spec_ensure_empty_target(target, state) {
            Ok(_) => Ok(target),
            Err(e) => Err(e),
        }
    }
}

pub fn creation_target(name: &str, parent: &str, current_dir: &str, state: &TargetState) -> (r: Result<
    String,
    String,
>)
    ensures
        string_result_view(r) == spec_creation_target(name@, parent@, current_dir@, *state),
{
    let trimmed_name = trim(name);
    if trimmed_name.unicode_len() == 0 {
        return Err(owned("Project name cannot be empty"));
    }
    let folder = project_folder_name(trimmed_name.as_str());
    if folder.unicode_len() == 0 {
        return Err(owned("Project name does not contain a valid folder name"));
    }
    let target = create_target_path(name, parent, current_dir);
    match ensure_empty_target(target.as_str(), state) {
        Ok(()) => Ok(target),
        Err(e) => Err(e),
    }
}

/// What the template's placeholders become for a project named `name`
/// (trimmed), with the engine and the bundled packages at the given paths.
pub struct TemplateValues {
    /// `{{PACKAGE_NAME}}` in `Cargo.toml`.
    pub package_name: String,
    /// `{{PROJECT_NAME}}` in `project.toml`.
    pub project_name_toml: String,
    /// `{{PROJECT_NAME}}` in `src/main.rs`.
    pub project_name_rust: String,
    /// `{{ENGINE_PATH}}` in `Cargo.toml`.
    pub engine_path_toml: String,
    /// `{{CARGO_VENDOR_PATH}}` in `.cargo/config.toml`.
    pub vendor_path_toml: String,
}

pub fn template_values(name: &str, engine_root: &str, vendor_root: &str) -> (r: TemplateValues)
    ensures
        r.package_name@ == spec_rust_package_name(trimmed(name@, TrimSet::Whitespace)),
        r.project_name_toml@ == spec_escape_toml_string(trimmed(name@, TrimSet::Whitespace)),
        r.project_name_rust@ == spec_escape_rust_string(trimmed(name@, TrimSet::Whitespace)),
        r.engine_path_toml@ == spec_escape_toml_string(spec_path_string(engine_root@)),
        r.vendor_path_toml@ == spec_escape_toml_string(spec_path_string(vendor_root@)),
{
    let trimmed_name = trim(name);
    let engine = path_string(engine_root);
    let vendor = path_string(vendor_root);
    TemplateValues {
        package_name: rust_package_name(trimmed_name.as_str()),
        project_name_toml: escape_toml_string(trimmed_name.as_str()),
        project_name_rust: escape_rust_string(trimmed_name.as_str()),
        engine_path_toml: escape_toml_string(engine.as_str()),
        vendor_path_toml: escape_toml_string(vendor.as_str()),
    }
}

/// A template's text with each placeholder replaced in turn (`str::replace`
/// for each pair, in order).
pub open spec fn filled_template(source: Seq<char>, pairs: Seq<(Seq<char>, Seq<char>)>) -> Seq<char>
    decreases pairs.len(),
{
    if pairs.len() == 0 {
        source
    } else {
        replace_text(filled_template(source, pairs.drop_last()), pairs.last().0, pairs.last().1)
    }
}

pub open spec fn pair_texts(v: Seq<(String, String)>) -> Seq<(Seq<char>, Seq<char>)> {
    v.map_values(|p: (String, String)| (p.0@, p.1@))
}

/// Fills a template (see `filled_template`); every placeholder is
/// non-empty.
pub fn fill_template(source: &str, pairs: &Vec<(String, String)>) -> (r: String)
    requires
        forall|i: int| 0 <= i < pairs.len() ==> (#[trigger] pairs@[i]).0@.len() > 0,
    ensures
        r@ == filled_template(source@, pair_texts(pairs@)),
{
    let mut text = chars_of(source);
    let mut i: usize = 0;
    while i < pairs.len()
        invariant
            i <= pairs.len(),
            forall|k: int| 0 <= k < pairs.len() ==> (#[trigger] pairs@[k]).0@.len() > 0,
            text@ == filled_template(source@, pair_texts(pairs@).take(i as int)),
        decreases pairs.len() - i,
    {
        assert(pair_texts(pairs@).take(i + 1).drop_last() =~= pair_texts(pairs@).take(i as int));
        assert(pair_texts(pairs@).take(i + 1).last() == (pairs@[i as int].0@, pairs@[i as int].1@));
        let from = chars_of(pairs[i].0.as_str());
        let to = chars_of(pairs[i].1.as_str());
        assert(pairs@[i as int].0@.len() > 0);
        text = replace_exec(&text, &from, &to);
        i = i + 1;
    }
    assert(pair_texts(pairs@).take(pairs.len() as int) =~= pair_texts(pairs@));
    string_of(&text)
}

// ---------------------------------------------------------------------
// Time.
// ---------------------------------------------------------------------

/// Seconds since the Unix epoch by the system clock, or 0 when the clock
/// reads earlier than the epoch (`SystemTime::now` and
/// `SystemTime::duration_since`). Trusted; nothing is stated of the value.
#[verifier::external_body]
pub fn now_epoch_seconds() -> u64 {
    std::time::SystemTime::now().duration_since(std::time::UNIX_EPOCH).map(|d| d.as_secs()).unwrap_or(0)
}

/// How long ago `timestamp` was, as the project list shows it at time `now`.
pub open spec fn spec_relative_time(timestamp: u64, now: u64) -> Seq<char> {
    let elapsed: nat = if now >= timestamp {
        (now - timestamp) as nat
    } else {
        0
    };
    if timestamp == 0 {
        "Never opened"@
    } else if elapsed < 60 {
        "Just now"@
    } else if elapsed < 3_600 {
        decimal(elapsed / 60) + " min ago"@
    } else if elapsed < 86_400 {
        decimal(elapsed / 3_600) + " hr ago"@
    } else if elapsed < 2_592_000 {
        decimal(elapsed / 86_400) + " days ago"@
    } else if elapsed < 31_536_000 {
        decimal(elapsed / 2_592_000) + " months ago"@
    } else {
        decimal(elapsed / 31_536_000) + " years ago"@
    }
}

pub fn relative_time_at(timestamp: u64, now: u64) -> (r: String)
    ensures
        r@ == spec_relative_time(timestamp, now),
{
    if timestamp == 0 {
        return owned("Never opened");
    }
    let elapsed = now.saturating_sub(timestamp);
    if elapsed < 60 {
        owned("Just now")
    } else if elapsed < 3_600 {
        let mut r = String::new();
        push_decimal(&mut r, elapsed / 60);
        push_str(&mut r, " min ago");
        r
    } else if elapsed < 86_400 {
        let mut r = String::new();
        push_decimal(&mut r, elapsed / 3_600);
        push_str(&mut r, " hr ago");
        r
    } else if elapsed < 2_592_000 {
        let mut r = String::new();
        push_decimal(&mut r, elapsed / 86_400);
        push_str(&mut r, " days ago");
        r
    } else if elapsed < 31_536_000 {
        let mut r = String::new();
        push_decimal(&mut r, elapsed / 2_592_000);
        push_str(&mut r, " months ago");
        r
    } else {
        let mut r = String::new();
        push_decimal(&mut r, elapsed / 31_536_000);
        push_str(&mut r, " years ago");
        r
    }
}

/// How long ago `timestamp` was, measured against the system clock.
pub fn relative_time(timestamp: u64) -> (r: String)
    ensures
        exists|now: u64| r@ == spec_relative_time(timestamp, now),
{
    let now = now_epoch_seconds();
    relative_time_at(timestamp, now)
}

// ---------------------------------------------------------------------
// Where the recent-project list is kept.
// ---------------------------------------------------------------------

/// The file that holds the recent-project list.
pub open spec fn spec_config_path(
    workspace_root: Seq<char>,
    executable_directory: Seq<char>,
    debug_build: bool,
) -> Seq<char> {
    if debug_build {
        spec_path_join(spec_path_join(workspace_root, "target/editor-data/Revy"@), "project_manager.toml"@)
    } else {
        spec_path_join(spec_path_join(executable_directory, "data/Revy"@), "project_manager.toml"@)
    }
}

/// Debug builds keep the list beside the workspace, release builds beside
/// the executable; the caller supplies both directories and the build kind.
pub fn config_path(workspace_root: &str, executable_directory: &str, debug_build: bool) -> (r:
    String)
    ensures
        r@ == spec_config_path(workspace_root@, executable_directory@, debug_build),
{
    if debug_build {
        let dir = path_join(workspace_root, "target/editor-data/Revy");
        path_join(dir.as_str(), "project_manager.toml")
    } else {
        let dir = path_join(executable_directory, "data/Revy");
        path_join(dir.as_str(), "project_manager.toml")
    }
}


// ---------------------------------------------------------------------
// Project records.
// ---------------------------------------------------------------------

pub open spec fn opt_view(o: Option<String>) -> Option<Seq<char>> {
    match o {
        Some(s) => Some(s@),
        None => None,
    }
}

pub fn clone_opt_string(o: &Option<String>) -> (r: Option<String>)
    ensures
        opt_view(r) == opt_view(*o),
{
    match o {
        Some(s) => Some(s.clone()),
        None => None,
    }
}

/// What a valid project manifest says about a project.
#[derive(Clone, Debug, PartialEq, Eq)]
pub struct ProjectMetadata {
    pub name: String,
    pub format_version: i64,
    /// The project's icon file, when one exists inside the project.
    pub icon: Option<String>,
}

pub struct ProjectMetadataView {
    pub name: Seq<char>,
    pub format_version: i64,
    pub icon: Option<Seq<char>>,
}

impl View for ProjectMetadata {
    type V = ProjectMetadataView;

    open spec fn view(&self) -> ProjectMetadataView {
        ProjectMetadataView {
            name: self.name@,
            format_version: self.format_version,
            icon: opt_view(self.icon),
        }
    }
}

pub open spec fn metadata_result_view(r: Result<ProjectMetadata, String>) -> Result<
    ProjectMetadataView,
    Seq<char>,
> {
    match r {
        Ok(m) => Ok(m@),
        Err(e) => Err(e@),
    }
}

// ---------------------------------------------------------------------
// Project validation.
// ---------------------------------------------------------------------

/// What `project.toml` says of a project: its trimmed name, its format
/// version and the icon it names (as written, relative to the project).
#[derive(Debug)]
pub struct ManifestInfo {
    pub name: String,
    pub format_version: i64,
    pub icon: Option<String>,
}

pub struct ManifestInfoView {
    pub name: Seq<char>,
    pub format_version: i64,
    pub icon: Option<Seq<char>>,
}

impl View for ManifestInfo {
    type V = ManifestInfoView;

    open spec fn view(&self) -> ManifestInfoView {
        ManifestInfoView { name: self.name@, format_version: self.format_version, icon: opt_view(self.icon) }
    }
}

pub open spec fn manifest_result_view(r: Result<ManifestInfo, String>) -> Result<ManifestInfoView, Seq<char>> {
    match r {
        Ok(m) => Ok(m@),
        Err(e) => Err(e@),
    }
}

pub open spec fn name_error() -> Seq<char> {
    "project.name must be a non-empty string"@
}

/// The `[project]` table of a parsed `project.toml`, checked.
pub open spec fn spec_project_table(project: TomlNode) -> Result<ManifestInfoView, Seq<char>> {
    match node_str(entry(project, "name"@)) {
        None => Err(name_error()),
        Some(n) => if trimmed(n, TrimSet::Whitespace).len() == 0 {
            Err(name_error())
        } else {
            match node_integer(entry(project, "format_version"@)) {
                None => Err("project.format_version must be an integer"@),
                Some(v) => if v != SUPPORTED_FORMAT_VERSION {
                    Err(
                        "Unsupported project format "@ + signed_decimal(v as int) + "; expected "@
                            + signed_decimal(SUPPORTED_FORMAT_VERSION as int),
                    )
                } else {
                    Ok(
                        ManifestInfoView {
                            name: trimmed(n, TrimSet::Whitespace),
                            format_version: v,
                            icon: node_str(entry(project, "icon"@)),
                        },
                    )
                },
            }
        },
    }
}

/// `project.toml` as read from disk (or the read error), checked: it must
/// parse, hold a `[project]` table with a non-empty `name` and the
/// supported integer `format_version`.
pub open spec fn spec_check_project_manifest(read: Result<Seq<char>, Seq<char>>) -> Result<
    ManifestInfoView,
    Seq<char>,
> {
    match read {
        Err(e) => Err("Cannot read project.toml: "@ + e),
        Ok(source) => match toml_parse(source) {
            Err(e) => Err("Invalid project.toml: "@ + e),
            Ok(document) => match entry(document, "project"@) {
                Some(project) => if node_is_table(Some(project)) {
                    spec_project_table(project)
                } else {
                    Err("project.toml is missing [project]"@)
                },
                None => Err("project.toml is missing [project]"@),
            },
        },
    }
}

/// `Cargo.toml` (or the read error), checked: it must parse and depend on
/// `revy_engine` (or the legacy `arisna_engine`).
pub open spec fn spec_check_cargo_manifest(read: Result<Seq<char>, Seq<char>>) -> Option<Seq<char>> {
    match read {
        Err(e) => Some("Cannot read Cargo.toml: "@ + e),
        Ok(source) => match toml_parse(source) {
            Err(e) => Some("Invalid Cargo.toml: "@ + e),
            Ok(document) => match entry(document, "dependencies"@) {
                Some(deps) => if node_is_table(Some(deps)) && (entry(deps, "revy_engine"@) is Some
                    || entry(deps, "arisna_engine"@) is Some) {
                    None
                } else {
                    Some(missing_engine_error())
                },
                None => Some(missing_engine_error()),
            },
        },
    }
}

pub open spec fn missing_engine_error() -> Seq<char> {
    "Cargo.toml is missing the revy_engine dependency (legacy arisna_engine is also accepted)"@
}

/// Both manifests checked, `project.toml` first.
pub open spec fn spec_check_manifests(
    manifest: Result<Seq<char>, Seq<char>>,
    cargo: Result<Seq<char>, Seq<char>>,
) -> Result<ManifestInfoView, Seq<char>> {
    match spec_check_project_manifest(manifest) {
        Err(e) => Err(e),
        Ok(info) => match spec_check_cargo_manifest(cargo) {
            Some(e) => Err(e),
            None => Ok(info),
        },
    }
}

fn prefixed(prefix: &str, message: String) -> (r: String)
    ensures
        r@ == prefix@ + message@,
{
    let mut s = owned(prefix);
    push_str(&mut s, message.as_str());
    s
}

fn check_project_table(project: &Item) -> (r: Result<ManifestInfo, String>)
    ensures
        manifest_result_view(r) == spec_project_table(item_node(*project)),
{
    let name = match lookup_str(project, "name") {
        Some(n) => n,
        None => {
            return Err(owned("project.name must be a non-empty string"));
        },
    };
    let name = trim(name.as_str());
    if name.unicode_len() == 0 {
        return Err(owned("project.name must be a non-empty string"));
    }
    let format_version = match lookup_integer(project, "format_version") {
        Some(v) => v,
        None => {
            return Err(owned("project.format_version must be an integer"));
        },
    };
    if format_version != SUPPORTED_FORMAT_VERSION {
        let mut s = owned("Unsupported project format ");
        push_signed_decimal(&mut s, format_version);
        push_str(&mut s, "; expected ");
        push_signed_decimal(&mut s, SUPPORTED_FORMAT_VERSION);
        return Err(s);
    }
    let icon = lookup_str(project, "icon");
    Ok(ManifestInfo { name, format_version, icon })
}

/// Checks `project.toml` as read from disk (see `spec_check_project_manifest`).
pub fn check_project_manifest(read: &Result<String, String>) -> (r: Result<ManifestInfo, String>)
    ensures
        manifest_result_view(r) == spec_check_project_manifest(string_result_view(*read)),
{
    let source = match read {
        Ok(s) => s,
        Err(e) => {
            return Err(prefixed("Cannot read project.toml: ", e.clone()));
        },
    };
    let document = match parse_toml(source.as_str()) {
        Ok(d) => d,
        Err(e) => {
            return Err(prefixed("Invalid project.toml: ", e));
        },
    };
    match item_get(&document, "project") {
        Some(project) => if item_is_table(project) {
            check_project_table(project)
        } else {
            Err(owned("project.toml is missing [project]"))
        },
        None => Err(owned("project.toml is missing [project]")),
    }
}

/// Checks `Cargo.toml` as read from disk: `None` when it names the engine,
/// else the error (see `spec_check_cargo_manifest`).
pub fn check_cargo_manifest(read: &Result<String, String>) -> (r: Option<String>)
    ensures
        opt_view(r) == spec_check_cargo_manifest(string_result_view(*read)),
{
    let source = match read {
        Ok(s) => s,
        Err(e) => {
            return Some(prefixed("Cannot read Cargo.toml: ", e.clone()));
        },
    };
    let document = match parse_toml(source.as_str()) {
        Ok(d) => d,
        Err(e) => {
            return Some(prefixed("Invalid Cargo.toml: ", e));
        },
    };
    let missing = owned(
        "Cargo.toml is missing the revy_engine dependency (legacy arisna_engine is also accepted)",
    );
    match item_get(&document, "dependencies") {
        Some(deps) => if item_is_table(deps) && (item_get(deps, "revy_engine").is_some() || item_get(
            deps,
            "arisna_engine",
        ).is_some()) {
            None
        } else {
            Some(missing)
        },
        None => Some(missing),
    }
}

/// The icon files a project may have, in the order they are tried: the one
/// its manifest names, then `icon.png`, then `assets/icon.png`.
pub open spec fn icon_candidates(configured: Option<Seq<char>>) -> Seq<Seq<char>> {
    let defaults = seq!["icon.png"@, "assets/icon.png"@];
    match configured {
        Some(c) => seq![c] + defaults,
        None => defaults,
    }
}

pub fn icon_candidate_list(configured: &Option<String>) -> (r: Vec<String>)
    ensures
        string_views(r@) == icon_candidates(opt_view(*configured)),
{
    let mut r: Vec<String> = Vec::new();
    match configured {
        Some(c) => r.push(c.clone()),
        None => {},
    }
    r.push(owned("icon.png"));
    r.push(owned("assets/icon.png"));
    proof {
        assert(string_views(r@) =~= icon_candidates(opt_view(*configured)));
    }
    r
}

/// A path that stays inside the project: not absolute and without a `..`
/// component.
pub open spec fn is_safe_relative(relative: Seq<char>) -> bool {
    !spec_path_is_absolute(relative) && !climbs_out(spec_path_parts(relative))
}

pub fn safe_relative(relative: &str) -> (r: bool)
    ensures
        r == is_safe_relative(relative@),
{
    if path_is_absolute(relative) {
        return false;
    }
    let parts = path_parts(relative);
    !has_parent_part(&parts)
}

/// The first candidate that is a safe relative path whose file the disk
/// reported present (`present[k]` for `candidates[k]`), joined to `root`.
pub open spec fn first_icon(root: Seq<char>, candidates: Seq<Seq<char>>, present: Seq<bool>) -> Option<
    Seq<char>,
>
    decreases candidates.len(),
{
    if candidates.len() == 0 || present.len() == 0 {
        None
    } else if is_safe_relative(candidates[0]) && present[0] {
        Some(spec_path_join(root, candidates[0]))
    } else {
        first_icon(root, candidates.drop_first(), present.drop_first())
    }
}

/// Validation of the project folder `root` with the disk's answers: whether
/// it exists, whether it is a folder, the checked manifests, whether
/// `src/main.rs` is a file and which icon candidates are files.
pub open spec fn spec_project_metadata(
    root: Seq<char>,
    exists: bool,
    is_dir: bool,
    checked: Result<ManifestInfoView, Seq<char>>,
    has_main: bool,
    icon_present: Seq<bool>,
) -> Result<ProjectMetadataView, Seq<char>> {
    if !exists {
        Err("Project folder does not exist"@)
    } else if !is_dir {
        Err("Project path is not a folder"@)
    } else {
        match checked {
            Err(e) => Err(e),
            Ok(info) => if !has_main {
                Err("Project is missing src/main.rs"@)
            } else {
                Ok(
                    ProjectMetadataView {
                        name: info.name,
                        format_version: info.format_version,
                        icon: first_icon(root, icon_candidates(info.icon), icon_present),
                    },
                )
            },
        }
    }
}

fn pick_icon(root: &str, candidates: &Vec<String>, present: &Vec<bool>) -> (r: Option<String>)
    ensures
        opt_view(r) == first_icon(root@, string_views(candidates@), present@),
{
    let mut i: usize = 0;
    assert(string_views(candidates@).skip(0) =~= string_views(candidates@));
    assert(present@.skip(0) =~= present@);
    while i < candidates.len() && i < present.len()
        invariant
            i <= candidates.len(),
            i <= present.len(),
            string_views(candidates@).len() == candidates.len(),
            first_icon(root@, string_views(candidates@), present@) == first_icon(
                root@,
                string_views(candidates@).skip(i as int),
                present@.skip(i as int),
            ),
        decreases candidates.len() - i,
    {
        assert(string_views(candidates@).skip(i as int).drop_first() =~= string_views(candidates@).skip(i + 1));
        assert(present@.skip(i as int).drop_first() =~= present@.skip(i + 1));
        assert(string_views(candidates@).skip(i as int)[0] == candidates@[i as int]@);
        if present[i] && safe_relative(candidates[i].as_str()) {
            return Some(path_join(root, candidates[i].as_str()));
        }
        i = i + 1;
    }
    assert(string_views(candidates@).skip(i as int).len() == 0 || present@.skip(i as int).len() == 0);
    None
}

/// The metadata of the project at `root` from the disk's answers (see
/// `spec_project_metadata`).
pub fn project_metadata(
    root: &str,
    exists: bool,
    is_dir: bool,
    checked: Result<ManifestInfo, String>,
    has_main: bool,
    icon_present: &Vec<bool>,
) -> (r: Result<ProjectMetadata, String>)
    ensures
        metadata_result_view(r) == spec_project_metadata(
            root@,
            exists,
            is_dir,
            manifest_result_view(checked),
            has_main,
            icon_present@,
        ),
{
    if !exists {
        return Err(owned("Project folder does not exist"));
    }
    if !is_dir {
        return Err(owned("Project path is not a folder"));
    }
    let info = match checked {
        Ok(info) => info,
        Err(e) => {
            return Err(e);
        },
    };
    if !has_main {
        return Err(owned("Project is missing src/main.rs"));
    }
    let candidates = icon_candidate_list(&info.icon);
    proof {
        assert(string_views(candidates@).skip(0) =~= string_views(candidates@));
        assert(icon_present@.skip(0) =~= icon_present@);
    }
    let icon = pick_icon(root, &candidates, icon_present);
    Ok(ProjectMetadata { name: info.name, format_version: info.format_version, icon })
}

/// The files under `root` that validating a project asks the disk about:
/// `src/main.rs` and each icon candidate, in order.
pub open spec fn spec_project_files(root: Seq<char>, configured_icon: Option<Seq<char>>) -> (
    Seq<char>,
    Seq<Seq<char>>,
) {
    let candidates = icon_candidates(configured_icon);
    (
        spec_path_join(root, "src/main.rs"@),
        Seq::new(candidates.len(), |k: int| spec_path_join(root, candidates[k])),
    )
}

/// The paths validating the project at `root` checks for files: its main
/// source file and its icon candidates (see `spec_project_files`).
pub fn project_files(root: &str, configured_icon: &Option<String>) -> (r: (String, Vec<String>))
    ensures
        r.0@ == spec_project_files(root@, opt_view(*configured_icon)).0,
        string_views(r.1@) == spec_project_files(root@, opt_view(*configured_icon)).1,
{
    let main = path_join(root, "src/main.rs");
    let candidates = icon_candidate_list(configured_icon);
    let ghost want = spec_project_files(root@, opt_view(*configured_icon)).1;
    let mut icons: Vec<String> = Vec::new();
    let mut i: usize = 0;
    while i < candidates.len()
        invariant
            i <= candidates.len(),
            string_views(candidates@) == icon_candidates(opt_view(*configured_icon)),
            want == Seq::new(candidates@.len(), |k: int| spec_path_join(root@, candidates@[k]@)),
            icons.len() == i,
            forall|k: int| 0 <= k < i ==> (#[trigger] icons@[k])@ == want[k],
        decreases candidates.len() - i,
    {
        proof {
            assert(string_views(candidates@)[i as int] == candidates@[i as int]@);
        }
        icons.push(path_join(root, candidates[i].as_str()));
        i = i + 1;
    }
    proof {
        assert(string_views(icons@) =~= want);
    }
    (main, icons)
}

/// Whether anything exists at `path` (std `Path::exists`). Trusted; the
/// answer depends on the disk, so nothing is stated of it.
#[verifier::external_body]
fn path_exists(path: &str) -> bool {
    std::path::Path::new(path).exists()
}

/// Validates the project folder `root`, given what reading its
/// `project.toml` and `Cargo.toml` gave. The disk is asked whether `root`
/// exists and is a folder, and which of the paths `project_files` makes
/// are files; whatever it answers, the result is what
/// `spec_project_metadata` gives for those answers.
pub fn validate_project(root: &str, manifest: Result<String, String>, cargo: Result<String, String>) -> (r: Result<
    ProjectMetadata,
    String,
>)
    ensures
        exists|exists: bool, is_dir: bool, has_main: bool, present: Seq<bool>|
            #![trigger spec_project_metadata(root@, exists, is_dir, spec_check_manifests(string_result_view(manifest), string_result_view(cargo)), has_main, present)]
            metadata_result_view(r) == spec_project_metadata(
                root@,
                exists,
                is_dir,
                spec_check_manifests(string_result_view(manifest), string_result_view(cargo)),
                has_main,
                present,
            ),
{
    let exists = path_exists(root);
    let is_dir = folder_exists(root);
    let checked = match check_project_manifest(&manifest) {
        Ok(info) => match check_cargo_manifest(&cargo) {
            Some(e) => Err(e),
            None => Ok(info),
        },
        Err(e) => Err(e),
    };
    assert(manifest_result_view(checked) == spec_check_manifests(
        string_result_view(manifest),
        string_result_view(cargo),
    ));
    let configured = match &checked {
        Ok(info) => clone_opt_string(&info.icon),
        Err(_) => None,
    };
    let (main_path, icon_paths) = project_files(root, &configured);
    let has_main = file_exists(main_path.as_str());
    let mut present: Vec<bool> = Vec::new();
    let mut i: usize = 0;
    while i < icon_paths.len()
        invariant
            i <= icon_paths.len(),
            present.len() == i,
        decreases icon_paths.len() - i,
    {
        present.push(file_exists(icon_paths[i].as_str()));
        i = i + 1;
    }
    let r = project_metadata(root, exists, is_dir, checked, has_main, &present);
    assert(metadata_result_view(r) == spec_project_metadata(
        root@,
        exists,
        is_dir,
        spec_check_manifests(string_result_view(manifest), string_result_view(cargo)),
        has_main,
        present@,
    ));
    r
}

/// One entry of the recent-project list.
#[derive(Debug)]
pub struct RecentProject {
    pub path: String,
    pub name: String,
    /// Seconds since the Unix epoch when the project was last opened (0: never).
    pub last_opened: u64,
    /// Why the project failed validation, if it did.
    pub validation_error: Option<String>,
    pub icon: Option<String>,
}

pub struct RecentProjectView {
    pub path: Seq<char>,
    pub name: Seq<char>,
    pub last_opened: u64,
    pub validation_error: Option<Seq<char>>,
    pub icon: Option<Seq<char>>,
}

impl View for RecentProject {
    type V = RecentProjectView;

    open spec fn view(&self) -> RecentProjectView {
        RecentProjectView {
            path: self.path@,
            name: self.name@,
            last_opened: self.last_opened,
            validation_error: opt_view(self.validation_error),
            icon: opt_view(self.icon),
        }
    }
}

/// Whether a folder exists at `path` (std `Path::is_dir`). Trusted; the
/// answer depends on the disk, so nothing is stated of it.
#[verifier::external_body]
fn folder_exists(path: &str) -> bool {
    std::path::Path::new(path).is_dir()
}

impl RecentProject {
    /// A copy of this record.
    pub fn duplicate(&self) -> (r: RecentProject)
        ensures
            r@ == self@,
    {
        RecentProject {
            path: self.path.clone(),
            name: self.name.clone(),
            last_opened: self.last_opened,
            validation_error: clone_opt_string(&self.validation_error),
            icon: clone_opt_string(&self.icon),
        }
    }

    /// Whether the project folder is gone from disk (read from the disk at
    /// the time of the call).
    pub fn is_missing(&self) -> bool {
        !folder_exists(self.path.as_str())
    }

    pub fn is_valid(&self) -> (r: bool)
        ensures
            r == (self.validation_error is None),
    {
        self.validation_error.is_none()
    }
}

/// The name `Path::eq` gives two paths; see `paths_match`.
pub uninterp spec fn spec_paths_match(left: Seq<char>, right: Seq<char>) -> bool;

/// `<Path as PartialEq>::eq` on two paths given as text. Trusted: the answer
/// depends on the two texts alone, is symmetric, and is `true` for equal
/// texts. How `Path` compares component lists is not restated here.
#[verifier::external_body]
fn paths_match(left: &str, right: &str) -> (r: bool)
    ensures
        r == spec_paths_match(left@, right@),
        r == spec_paths_match(right@, left@),
        left@ == right@ ==> r,
{
    std::path::Path::new(left) == std::path::Path::new(right)
}

/// Whether two paths name the same project folder. With the Windows rules
/// the two texts are compared, after `path_string`, ignoring ASCII case;
/// otherwise `Path` equality decides.
pub open spec fn spec_same_path(windows: bool, left: Seq<char>, right: Seq<char>) -> bool {
    if windows {
        eq_ignore_ascii_case(spec_path_string(left), spec_path_string(right))
    } else {
        spec_paths_match(left, right)
    }
}

pub fn same_path(windows: bool, left: &str, right: &str) -> (r: bool)
    ensures
        r == spec_same_path(windows, left@, right@),
        r == spec_same_path(windows, right@, left@),
        left@ == right@ ==> r,
{
    if windows {
        let a = chars_of(path_string(left).as_str());
        let b = chars_of(path_string(right).as_str());
        let r = eq_ignore_ascii_case_exec(&a, &b);
        proof {
            assert(eq_ignore_ascii_case(a@, b@) == eq_ignore_ascii_case(b@, a@));
        }
        r
    } else {
        paths_match(left, right)
    }
}

/// The separator std's `Path` uses where the library runs
/// (`std::path::MAIN_SEPARATOR`). Trusted; it depends on the platform the
/// library was built for, so nothing is stated of it.
#[verifier::external_body]
fn main_separator() -> char {
    std::path::MAIN_SEPARATOR
}

/// Whether paths follow the Windows rules where the library runs (its path
/// separator is `\`).
pub fn windows_paths() -> bool {
    main_separator() == '\\'
}

/// The name `str::to_lowercase` gives a text; see `lowercase`.
pub uninterp spec fn spec_lowercase(s: Seq<char>) -> Seq<char>;

/// `str::to_lowercase` (full Unicode lower-casing). Trusted: the result
/// depends on the text alone; the Unicode tables are not restated here.
#[verifier::external_body]
fn lowercase(s: &str) -> (r: String)
    ensures
        r@ == spec_lowercase(s@),
{
    s.to_lowercase()
}

/// The name `Path::file_name` gives a path; see `file_name`.
pub uninterp spec fn spec_file_name(path: Seq<char>) -> Option<Seq<char>>;

/// `Path::file_name` of a path given as text: its last normal component,
/// if any. Trusted: the result depends on the text alone.
#[verifier::external_body]
pub(crate) fn file_name(path: &str) -> (r: Option<String>)
    ensures
        opt_view(r) == spec_file_name(path@),
{
    std::path::Path::new(path).file_name().map(|name| name.to_string_lossy().into_owned())
}

/// `str::to_lowercase` for callers elsewhere in the crate.
pub(crate) fn lowercase_text(s: &str) -> (r: String)
    ensures
        r@ == spec_lowercase(s@),
{
    lowercase(s)
}

/// Lexicographic order of two texts by code point (the order of `String`).
pub open spec fn text_lt(a: Seq<char>, b: Seq<char>) -> bool
    decreases a.len(),
{
    if a.len() == 0 {
        b.len() > 0
    } else if b.len() == 0 {
        false
    } else if a[0] != b[0] {
        (a[0] as int) < (b[0] as int)
    } else {
        text_lt(a.drop_first(), b.drop_first())
    }
}

/// No text comes before itself.
pub proof fn lemma_text_lt_irreflexive(a: Seq<char>)
    ensures
        !text_lt(a, a),
    decreases a.len(),
{
    if a.len() > 0 {
        lemma_text_lt_irreflexive(a.drop_first());
    }
}

/// The text order is transitive.
pub proof fn lemma_text_lt_transitive(a: Seq<char>, b: Seq<char>, c: Seq<char>)
    requires
        text_lt(a, b),
        text_lt(b, c),
    ensures
        text_lt(a, c),
    decreases a.len(),
{
    if a.len() > 0 && a[0] == b[0] && b[0] == c[0] {
        lemma_text_lt_transitive(a.drop_first(), b.drop_first(), c.drop_first());
    }
}

/// Of two different texts, one comes before the other.
pub proof fn lemma_text_lt_total(a: Seq<char>, b: Seq<char>)
    requires
        a != b,
    ensures
        text_lt(a, b) || text_lt(b, a),
    decreases a.len(),
{
    if a.len() > 0 && b.len() > 0 {
        if a[0] == b[0] {
            if a.drop_first() == b.drop_first() {
                assert(a =~= seq![a[0]] + a.drop_first());
                assert(b =~= seq![b[0]] + b.drop_first());
                assert(a == b);
            } else {
                lemma_text_lt_total(a.drop_first(), b.drop_first());
            }
        } else {
            assert((a[0] as int) != (b[0] as int));
        }
    } else if a.len() == 0 && b.len() == 0 {
        assert(a =~= b);
    }
}

/// The order "not after" is transitive: if `b` is not before `a` and `c`
/// is not before `b`, then `c` is not before `a`.
pub proof fn lemma_text_not_lt_transitive(a: Seq<char>, b: Seq<char>, c: Seq<char>)
    requires
        !text_lt(b, a),
        !text_lt(c, b),
    ensures
        !text_lt(c, a),
{
    if text_lt(c, a) {
        if a == b {
        } else {
            lemma_text_lt_total(a, b);
            lemma_text_lt_transitive(c, a, b);
        }
    }
}

proof fn lemma_text_lt_at(a: Seq<char>, b: Seq<char>, i: int)
    requires
        0 <= i <= a.len(),
        i <= b.len(),
        forall|k: int| 0 <= k < i ==> a[k] == b[k],
    ensures
        text_lt(a, b) == text_lt(a.skip(i), b.skip(i)),
    decreases i,
{
    if i > 0 {
        assert(a[0] == b[0]);
        assert forall|k: int| 0 <= k < i - 1 implies a.drop_first()[k] == b.drop_first()[k] by {
            assert(a.drop_first()[k] == a[k + 1]);
            assert(b.drop_first()[k] == b[k + 1]);
        }
        lemma_text_lt_at(a.drop_first(), b.drop_first(), i - 1);
        assert(a.drop_first().skip(i - 1) =~= a.skip(i));
        assert(b.drop_first().skip(i - 1) =~= b.skip(i));
    } else {
        assert(a.skip(0) =~= a);
        assert(b.skip(0) =~= b);
    }
}

pub fn text_less(a: &Vec<char>, b: &Vec<char>) -> (r: bool)
    ensures
        r == text_lt(a@, b@),
{
    let mut i: usize = 0;
    while i < a.len() && i < b.len() && a[i] == b[i]
        invariant
            i <= a.len(),
            i <= b.len(),
            forall|k: int| 0 <= k < i ==> a@[k] == b@[k],
        decreases a.len() - i,
    {
        i = i + 1;
    }
    proof {
        lemma_text_lt_at(a@, b@, i as int);
    }
    if i == a.len() {
        i < b.len()
    } else if i == b.len() {
        false
    } else {
        assert(a@.skip(i as int)[0] == a@[i as int]);
        assert(b@.skip(i as int)[0] == b@[i as int]);
        a[i] < b[i]
    }
}

/// How the project list is ordered.
#[derive(Clone, Copy, Debug, Default, PartialEq, Eq, Structural)]
pub enum ProjectSort {
    /// Most recently opened first, then by lower-cased name.
    #[default]
    LastOpened,
    /// By lower-cased name, then by path.
    Name,
}

/// The name `Path`'s order gives two paths; see `path_less`.
pub uninterp spec fn spec_path_less(left: Seq<char>, right: Seq<char>) -> bool;

/// `<Path as PartialOrd>::lt` on two paths given as text (component by
/// component). Trusted: the answer depends on the two texts alone and is
/// `false` for equal texts.
#[verifier::external_body]
fn path_less(left: &str, right: &str) -> (r: bool)
    ensures
        r == spec_path_less(left@, right@),
        left@ == right@ ==> !r,
{
    std::path::Path::new(left) < std::path::Path::new(right)
}

/// `a` is listed before `b` in the order `order`.
pub open spec fn listed_before(order: ProjectSort, a: RecentProjectView, b: RecentProjectView) -> bool {
    match order {
        ProjectSort::LastOpened => a.last_opened > b.last_opened || (a.last_opened == b.last_opened
            && text_lt(spec_lowercase(a.name), spec_lowercase(b.name))),
        ProjectSort::Name => text_lt(spec_lowercase(a.name), spec_lowercase(b.name)) || (
        spec_lowercase(a.name) == spec_lowercase(b.name) && spec_path_less(a.path, b.path)),
    }
}

/// `a` is listed before `b`: opened more recently, or opened at the same
/// time and earlier by lower-cased name.
pub open spec fn comes_before(a: RecentProjectView, b: RecentProjectView) -> bool {
    listed_before(ProjectSort::LastOpened, a, b)
}

fn listed_before_exec(order: ProjectSort, a: &RecentProject, b: &RecentProject) -> (r: bool)
    ensures
        r == listed_before(order, a@, b@),
{
    let la = lowercase(a.name.as_str());
    let lb = lowercase(b.name.as_str());
    let va = chars_of(la.as_str());
    let vb = chars_of(lb.as_str());
    match order {
        ProjectSort::LastOpened => {
            if a.last_opened != b.last_opened {
                a.last_opened > b.last_opened
            } else {
                text_less(&va, &vb)
            }
        },
        ProjectSort::Name => {
            if text_less(&va, &vb) {
                true
            } else if crate::text::chars_equal(&va, &vb) {
                path_less(a.path.as_str(), b.path.as_str())
            } else {
                false
            }
        },
    }
}

/// `x` placed into `sorted` after every entry it is not listed before
/// (one step of a stable insertion sort).
pub open spec fn insert_ordered(
    order: ProjectSort,
    sorted: Seq<RecentProjectView>,
    x: RecentProjectView,
) -> Seq<RecentProjectView>
    decreases sorted.len(),
{
    if sorted.len() == 0 {
        seq![x]
    } else if listed_before(order, x, sorted.last()) {
        insert_ordered(order, sorted.drop_last(), x).push(sorted.last())
    } else {
        sorted.push(x)
    }
}

/// The list in the order `order`, entries with equal keys in their
/// original order (a stable sort).
pub open spec fn sort_ordered(order: ProjectSort, s: Seq<RecentProjectView>) -> Seq<RecentProjectView>
    decreases s.len(),
{
    if s.len() == 0 {
        Seq::empty()
    } else {
        insert_ordered(order, sort_ordered(order, s.drop_last()), s.last())
    }
}

/// The list ordered most recent first, ties by lower-cased name, equal
/// keys in their original order.
pub open spec fn sort_by_recency(s: Seq<RecentProjectView>) -> Seq<RecentProjectView> {
    sort_ordered(ProjectSort::LastOpened, s)
}

/// The list is in recency order: no entry should come before an entry
/// listed ahead of it.
pub open spec fn recency_sorted(s: Seq<RecentProjectView>) -> bool {
    forall|i: int, j: int| 0 <= i < j < s.len() ==> !comes_before(#[trigger] s[j], #[trigger] s[i])
}

proof fn lemma_comes_before_asymmetric(a: RecentProjectView, b: RecentProjectView)
    requires
        comes_before(a, b),
    ensures
        !comes_before(b, a),
{
    if comes_before(b, a) {
        lemma_text_lt_transitive(spec_lowercase(a.name), spec_lowercase(b.name), spec_lowercase(a.name));
        lemma_text_lt_irreflexive(spec_lowercase(a.name));
    }
}

proof fn lemma_not_before_transitive(a: RecentProjectView, b: RecentProjectView, c: RecentProjectView)
    requires
        !comes_before(b, a),
        !comes_before(c, b),
    ensures
        !comes_before(c, a),
{
    if a.last_opened == b.last_opened && b.last_opened == c.last_opened {
        lemma_text_not_lt_transitive(spec_lowercase(a.name), spec_lowercase(b.name), spec_lowercase(c.name));
    }
}

proof fn lemma_insert_by_recency(s: Seq<RecentProjectView>, x: RecentProjectView)
    requires
        recency_sorted(s),
    ensures
        recency_sorted(insert_ordered(ProjectSort::LastOpened, s, x)),
        insert_ordered(ProjectSort::LastOpened, s, x).len() == s.len() + 1,
        forall|k: int|
            0 <= k < s.len() + 1 ==> #[trigger] insert_ordered(ProjectSort::LastOpened, s, x)[k] == x
                || s.contains(insert_ordered(ProjectSort::LastOpened, s, x)[k]),
    decreases s.len(),
{
    let r = insert_ordered(ProjectSort::LastOpened, s, x);
    if s.len() == 0 {
    } else if comes_before(x, s.last()) {
        let t = s.drop_last();
        assert(recency_sorted(t)) by {
            assert forall|i: int, j: int| 0 <= i < j < t.len() implies !comes_before(#[trigger] t[j], #[trigger] t[i]) by {
                assert(t[j] == s[j] && t[i] == s[i]);
            }
        }
        lemma_insert_by_recency(t, x);
        let u = insert_ordered(ProjectSort::LastOpened, t, x);
        assert(r == u.push(s.last()));
        lemma_comes_before_asymmetric(x, s.last());
        assert forall|k: int| 0 <= k < u.len() implies !comes_before(s.last(), #[trigger] u[k]) by {
            if u[k] != x {
                assert(t.contains(u[k]));
                let i = choose|i: int| 0 <= i < t.len() && t[i] == u[k];
                assert(s[i] == u[k]);
                assert(!comes_before(s[s.len() - 1], s[i]));
            }
        }
        assert forall|i: int, j: int| 0 <= i < j < r.len() implies !comes_before(#[trigger] r[j], #[trigger] r[i]) by {
            if j == r.len() - 1 {
                assert(r[j] == s.last());
                assert(r[i] == u[i]);
            } else {
                assert(r[j] == u[j] && r[i] == u[i]);
            }
        }
        assert forall|k: int| 0 <= k < s.len() + 1 implies #[trigger] r[k] == x || s.contains(r[k]) by {
            if k == s.len() {
                assert(r[k] == s[s.len() - 1]);
            } else {
                assert(r[k] == u[k]);
                if u[k] != x {
                    let i = choose|i: int| 0 <= i < t.len() && t[i] == u[k];
                    assert(s[i] == u[k]);
                }
            }
        }
    } else {
        assert(r == s.push(x));
        assert forall|i: int, j: int| 0 <= i < j < r.len() implies !comes_before(#[trigger] r[j], #[trigger] r[i]) by {
            if j == r.len() - 1 {
                assert(r[j] == x);
                assert(r[i] == s[i]);
                if i < s.len() - 1 {
                    lemma_not_before_transitive(s[i], s[s.len() - 1], x);
                }
            } else {
                assert(r[j] == s[j] && r[i] == s[i]);
            }
        }
        assert forall|k: int| 0 <= k < s.len() + 1 implies #[trigger] r[k] == x || s.contains(r[k]) by {
            if k < s.len() {
                assert(r[k] == s[k]);
            }
        }
    }
}

/// The saved list's order is a real order: sorting by recency leaves no
/// entry that should come before an entry ahead of it.
pub proof fn lemma_sort_by_recency_sorted(s: Seq<RecentProjectView>)
    ensures
        recency_sorted(sort_by_recency(s)),
        sort_by_recency(s).len() == s.len(),
    decreases s.len(),
{
    if s.len() > 0 {
        lemma_sort_by_recency_sorted(s.drop_last());
        lemma_insert_by_recency(sort_by_recency(s.drop_last()), s.last());
    }
}

pub open spec fn views(s: Seq<RecentProject>) -> Seq<RecentProjectView> {
    s.map_values(|p: RecentProject| p@)
}

proof fn lemma_insert_at(order: ProjectSort, s: Seq<RecentProjectView>, x: RecentProjectView, j: int)
    requires
        0 <= j <= s.len(),
        forall|k: int| j <= k < s.len() ==> listed_before(order, x, #[trigger] s[k]),
        j == 0 || !listed_before(order, x, s[j - 1]),
    ensures
        insert_ordered(order, s, x) == s.insert(j, x),
    decreases s.len(),
{
    if s.len() == 0 {
        assert(s.insert(0, x) =~= seq![x]);
    } else if j == s.len() {
        assert(s.insert(j, x) =~= s.push(x));
    } else {
        assert(listed_before(order, x, s[s.len() - 1]));
        lemma_insert_at(order, s.drop_last(), x, j);
        assert(s.drop_last().insert(j, x).push(s.last()) =~= s.insert(j, x));
    }
}

fn insert_sorted(order: ProjectSort, out: &mut Vec<RecentProject>, x: RecentProject)
    ensures
        views(final(out)@) == insert_ordered(order, views(old(out)@), x@),
{
    let mut j: usize = out.len();
    while j > 0 && listed_before_exec(order, &x, &out[j - 1])
        invariant
            j <= out.len(),
            forall|k: int| j <= k < out.len() ==> listed_before(order, x@, #[trigger] out@[k]@),
        decreases j,
    {
        j = j - 1;
    }
    proof {
        let vs = views(out@);
        assert forall|k: int| j <= k < vs.len() implies listed_before(order, x@, #[trigger] vs[k]) by {
            assert(vs[k] == out@[k]@);
        }
        if j > 0 {
            assert(vs[j - 1] == out@[j - 1]@);
        }
        lemma_insert_at(order, vs, x@, j as int);
    }
    let ghost before = out@;
    out.insert(j, x);
    assert(views(out@) =~= views(before).insert(j as int, x@));
}

/// The projects in the order `order` (see `sort_ordered`).
pub fn sort_projects_by(order: ProjectSort, v: &Vec<RecentProject>) -> (r: Vec<RecentProject>)
    ensures
        views(r@) == sort_ordered(order, views(v@)),
{
    let mut out: Vec<RecentProject> = Vec::new();
    let mut i: usize = 0;
    while i < v.len()
        invariant
            i <= v.len(),
            views(out@) == sort_ordered(order, views(v@.take(i as int))),
        decreases v.len() - i,
    {
        let x = v[i].duplicate();
        insert_sorted(order, &mut out, x);
        assert(views(v@.take(i + 1)).drop_last() =~= views(v@.take(i as int)));
        assert(views(v@.take(i + 1)).last() == v@[i as int]@);
        i = i + 1;
    }
    assert(v@.take(v.len() as int) =~= v@);
    out
}

/// The projects ordered as the saved list keeps them (see `sort_by_recency`).
pub fn sort_projects(v: &Vec<RecentProject>) -> (r: Vec<RecentProject>)
    ensures
        views(r@) == sort_by_recency(views(v@)),
{
    sort_projects_by(ProjectSort::LastOpened, v)
}

/// The list without the entries whose path matches `path`.
pub open spec fn without_path(windows: bool, s: Seq<RecentProjectView>, path: Seq<char>) -> Seq<
    RecentProjectView,
>
    decreases s.len(),
{
    if s.len() == 0 {
        Seq::empty()
    } else if spec_same_path(windows, s.last().path, path) {
        without_path(windows, s.drop_last(), path)
    } else {
        without_path(windows, s.drop_last(), path).push(s.last())
    }
}

/// No entry left after dropping a folder's entries names that folder.
proof fn lemma_without_path_drops(windows: bool, s: Seq<RecentProjectView>, path: Seq<char>)
    ensures
        forall|k: int|
            0 <= k < without_path(windows, s, path).len() ==> !spec_same_path(windows, 
                #[trigger] without_path(windows, s, path)[k].path,
                path,
            ),
    decreases s.len(),
{
    if s.len() > 0 {
        lemma_without_path_drops(windows, s.drop_last(), path);
        let w = without_path(windows, s.drop_last(), path);
        if !spec_same_path(windows, s.last().path, path) {
            assert forall|k: int| 0 <= k < w.push(s.last()).len() implies !spec_same_path(windows, 
                #[trigger] w.push(s.last())[k].path,
                path,
            ) by {
                if k < w.len() {
                    assert(w.push(s.last())[k] == w[k]);
                }
            }
        }
    }
}

/// Inserting into an ordered list puts the entry at one place and keeps
/// the others in order.
proof fn lemma_insert_ordered_is_insert(order: ProjectSort, s: Seq<RecentProjectView>, x: RecentProjectView)
    ensures
        exists|j: int| 0 <= j <= s.len() && insert_ordered(order, s, x) == s.insert(j, x),
    decreases s.len(),
{
    if s.len() == 0 {
        assert(insert_ordered(order, s, x) =~= s.insert(0, x));
    } else if listed_before(order, x, s.last()) {
        lemma_insert_ordered_is_insert(order, s.drop_last(), x);
        let j = choose|j: int|
            0 <= j <= s.drop_last().len() && insert_ordered(order, s.drop_last(), x) == s.drop_last().insert(j, x);
        assert(s.drop_last().insert(j, x).push(s.last()) =~= s.insert(j, x));
    } else {
        assert(s.push(x) =~= s.insert(s.len() as int, x));
    }
}

/// Sorting keeps the entries: each entry of the sorted list is one of
/// the list's.
proof fn lemma_sort_ordered_entries(order: ProjectSort, s: Seq<RecentProjectView>)
    ensures
        sort_ordered(order, s).len() == s.len(),
        forall|k: int| 0 <= k < s.len() ==> s.contains(#[trigger] sort_ordered(order, s)[k]),
    decreases s.len(),
{
    if s.len() > 0 {
        let t = s.drop_last();
        lemma_sort_ordered_entries(order, t);
        let u = sort_ordered(order, t);
        lemma_insert_ordered_is_insert(order, u, s.last());
        let j = choose|j: int| 0 <= j <= u.len() && insert_ordered(order, u, s.last()) == u.insert(j, s.last());
        let r = sort_ordered(order, s);
        assert(r == u.insert(j, s.last()));
        assert forall|k: int| 0 <= k < s.len() implies s.contains(#[trigger] r[k]) by {
            if k == j {
                assert(s[s.len() - 1] == r[k]);
            } else {
                let m = if k < j {
                    k
                } else {
                    k - 1
                };
                assert(r[k] == u[m]);
                assert(t.contains(u[m]));
                let i = choose|i: int| 0 <= i < t.len() && t[i] == u[m];
                assert(s[i] == t[i]);
            }
        }
    }
}

/// Ordering a list keeps exactly its entries.
pub proof fn lemma_sort_ordered_same_entries(order: ProjectSort, s: Seq<RecentProjectView>, x: RecentProjectView)
    ensures
        sort_ordered(order, s).contains(x) <==> s.contains(x),
    decreases s.len(),
{
    lemma_sort_ordered_entries(order, s);
    if s.len() > 0 {
        let t = s.drop_last();
        lemma_sort_ordered_same_entries(order, t, x);
        let u = sort_ordered(order, t);
        lemma_insert_ordered_is_insert(order, u, s.last());
        let j = choose|j: int| 0 <= j <= u.len() && insert_ordered(order, u, s.last()) == u.insert(j, s.last());
        let r = sort_ordered(order, s);
        assert(r == u.insert(j, s.last()));
        if sort_ordered(order, s).contains(x) {
            let k = choose|k: int| 0 <= k < r.len() && r[k] == x;
            assert(s.contains(r[k]));
        }
        if s.contains(x) {
            let i = choose|i: int| 0 <= i < s.len() && s[i] == x;
            if i == s.len() - 1 {
                assert(r[j] == x);
            } else {
                assert(t[i] == x);
                assert(t.contains(x));
                assert(u.contains(x));
                let m = choose|m: int| 0 <= m < u.len() && u[m] == x;
                if m < j {
                    assert(r[m] == x);
                } else {
                    assert(r[m + 1] == x);
                }
            }
        }
    }
}

/// Opening a project keeps a single record for its folder: the list that
/// opening `entry` gives holds `entry`, and no other record names its
/// folder.
pub proof fn lemma_opened_folder_has_one_record(windows: bool, s: Seq<RecentProjectView>, entry: RecentProjectView)
    ensures
        ({
            let r = sort_by_recency(without_path(windows, s, entry.path).push(entry));
            &&& exists|i: int| 0 <= i < r.len() && r[i] == entry
            &&& forall|i: int|
                0 <= i < r.len() && spec_same_path(windows, #[trigger] r[i].path, entry.path) ==> r[i] == entry
            &&& forall|i: int, j: int|
                0 <= i < r.len() && 0 <= j < r.len() && spec_same_path(windows, #[trigger] r[i].path, entry.path)
                    && spec_same_path(windows, #[trigger] r[j].path, entry.path) ==> i == j
        }),
{
    let w = without_path(windows, s, entry.path);
    let t = w.push(entry);
    lemma_without_path_drops(windows, s, entry.path);
    lemma_sort_ordered_entries(ProjectSort::LastOpened, w);
    let u = sort_ordered(ProjectSort::LastOpened, w);
    assert(t.drop_last() =~= w);
    assert(t.last() == entry);
    lemma_insert_ordered_is_insert(ProjectSort::LastOpened, u, entry);
    let j = choose|j: int| 0 <= j <= u.len() && insert_ordered(ProjectSort::LastOpened, u, entry) == u.insert(j, entry);
    let r = sort_by_recency(t);
    assert(r == u.insert(j, entry));
    assert forall|i: int| 0 <= i < r.len() && i != j implies !spec_same_path(windows, #[trigger] r[i].path, entry.path) by {
        let m = if i < j {
            i
        } else {
            i - 1
        };
        assert(r[i] == u[m]);
        assert(w.contains(u[m]));
        let k = choose|k: int| 0 <= k < w.len() && w[k] == u[m];
        assert(!spec_same_path(windows, w[k].path, entry.path));
    }
    assert(r[j] == entry);
}

/// Dropping a folder's entries from a list that has none changes nothing.
proof fn lemma_without_path_none(windows: bool, u: Seq<RecentProjectView>, path: Seq<char>)
    requires
        forall|k: int| 0 <= k < u.len() ==> !spec_same_path(windows, #[trigger] u[k].path, path),
    ensures
        without_path(windows, u, path) == u,
    decreases u.len(),
{
    if u.len() > 0 {
        let t = u.drop_last();
        assert forall|k: int| 0 <= k < t.len() implies !spec_same_path(windows, #[trigger] t[k].path, path) by {
            assert(t[k] == u[k]);
        }
        lemma_without_path_none(windows, t, path);
        assert(!spec_same_path(windows, u[u.len() - 1].path, path));
        assert(t.push(u.last()) =~= u);
    }
}

/// Dropping a folder's entries removes an entry inserted for that folder
/// into a list that has no other.
proof fn lemma_without_path_inserted(windows: bool, 
    u: Seq<RecentProjectView>,
    j: int,
    e: RecentProjectView,
    path: Seq<char>,
)
    requires
        0 <= j <= u.len(),
        spec_same_path(windows, e.path, path),
        forall|k: int| 0 <= k < u.len() ==> !spec_same_path(windows, #[trigger] u[k].path, path),
    ensures
        without_path(windows, u.insert(j, e), path) == u,
    decreases u.len(),
{
    let s = u.insert(j, e);
    if j == u.len() {
        assert(s.drop_last() =~= u);
        assert(s.last() == e);
        lemma_without_path_none(windows, u, path);
    } else {
        let t = u.drop_last();
        assert forall|k: int| 0 <= k < t.len() implies !spec_same_path(windows, #[trigger] t[k].path, path) by {
            assert(t[k] == u[k]);
        }
        lemma_without_path_inserted(windows, t, j, e, path);
        assert(s.drop_last() =~= t.insert(j, e));
        assert(s.last() == u.last());
        assert(!spec_same_path(windows, u[u.len() - 1].path, path));
        assert(t.push(u.last()) =~= u);
    }
}

/// Sorting a list already in recency order leaves it as it is.
proof fn lemma_sort_of_sorted(u: Seq<RecentProjectView>)
    requires
        recency_sorted(u),
    ensures
        sort_by_recency(u) == u,
    decreases u.len(),
{
    if u.len() > 0 {
        let t = u.drop_last();
        assert(recency_sorted(t)) by {
            assert forall|i: int, j: int| 0 <= i < j < t.len() implies !comes_before(#[trigger] t[j], #[trigger] t[i]) by {
                assert(t[j] == u[j] && t[i] == u[i]);
            }
        }
        lemma_sort_of_sorted(t);
        if t.len() > 0 {
            assert(!comes_before(u[u.len() - 1], u[u.len() - 2]));
            assert(t.last() == u[u.len() - 2]);
        } else {
            assert(seq![u.last()] =~= u);
        }
        assert(t.push(u.last()) =~= u);
    }
}

/// Opening the same project again, with the same record, changes nothing:
/// the list that a second open gives is the list the first gave. Under the
/// Windows rules this holds of every folder; otherwise of a folder path
/// that compares equal to itself, as `Path` equality does.
pub proof fn lemma_reopening_changes_nothing(windows: bool, s: Seq<RecentProjectView>, entry: RecentProjectView)
    requires
        !windows ==> spec_paths_match(entry.path, entry.path),
    ensures
        ({
            let once = sort_by_recency(without_path(windows, s, entry.path).push(entry));
            sort_by_recency(without_path(windows, once, entry.path).push(entry)) == once
        }),
{
    assert(spec_same_path(windows, entry.path, entry.path)) by {
        if windows {
            assert(eq_ignore_ascii_case(spec_path_string(entry.path), spec_path_string(entry.path)));
        }
    }
    let w = without_path(windows, s, entry.path);
    lemma_without_path_drops(windows, s, entry.path);
    lemma_sort_ordered_entries(ProjectSort::LastOpened, w);
    lemma_sort_by_recency_sorted(w);
    let u = sort_ordered(ProjectSort::LastOpened, w);
    assert(w.push(entry).drop_last() =~= w);
    assert(w.push(entry).last() == entry);
    lemma_insert_ordered_is_insert(ProjectSort::LastOpened, u, entry);
    let j = choose|j: int| 0 <= j <= u.len() && insert_ordered(ProjectSort::LastOpened, u, entry) == u.insert(j, entry);
    let once = sort_by_recency(w.push(entry));
    assert(once == u.insert(j, entry));
    assert forall|k: int| 0 <= k < u.len() implies !spec_same_path(windows, #[trigger] u[k].path, entry.path) by {
        assert(w.contains(u[k]));
        let m = choose|m: int| 0 <= m < w.len() && w[m] == u[k];
        assert(!spec_same_path(windows, w[m].path, entry.path));
    }
    lemma_without_path_inserted(windows, u, j, entry, entry.path);
    lemma_sort_of_sorted(u);
    assert(u.push(entry).drop_last() =~= u);
    assert(u.push(entry).last() == entry);
}

/// The list without the entries flagged in `flags`.
pub open spec fn without_flagged(s: Seq<RecentProjectView>, flags: Seq<bool>) -> Seq<
    RecentProjectView,
>
    decreases s.len(),
{
    if s.len() == 0 || flags.len() == 0 {
        Seq::empty()
    } else if flags[s.len() - 1] {
        without_flagged(s.drop_last(), flags.drop_last())
    } else {
        without_flagged(s.drop_last(), flags.drop_last()).push(s.last())
    }
}

/// Some entry of `s` has a path matching `path`.
pub open spec fn lists_path(windows: bool, s: Seq<RecentProjectView>, path: Seq<char>) -> bool {
    exists|i: int| 0 <= i < s.len() && spec_same_path(windows, #[trigger] s[i].path, path)
}

/// The path of the first entry, if any.
pub open spec fn first_path(s: Seq<RecentProjectView>) -> Option<Seq<char>> {
    if s.len() > 0 {
        Some(s[0].path)
    } else {
        None
    }
}

/// A record built from what validation found at `path`: the manifest's
/// name and icon when valid; otherwise the folder's name (or "Missing
/// project") and the validation error.
pub open spec fn spec_project_from_disk(
    path: Seq<char>,
    last_opened: u64,
    validation: Result<ProjectMetadataView, Seq<char>>,
) -> RecentProjectView {
    match validation {
        Ok(m) => RecentProjectView {
            path,
            name: m.name,
            last_opened,
            validation_error: None,
            icon: m.icon,
        },
        Err(e) => RecentProjectView {
            path,
            name: match spec_file_name(path) {
                Some(n) => if n.len() > 0 {
                    n
                } else {
                    "Missing project"@
                },
                None => "Missing project"@,
            },
            last_opened,
            validation_error: Some(e),
            icon: None,
        },
    }
}

pub fn project_from_disk(
    path: &str,
    last_opened: u64,
    validation: Result<ProjectMetadata, String>,
) -> (r: RecentProject)
    ensures
        r@ == spec_project_from_disk(path@, last_opened, metadata_result_view(validation)),
{
    match validation {
        Ok(metadata) => RecentProject {
            path: owned(path),
            name: metadata.name,
            last_opened,
            validation_error: None,
            icon: metadata.icon,
        },
        Err(error) => {
            let name = match file_name(path) {
                Some(n) => if n.unicode_len() > 0 {
                    n
                } else {
                    owned("Missing project")
                },
                None => owned("Missing project"),
            };
            RecentProject {
                path: owned(path),
                name,
                last_opened,
                validation_error: Some(error),
                icon: None,
            }
        },
    }
}

/// The recent-project list and the project opened last.
#[derive(Debug)]
pub struct RecentProjects {
    pub projects: Vec<RecentProject>,
    pub last_project: Option<String>,
    /// Whether folders are compared by the Windows rules (see `same_path`).
    pub windows: bool,
}

pub struct RecentProjectsView {
    pub projects: Seq<RecentProjectView>,
    pub last_project: Option<Seq<char>>,
    pub windows: bool,
}

impl View for RecentProjects {
    type V = RecentProjectsView;

    open spec fn view(&self) -> RecentProjectsView {
        RecentProjectsView {
            projects: views(self.projects@),
            last_project: opt_view(self.last_project),
            windows: self.windows,
        }
    }
}

impl Default for RecentProjects {
    fn default() -> (r: Self)
        ensures
            r@.projects.len() == 0,
            r@.last_project is None,
    {
        RecentProjects { projects: Vec::new(), last_project: None, windows: windows_paths() }
    }
}

fn without_path_exec(windows: bool, v: &Vec<RecentProject>, path: &str) -> (r: Vec<RecentProject>)
    ensures
        views(r@) == without_path(windows, views(v@), path@),
{
    let mut out: Vec<RecentProject> = Vec::new();
    let mut i: usize = 0;
    while i < v.len()
        invariant
            i <= v.len(),
            views(out@) == without_path(windows, views(v@.take(i as int)), path@),
        decreases v.len() - i,
    {
        let ghost prev = out@;
        assert(views(v@.take(i + 1)).drop_last() =~= views(v@.take(i as int)));
        assert(views(v@.take(i + 1)).last() == v@[i as int]@);
        if !same_path(windows, v[i].path.as_str(), path) {
            out.push(v[i].duplicate());
            assert(views(out@) =~= views(prev).push(v@[i as int]@));
        }
        i = i + 1;
    }
    assert(v@.take(v.len() as int) =~= v@);
    out
}

fn lists_path_exec(windows: bool, v: &Vec<RecentProject>, path: &str) -> (r: bool)
    ensures
        r == lists_path(windows, views(v@), path@),
{
    let mut i: usize = 0;
    while i < v.len()
        invariant
            i <= v.len(),
            forall|k: int| 0 <= k < i ==> !spec_same_path(windows, #[trigger] views(v@)[k].path, path@),
        decreases v.len() - i,
    {
        if same_path(windows, v[i].path.as_str(), path) {
            assert(views(v@)[i as int].path == v@[i as int].path@);
            return true;
        }
        i = i + 1;
    }
    false
}

fn first_path_exec(v: &Vec<RecentProject>) -> (r: Option<String>)
    ensures
        opt_view(r) == first_path(views(v@)),
{
    if v.len() > 0 {
        Some(v[0].path.clone())
    } else {
        None
    }
}

// ---------------------------------------------------------------------
// The saved list.
// ---------------------------------------------------------------------

/// What the saved list file holds: the last project (when it names a
/// non-blank path) and each listed folder with when it was last opened, in
/// file order and without repeats.
#[derive(Debug)]
pub struct RecentConfig {
    pub last_project: Option<String>,
    pub entries: Vec<(String, u64)>,
    /// Whether paths were compared by the Windows rules when reading.
    pub windows: bool,
}

pub struct RecentConfigView {
    pub last_project: Option<Seq<char>>,
    pub entries: Seq<(Seq<char>, u64)>,
    pub windows: bool,
}

pub open spec fn entry_views(v: Seq<(String, u64)>) -> Seq<(Seq<char>, u64)> {
    v.map_values(|e: (String, u64)| (e.0@, e.1))
}

impl View for RecentConfig {
    type V = RecentConfigView;

    open spec fn view(&self) -> RecentConfigView {
        RecentConfigView {
            last_project: opt_view(self.last_project),
            entries: entry_views(self.entries@),
            windows: self.windows,
        }
    }
}

/// `last_opened` of a listed folder: the integer when it is one that fits
/// in `u64`, else 0.
pub open spec fn saved_opened(table: Map<Seq<char>, TomlNode>) -> u64 {
    match node_integer(entry(TomlNode::Table(table), "last_opened"@)) {
        Some(n) => if n >= 0 {
            n as u64
        } else {
            0
        },
        None => 0,
    }
}

/// Whether some entry already lists a folder matching `path`.
pub open spec fn entries_list(windows: bool, entries: Seq<(Seq<char>, u64)>, path: Seq<char>) -> bool {
    exists|k: int| 0 <= k < entries.len() && spec_same_path(windows, #[trigger] entries[k].0, path)
}

/// The `[[projects]]` tables read in order: a table without a string
/// `path` is skipped, and so is one whose folder is already listed.
pub open spec fn saved_entries(windows: bool, tables: Seq<Map<Seq<char>, TomlNode>>) -> Seq<(Seq<char>, u64)>
    decreases tables.len(),
{
    if tables.len() == 0 {
        Seq::empty()
    } else {
        let before = saved_entries(windows, tables.drop_last());
        match node_str(entry(TomlNode::Table(tables.last()), "path"@)) {
            None => before,
            Some(path) => if entries_list(windows, before, path) {
                before
            } else {
                before.push((path, saved_opened(tables.last())))
            },
        }
    }
}

/// The saved list read from the file's text; nothing when it is not TOML.
pub open spec fn spec_recent_config(source: Seq<char>, windows: bool) -> Option<RecentConfigView> {
    match toml_parse(source) {
        Err(_) => None,
        Ok(document) => Some(
            RecentConfigView {
                last_project: match node_str(entry(document, "last_project"@)) {
                    Some(v) => if trimmed(v, TrimSet::Whitespace).len() > 0 {
                        Some(v)
                    } else {
                        None
                    },
                    None => None,
                },
                entries: match entry(document, "projects"@) {
                    Some(TomlNode::TableArray(tables)) => saved_entries(windows, tables),
                    _ => Seq::empty(),
                },
                windows,
            },
        ),
    }
}

fn entries_list_exec(windows: bool, entries: &Vec<(String, u64)>, path: &str) -> (r: bool)
    ensures
        r == entries_list(windows, entry_views(entries@), path@),
{
    let mut i: usize = 0;
    while i < entries.len()
        invariant
            i <= entries.len(),
            forall|k: int| 0 <= k < i ==> !spec_same_path(windows, #[trigger] entry_views(entries@)[k].0, path@),
        decreases entries.len() - i,
    {
        if same_path(windows, entries[i].0.as_str(), path) {
            assert(entry_views(entries@)[i as int].0 == entries@[i as int].0@);
            return true;
        }
        i = i + 1;
    }
    false
}

fn saved_opened_exec(table: &Item) -> (r: u64)
    requires
        item_node(*table) is Table,
    ensures
        r == saved_opened(item_node(*table)->Table_0),
{
    match lookup_integer(table, "last_opened") {
        Some(n) => if n >= 0 {
            n as u64
        } else {
            0
        },
        None => 0,
    }
}

/// Reads the saved list from the file's text (see `spec_recent_config`).
pub fn parse_recent_config(source: &str) -> (r: Option<RecentConfig>)
    ensures
        match r {
            Some(c) => spec_recent_config(source@, c.windows) == Some(c@),
            None => toml_parse(source@) is Err,
        },
{
    let windows = windows_paths();
    let document = match parse_toml(source) {
        Ok(d) => d,
        Err(_) => {
            return None;
        },
    };
    let last_project = match lookup_str(&document, "last_project") {
        Some(v) => if trim(v.as_str()).unicode_len() > 0 {
            Some(v)
        } else {
            None
        },
        None => None,
    };
    assert(opt_view(last_project) == match node_str(entry(item_node(document), "last_project"@)) {
        Some(v) => if trimmed(v, TrimSet::Whitespace).len() > 0 {
            Some(v)
        } else {
            None
        },
        None => None,
    });
    let mut entries: Vec<(String, u64)> = Vec::new();
    match item_get(&document, "projects") {
        Some(projects) => if item_is_table_array(projects) {
            let ghost tables = item_node(*projects)->TableArray_0;
            let mut i: usize = 0;
            loop
                invariant
                    item_node(*projects) == TomlNode::TableArray(tables),
                    tables.len() <= usize::MAX,
                    i <= tables.len(),
                    entry_views(entries@) == saved_entries(windows, tables.take(i as int)),
                ensures
                    entry_views(entries@) == saved_entries(windows, tables),
                decreases tables.len() - i,
            {
                let table = match item_at(projects, i) {
                    Some(t) => t,
                    None => {
                        assert(tables.take(i as int) =~= tables);
                        break;
                    },
                };
                assert(tables.take(i + 1).drop_last() =~= tables.take(i as int));
                assert(tables.take(i + 1).last() == tables[i as int]);
                let ghost before = entries@;
                match lookup_str(table, "path") {
                    Some(path) => if !entries_list_exec(windows, &entries, path.as_str()) {
                        let opened = saved_opened_exec(table);
                        entries.push((path, opened));
                        assert(entry_views(entries@) =~= entry_views(before).push(
                            (entries@[before.len() as int].0@, opened),
                        ));
                    },
                    None => {},
                }
                i = i + 1;
            }
        },
        None => {},
    }
    assert(entry_views(entries@) == match entry(item_node(document), "projects"@) {
        Some(TomlNode::TableArray(tables)) => saved_entries(windows, tables),
        _ => Seq::empty(),
    });
    let r = RecentConfig { last_project, entries, windows };
    assert(spec_recent_config(source@, windows) == Some(r@)) by {
        let document_node = item_node(document);
        assert(toml_parse(source@) == Ok::<TomlNode, Seq<char>>(document_node));
    }
    Some(r)
}

impl RecentProjects {
    /// The list built from the saved file's contents: each entry becomes a
    /// record from what validating its folder found (`validations[i]` for
    /// entry `i`), and the records are ordered most recent first.
    pub fn from_config(config: RecentConfig, validations: Vec<Result<ProjectMetadata, String>>) -> (r: Self)
        requires
            validations.len() == config.entries.len(),
        ensures
            r@.last_project == config@.last_project,
            r@.windows == config.windows,
            r@.projects == sort_by_recency(
                Seq::new(
                    config@.entries.len(),
                    |i: int|
                        spec_project_from_disk(
                            config@.entries[i].0,
                            config@.entries[i].1,
                            metadata_result_view(validations@[i]),
                        ),
                ),
            ),
    {
        let mut records: Vec<RecentProject> = Vec::new();
        let mut rest = validations;
        let ghost all = rest@;
        let ghost wanted = Seq::new(
            config@.entries.len(),
            |i: int|
                spec_project_from_disk(
                    config@.entries[i].0,
                    config@.entries[i].1,
                    metadata_result_view(all[i]),
                ),
        );
        let mut i: usize = 0;
        while i < config.entries.len()
            invariant
                i <= config.entries.len(),
                all.len() == config.entries.len(),
                rest@ == all.skip(i as int),
                wanted.len() == config.entries.len(),
                forall|k: int| 0 <= k < config.entries.len() ==> #[trigger] wanted[k] == spec_project_from_disk(
                    config@.entries[k].0,
                    config@.entries[k].1,
                    metadata_result_view(all[k]),
                ),
                views(records@) == wanted.take(i as int),
            decreases config.entries.len() - i,
        {
            let validation = rest.remove(0);
            assert(validation == all[i as int]);
            assert(rest@ =~= all.skip(i + 1));
            let record = project_from_disk(config.entries[i].0.as_str(), config.entries[i].1, validation);
            assert(config@.entries[i as int] == (config.entries@[i as int].0@, config.entries@[i as int].1));
            assert(wanted[i as int] == record@);
            let ghost prev = records@;
            records.push(record);
            assert(views(records@) =~= views(prev).push(wanted[i as int]));
            assert(wanted.take(i + 1) =~= wanted.take(i as int).push(wanted[i as int]));
            i = i + 1;
        }
        assert(wanted.take(config.entries.len() as int) =~= wanted);
        let projects = sort_projects(&records);
        RecentProjects { projects, last_project: config.last_project, windows: config.windows }
    }
}

impl RecentProjects {
    /// The list that starts out holding only the bundled starter project,
    /// when it exists (`starter` is its record, read from disk by the
    /// caller), and is empty otherwise.
    pub fn with_starter_project(starter: Option<RecentProject>) -> (r: Self)
        ensures
            match starter {
                Some(p) => r@.projects == seq![p@] && r@.last_project == Some(p@.path),
                None => r@.projects.len() == 0 && r@.last_project is None,
            },
    {
        match starter {
            Some(project) => {
                let path = project.path.clone();
                let mut projects = Vec::new();
                projects.push(project);
                assert(views(projects@) =~= seq![projects@[0]@]);
                RecentProjects { projects, last_project: Some(path), windows: windows_paths() }
            },
            None => RecentProjects::default(),
        }
    }

    /// Records that a project was opened at `opened_at`. `canonical` is the
    /// project folder resolved on disk (or why resolving failed) and
    /// `metadata` what validating it found. On success the old record for
    /// the folder is replaced, the list is re-sorted, and the folder becomes
    /// the last project; on failure nothing changes.
    pub fn add_or_update(
        &mut self,
        canonical: Result<String, String>,
        metadata: Result<ProjectMetadata, String>,
        opened_at: u64,
    ) -> (r: Result<String, String>)
        ensures
            final(self)@.windows == old(self)@.windows,
            match canonical {
                Err(e) => string_result_view(r) == Err::<Seq<char>, Seq<char>>(
                    "Cannot open project folder: "@ + e@,
                ) && final(self)@ == old(self)@,
                Ok(c) => match metadata {
                    Err(e) => string_result_view(r) == Err::<Seq<char>, Seq<char>>(e@)
                        && final(self)@ == old(self)@,
                    Ok(m) => string_result_view(r) == Ok::<Seq<char>, Seq<char>>(c@)
                        && final(self)@.projects == sort_by_recency(
                        without_path(old(self)@.windows, old(self)@.projects, c@).push(
                            RecentProjectView {
                                path: c@,
                                name: m.name@,
                                last_opened: opened_at,
                                validation_error: None,
                                icon: opt_view(m.icon),
                            },
                        ),
                    ) && final(self)@.last_project == Some(c@),
                },
            },
    {
        let canonical = match canonical {
            Ok(c) => c,
            Err(e) => {
                let mut message = owned("Cannot open project folder: ");
                push_str(&mut message, e.as_str());
                return Err(message);
            },
        };
        let metadata = match metadata {
            Ok(m) => m,
            Err(e) => {
                return Err(e);
            },
        };
        let mut kept = without_path_exec(self.windows, &self.projects, canonical.as_str());
        let ghost kept_view = views(kept@);
        let record = RecentProject {
            path: canonical.clone(),
            name: metadata.name,
            last_opened: opened_at,
            validation_error: None,
            icon: metadata.icon,
        };
        kept.push(record);
        assert(views(kept@) =~= kept_view.push(kept@[kept@.len() - 1]@));
        self.projects = sort_projects(&kept);
        self.last_project = Some(canonical.clone());
        Ok(canonical)
    }

    /// Forgets the record of a project (its files are untouched). When it
    /// was the last project, the first remaining entry takes its place.
    pub fn remove(&mut self, path: &str)
        ensures
            final(self)@.windows == old(self)@.windows,
            final(self)@.projects == without_path(old(self)@.windows, old(self)@.projects, path@),
            final(self)@.last_project == match old(self)@.last_project {
                Some(last) => if spec_same_path(old(self)@.windows, last, path@) {
                    first_path(without_path(old(self)@.windows, old(self)@.projects, path@))
                } else {
                    Some(last)
                },
                None => None,
            },
    {
        self.projects = without_path_exec(self.windows, &self.projects, path);
        let matches = match &self.last_project {
            Some(last) => same_path(self.windows, last.as_str(), path),
            None => false,
        };
        if matches {
            self.last_project = first_path_exec(&self.projects);
        }
    }

    /// Drops the records flagged in `missing` (one flag per record) and
    /// returns how many were dropped. When the last project is no longer
    /// listed, the first remaining entry takes its place.
    pub fn remove_flagged(&mut self, missing: &Vec<bool>) -> (r: usize)
        requires
            missing.len() == old(self).projects.len(),
        ensures
            final(self)@.windows == old(self)@.windows,
            final(self)@.projects == without_flagged(old(self)@.projects, missing@),
            r == old(self)@.projects.len() - final(self)@.projects.len(),
            final(self)@.last_project == match old(self)@.last_project {
                Some(last) => if lists_path(old(self)@.windows, final(self)@.projects, last) {
                    Some(last)
                } else {
                    first_path(final(self)@.projects)
                },
                None => None,
            },
    {
        let before = self.projects.len();
        let mut out: Vec<RecentProject> = Vec::new();
        let mut i: usize = 0;
        while i < self.projects.len()
            invariant
                i <= self.projects.len(),
                missing.len() == self.projects.len(),
                views(out@) == without_flagged(views(self.projects@.take(i as int)), missing@.take(i as int)),
                out.len() <= i,
            decreases self.projects.len() - i,
        {
            let ghost prev = out@;
            assert(views(self.projects@.take(i + 1)).drop_last() =~= views(self.projects@.take(i as int)));
            assert(missing@.take(i + 1).drop_last() =~= missing@.take(i as int));
            assert(views(self.projects@.take(i + 1)).last() == self.projects@[i as int]@);
            if !missing[i] {
                out.push(self.projects[i].duplicate());
                assert(views(out@) =~= views(prev).push(self.projects@[i as int]@));
            }
            i = i + 1;
        }
        assert(self.projects@.take(self.projects.len() as int) =~= self.projects@);
        assert(missing@.take(missing.len() as int) =~= missing@);
        self.projects = out;
        let still_listed = match &self.last_project {
            Some(last) => lists_path_exec(self.windows, &self.projects, last.as_str()),
            None => true,
        };
        if !still_listed {
            self.last_project = first_path_exec(&self.projects);
        }
        before - self.projects.len()
    }

    /// The folders of the records, in list order: what `remove_missing`
    /// asks the disk about.
    pub fn folder_paths(&self) -> (r: Vec<String>)
        ensures
            string_views(r@) == self@.projects.map_values(|p: RecentProjectView| p.path),
    {
        let mut r: Vec<String> = Vec::new();
        let mut i: usize = 0;
        while i < self.projects.len()
            invariant
                i <= self.projects.len(),
                r.len() == i,
                forall|k: int| 0 <= k < i ==> (#[trigger] r@[k])@ == self@.projects[k].path,
            decreases self.projects.len() - i,
        {
            r.push(self.projects[i].path.clone());
            i = i + 1;
        }
        proof {
            assert(string_views(r@) =~= self@.projects.map_values(|p: RecentProjectView| p.path));
        }
        r
    }

    /// Drops the records whose folder is gone from disk (the disk is asked
    /// whether each path `folder_paths` gives is a folder) and returns how
    /// many were dropped.
    pub fn remove_missing(&mut self) -> (r: usize)
        ensures
            final(self)@.windows == old(self)@.windows,
            exists|missing: Seq<bool>|
                #![trigger without_flagged(old(self)@.projects, missing)]
                missing.len() == old(self)@.projects.len() && final(self)@.projects
                    == without_flagged(old(self)@.projects, missing),
            r == old(self)@.projects.len() - final(self)@.projects.len(),
            final(self)@.last_project == match old(self)@.last_project {
                Some(last) => if lists_path(old(self)@.windows, final(self)@.projects, last) {
                    Some(last)
                } else {
                    first_path(final(self)@.projects)
                },
                None => None,
            },
    {
        let folders = self.folder_paths();
        assert(string_views(folders@).len() == folders@.len());
        let mut missing: Vec<bool> = Vec::new();
        let mut i: usize = 0;
        while i < folders.len()
            invariant
                i <= folders.len(),
                folders.len() == self.projects.len(),
                missing.len() == i,
            decreases folders.len() - i,
        {
            missing.push(!folder_exists(folders[i].as_str()));
            i = i + 1;
        }
        let r = self.remove_flagged(&missing);
        r
    }

    /// Re-reads every record from disk: `validations[i]` is what
    /// validating the folder of entry `i` found now.
    pub fn refresh(&mut self, validations: Vec<Result<ProjectMetadata, String>>)
        requires
            validations.len() == old(self).projects.len(),
        ensures
            final(self)@.windows == old(self)@.windows,
            final(self)@.last_project == old(self)@.last_project,
            final(self)@.projects.len() == old(self)@.projects.len(),
            forall|i: int|
                0 <= i < old(self)@.projects.len() ==> #[trigger] final(self)@.projects[i]
                    == spec_project_from_disk(
                    old(self)@.projects[i].path,
                    old(self)@.projects[i].last_opened,
                    metadata_result_view(validations@[i]),
                ),
    {
        let mut out: Vec<RecentProject> = Vec::new();
        let mut rest = validations;
        let ghost all = rest@;
        let mut i: usize = 0;
        while i < self.projects.len()
            invariant
                i <= self.projects.len(),
                all.len() == self.projects.len(),
                rest@ == all.skip(i as int),
                out.len() == i,
                forall|k: int|
                    0 <= k < i ==> #[trigger] out@[k]@ == spec_project_from_disk(
                        self.projects@[k]@.path,
                        self.projects@[k]@.last_opened,
                        metadata_result_view(all[k]),
                    ),
            decreases self.projects.len() - i,
        {
            let validation = rest.remove(0);
            assert(validation == all[i as int]);
            let record = project_from_disk(
                self.projects[i].path.as_str(),
                self.projects[i].last_opened,
                validation,
            );
            out.push(record);
            assert(rest@ =~= all.skip(i + 1));
            i = i + 1;
        }
        self.projects = out;
    }
}


// ---------------------------------------------------------------------
// The saved form of the recent-project list.
// ---------------------------------------------------------------------

/// `last_opened` as a TOML integer: values above `i64::MAX` are written as `i64::MAX`.
pub open spec fn saved_timestamp(t: u64) -> nat {
    if t > 0x7fff_ffff_ffff_ffff {
        0x7fff_ffff_ffff_ffff
    } else {
        t as nat
    }
}

pub open spec fn project_entry_text(p: RecentProjectView) -> Seq<char> {
    "\n[[projects]]\npath = \""@ + spec_escape_toml_string(spec_path_string(p.path))
        + "\"\nlast_opened = "@ + decimal(saved_timestamp(p.last_opened)) + "\n"@
}

pub open spec fn projects_text(s: Seq<RecentProjectView>) -> Seq<char>
    decreases s.len(),
{
    if s.len() == 0 {
        Seq::empty()
    } else {
        projects_text(s.drop_last()) + project_entry_text(s.last())
    }
}

/// The text of the saved recent-project list.
pub open spec fn spec_config_source(v: RecentProjectsView) -> Seq<char> {
    let last = match v.last_project {
        Some(p) => spec_path_string(p),
        None => Seq::empty(),
    };
    "format_version = 1\nlast_project = \""@ + spec_escape_toml_string(last) + "\"\n"@
        + projects_text(v.projects)
}

impl RecentProjects {
    /// The list as the editor saves it to its settings file.
    pub fn config_source(&self) -> (r: String)
        ensures
            r@ == spec_config_source(self@),
    {
        let last = match &self.last_project {
            Some(p) => path_string(p.as_str()),
            None => String::new(),
        };
        let mut out = owned("format_version = 1\nlast_project = \"");
        let escaped = escape_toml_string(last.as_str());
        push_str(&mut out, escaped.as_str());
        push_str(&mut out, "\"\n");
        let ghost head = out@;
        let mut i: usize = 0;
        while i < self.projects.len()
            invariant
                i <= self.projects.len(),
                out@ == head + projects_text(views(self.projects@.take(i as int))),
            decreases self.projects.len() - i,
        {
            let p = &self.projects[i];
            assert(views(self.projects@.take(i + 1)).drop_last() =~= views(self.projects@.take(i as int)));
            assert(views(self.projects@.take(i + 1)).last() == p@);
            push_str(&mut out, "\n[[projects]]\npath = \"");
            let text = path_string(p.path.as_str());
            let escaped = escape_toml_string(text.as_str());
            push_str(&mut out, escaped.as_str());
            push_str(&mut out, "\"\nlast_opened = ");
            let t: u64 = if p.last_opened > 0x7fff_ffff_ffff_ffff {
                0x7fff_ffff_ffff_ffff
            } else {
                p.last_opened
            };
            push_decimal(&mut out, t);
            push_str(&mut out, "\n");
            assert(out@ == head + projects_text(views(self.projects@.take(i as int)))
                + project_entry_text(p@));
            i = i + 1;
        }
        assert(self.projects@.take(self.projects.len() as int) =~= self.projects@);
        out
    }
}

} // verus!
