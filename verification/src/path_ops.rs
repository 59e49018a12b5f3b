//! What std's `Path` does with path text: joining, whether a path is
//! absolute, and how it splits into components. These follow the rules of
//! the platform the library is built for, so they are names for std's
//! answers rather than rules restated here.

use vstd::prelude::*;

verus! {

/// The kind of one component of a path, as `Path::components` yields it.
#[derive(Clone, Copy, Debug, PartialEq, Eq, Structural)]
pub enum PathPart {
    /// A Windows drive or UNC prefix such as `C:`.
    Prefix,
    /// The root separator.
    RootDir,
    /// A `.` component.
    CurDir,
    /// A `..` component.
    ParentDir,
    /// An ordinary name.
    Normal,
}

/// The name `Path::join` gives `rel` joined to `base`, as text.
pub uninterp spec fn spec_path_join(base: Seq<char>, rel: Seq<char>) -> Seq<char>;

/// The name `Path::is_absolute` gives a path.
pub uninterp spec fn spec_path_is_absolute(path: Seq<char>) -> bool;

/// The name for the kinds of the components `Path::components` yields.
pub uninterp spec fn spec_path_parts(path: Seq<char>) -> Seq<PathPart>;

/// `Path::new(base).join(rel)`, written back as text (a path built from
/// UTF-8 text reads back without loss). Trusted: the result depends on the
/// two texts alone; where separators go is std's rule for the platform and
/// is not restated here.
#[verifier::external_body]
pub(crate) fn path_join(base: &str, rel: &str) -> (r: String)
    ensures
        r@ == spec_path_join(base@, rel@),
{
    std::path::Path::new(base).join(rel).to_string_lossy().into_owned()
}

/// `Path::is_absolute`. Trusted: the answer depends on the text alone.
#[verifier::external_body]
pub(crate) fn path_is_absolute(path: &str) -> (r: bool)
    ensures
        r == spec_path_is_absolute(path@),
{
    std::path::Path::new(path).is_absolute()
}

/// The kinds of the components of `path`, in order (`Path::components`).
/// Trusted: the list depends on the text alone.
#[verifier::external_body]
pub(crate) fn path_parts(path: &str) -> (r: Vec<PathPart>)
    ensures
        r@ == spec_path_parts(path@),
{
    std::path::Path::new(path)
        .components()
        .map(|c| match c {
            std::path::Component::Prefix(_) => PathPart::Prefix,
            std::path::Component::RootDir => PathPart::RootDir,
            std::path::Component::CurDir => PathPart::CurDir,
            std::path::Component::ParentDir => PathPart::ParentDir,
            std::path::Component::Normal(_) => PathPart::Normal,
        })
        .collect()
}

/// Some component is `..`.
pub open spec fn climbs_out(parts: Seq<PathPart>) -> bool {
    exists|i: int| 0 <= i < parts.len() && parts[i] == PathPart::ParentDir
}

/// Every component is a name or `.`.
pub open spec fn only_names(parts: Seq<PathPart>) -> bool {
    forall|i: int| 0 <= i < parts.len() ==> (parts[i] == PathPart::Normal || parts[i] == PathPart::CurDir)
}

pub(crate) fn has_parent_part(parts: &Vec<PathPart>) -> (r: bool)
    ensures
        r == climbs_out(parts@),
{
    let mut i: usize = 0;
    while i < parts.len()
        invariant
            i <= parts.len(),
            forall|k: int| 0 <= k < i ==> parts@[k] != PathPart::ParentDir,
        decreases parts.len() - i,
    {
        if parts[i] == PathPart::ParentDir {
            return true;
        }
        i = i + 1;
    }
    false
}

pub(crate) fn all_names(parts: &Vec<PathPart>) -> (r: bool)
    ensures
        r == only_names(parts@),
{
    let mut i: usize = 0;
    while i < parts.len()
        invariant
            i <= parts.len(),
            forall|k: int| 0 <= k < i ==> (parts@[k] == PathPart::Normal || parts@[k] == PathPart::CurDir),
        decreases parts.len() - i,
    {
        if !(parts[i] == PathPart::Normal || parts[i] == PathPart::CurDir) {
            return false;
        }
        i = i + 1;
    }
    true
}

} // verus!
