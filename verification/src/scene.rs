//! The open scene document, the Save As dialog, and the rules a saved
//! scene file must satisfy.

use vstd::prelude::*;

use crate::project_manager::model::{file_name, opt_view, spec_file_name};
use crate::path_ops::{path_join, spec_path_join};
use crate::text::{
    TrimSet, ascii_lower, ascii_lower_char, chars_between, chars_from, chars_of, contains_text,
    contains_text_exec, decimal, ends_with, find_exec, find_text, flat_map_chars, has_suffix,
    lemma_flat_map_step, lines_of, owned, push_char, push_chars, push_decimal, push_str,
    replace_exec, replace_text, spec_lines, str_equal, string_of, trim, trim_chars,
    trim_end_chars, trimmed, trimmed_end, hex_lower_digit, push_hex_lower, split_at_newlines,
    find_from, occurs_at, replace_char, replace_char_exec,
};
use crate::project_settings::{
    eq_ignore_ascii_case, eq_ignore_ascii_case_exec, parse_u32, path_extension, spec_parse_u32,
    spec_path_extension, spec_strip_prefix, strip_path_prefix,
};
use crate::undo::SceneHistory;
use crate::workspace::{
    EditorViewMode, SceneSpace, WorkspaceMode, WorkspaceSelections, WorkspaceState,
};
use crate::selection::Selection;

verus! {

/// The Save As dialog's state.
#[derive(Debug, Default)]
pub struct SaveDialogState {
    pub open: bool,
    pub folder: String,
    pub filename: String,
    pub error: String,
}

/// Document-level state of the open scene; the scene's entities live in
/// the editing world.
#[derive(Debug, Default)]
pub struct SceneDocument {
    pub open: bool,
    pub dirty: bool,
    pub path: Option<String>,
    pub name: String,
    pub dialog: SaveDialogState,
    pub revision: u64,
}

impl SceneDocument {
    pub open spec fn spec_revision(&self) -> u64 {
        self.revision
    }

    pub fn new() -> (r: Self)
        ensures
            !r.open,
            !r.dirty,
            r.path is None,
            r.name@.len() == 0,
            !r.dialog.open,
            r.dialog.folder@.len() == 0,
            r.dialog.filename@.len() == 0,
            r.dialog.error@.len() == 0,
            r.spec_revision() == 0,
    {
        SceneDocument {
            open: false,
            dirty: false,
            path: None,
            name: String::new(),
            dialog: SaveDialogState {
                open: false,
                folder: String::new(),
                filename: String::new(),
                error: String::new(),
            },
            revision: 0,
        }
    }

    pub fn revision(&self) -> (r: u64)
        ensures
            r == self.spec_revision(),
    {
        self.revision
    }

    /// Marks the document as changed for the chrome that mirrors it.
    pub fn bump_revision(&mut self)
        ensures
            final(self).spec_revision() == (if old(self).spec_revision() == u64::MAX {
                0
            } else {
                (old(self).spec_revision() + 1) as u64
            }),
            final(self).open == old(self).open,
            final(self).dirty == old(self).dirty,
            final(self).path == old(self).path,
            final(self).name == old(self).name,
            final(self).dialog == old(self).dialog,
    {
        self.revision = self.revision.wrapping_add(1);
    }

    pub fn save_dialog_open(&self) -> (r: bool)
        ensures
            r == self.dialog.open,
    {
        self.dialog.open
    }
}


// ---------------------------------------------------------------------
// The hierarchy a scene file must describe.
// ---------------------------------------------------------------------

/// What hierarchy validation reads of one loaded node: its stable id, its
/// parent's id, and its name for messages.
#[derive(Debug)]
pub struct SceneLink {
    pub id: u128,
    pub parent: Option<u128>,
    pub name: String,
}

pub struct SceneLinkView {
    pub id: u128,
    pub parent: Option<u128>,
    pub name: Seq<char>,
}

impl View for SceneLink {
    type V = SceneLinkView;

    open spec fn view(&self) -> SceneLinkView {
        SceneLinkView { id: self.id, parent: self.parent, name: self.name@ }
    }
}

pub open spec fn link_views(s: Seq<SceneLink>) -> Seq<SceneLinkView> {
    s.map_values(|n: SceneLink| n@)
}

/// Some node has the id `id`.
pub open spec fn has_id(nodes: Seq<SceneLinkView>, id: u128) -> bool {
    exists|i: int| 0 <= i < nodes.len() && #[trigger] nodes[i].id == id
}

/// The parent recorded for `id` by the last node with that id (the
/// id-to-parent table keeps the last entry), if any node has it.
pub open spec fn parent_entry(nodes: Seq<SceneLinkView>, id: u128) -> Option<Option<u128>>
    decreases nodes.len(),
{
    if nodes.len() == 0 {
        None
    } else if nodes.last().id == id {
        Some(nodes.last().parent)
    } else {
        parent_entry(nodes.drop_last(), id)
    }
}

/// One step up the hierarchy from `id`.
pub open spec fn step_up(nodes: Seq<SceneLinkView>, id: u128) -> Option<u128> {
    match parent_entry(nodes, id) {
        Some(p) => p,
        None => None,
    }
}

/// The `k`-th id on the way up from `start` (`start` itself at 0).
pub open spec fn walk_up(nodes: Seq<SceneLinkView>, start: u128, k: nat) -> Option<u128>
    decreases k,
{
    if k == 0 {
        Some(start)
    } else {
        match walk_up(nodes, start, (k - 1) as nat) {
            Some(id) => step_up(nodes, id),
            None => None,
        }
    }
}

/// The way up from `start` meets an id twice.
pub open spec fn walk_revisits(nodes: Seq<SceneLinkView>, start: u128) -> bool {
    exists|i: nat, j: nat|
        #![trigger walk_up(nodes, start, i), walk_up(nodes, start, j)]
        i < j && walk_up(nodes, start, i) is Some && walk_up(nodes, start, j) == walk_up(
            nodes,
            start,
            i,
        )
}

/// The way up from `start` passes `target`.
pub open spec fn walk_reaches(nodes: Seq<SceneLinkView>, start: u128, target: u128) -> bool {
    exists|k: nat| walk_up(nodes, start, k) == Some(target)
}

/// What is wrong with one node's link to its parent, if anything.
pub open spec fn link_error(nodes: Seq<SceneLinkView>, root: u128, n: SceneLinkView) -> Option<
    Seq<char>,
> {
    if n.id != root && n.parent is None {
        Some("entity "@ + n.name + " has no parent"@)
    } else if n.parent == Some(n.id) {
        Some("entity "@ + n.name + " cannot parent itself"@)
    } else if n.parent is Some && !has_id(nodes, n.parent->0) {
        Some("entity "@ + n.name + " references a missing parent"@)
    } else {
        None
    }
}

/// What is wrong with the way up from one node, if anything.
pub open spec fn chain_error(nodes: Seq<SceneLinkView>, root: u128, n: SceneLinkView) -> Option<
    Seq<char>,
> {
    if walk_revisits(nodes, n.id) {
        Some("scene hierarchy contains a cycle at "@ + n.name)
    } else if !walk_reaches(nodes, n.id, root) {
        Some("entity "@ + n.name + " is not connected to the root"@)
    } else {
        None
    }
}

/// The first error that `check` finds among `nodes[from..]`, in order.
pub open spec fn first_link_error(nodes: Seq<SceneLinkView>, root: u128, from: int) -> Option<
    Seq<char>,
>
    decreases nodes.len() - from,
{
    if from < 0 || from >= nodes.len() {
        None
    } else {
        match link_error(nodes, root, nodes[from]) {
            Some(e) => Some(e),
            None => first_link_error(nodes, root, from + 1),
        }
    }
}

pub open spec fn first_chain_error(nodes: Seq<SceneLinkView>, root: u128, from: int) -> Option<
    Seq<char>,
>
    decreases nodes.len() - from,
{
    if from < 0 || from >= nodes.len() {
        None
    } else {
        match chain_error(nodes, root, nodes[from]) {
            Some(e) => Some(e),
            None => first_chain_error(nodes, root, from + 1),
        }
    }
}

/// The index of the first node with id `id`.
pub open spec fn first_with_id(nodes: Seq<SceneLinkView>, id: u128, from: int) -> Option<int>
    decreases nodes.len() - from,
{
    if from < 0 || from >= nodes.len() {
        None
    } else if nodes[from].id == id {
        Some(from)
    } else {
        first_with_id(nodes, id, from + 1)
    }
}

/// The verdict on a loaded hierarchy: the root exists and has no parent;
/// every other node names an existing parent other than itself; and the
/// way up from every node ends at the root without meeting an id twice.
pub open spec fn spec_validate_hierarchy(root: u128, nodes: Seq<SceneLinkView>) -> Result<
    (),
    Seq<char>,
> {
    match first_with_id(nodes, root, 0) {
        None => Err("root entity is missing"@),
        Some(i) => if nodes[i].parent is Some {
            Err("root entity cannot have a parent"@)
        } else {
            match first_link_error(nodes, root, 0) {
                Some(e) => Err(e),
                None => match first_chain_error(nodes, root, 0) {
                    Some(e) => Err(e),
                    None => Ok(()),
                },
            }
        },
    }
}

proof fn lemma_no_link_error_from(nodes: Seq<SceneLinkView>, root: u128, from: int)
    requires
        0 <= from,
        first_link_error(nodes, root, from) is None,
    ensures
        forall|k: int| from <= k < nodes.len() ==> link_error(nodes, root, #[trigger] nodes[k]) is None,
    decreases nodes.len() - from,
{
    if from < nodes.len() {
        lemma_no_link_error_from(nodes, root, from + 1);
    }
}

proof fn lemma_no_chain_error_from(nodes: Seq<SceneLinkView>, root: u128, from: int)
    requires
        0 <= from,
        first_chain_error(nodes, root, from) is None,
    ensures
        forall|k: int| from <= k < nodes.len() ==> chain_error(nodes, root, #[trigger] nodes[k]) is None,
    decreases nodes.len() - from,
{
    if from < nodes.len() {
        lemma_no_chain_error_from(nodes, root, from + 1);
    }
}

/// A hierarchy that passes validation is a tree under the root: the root
/// is listed without a parent, every other node names a listed parent
/// other than itself, and the way up from every node reaches the root
/// without meeting an id twice.
pub proof fn lemma_valid_hierarchy_is_tree(root: u128, nodes: Seq<SceneLinkView>)
    requires
        spec_validate_hierarchy(root, nodes) is Ok,
    ensures
        exists|i: int| 0 <= i < nodes.len() && nodes[i].id == root && nodes[i].parent is None,
        forall|k: int|
            0 <= k < nodes.len() ==> (#[trigger] nodes[k]).id == root || (nodes[k].parent is Some
                && nodes[k].parent != Some(nodes[k].id) && has_id(nodes, nodes[k].parent->0)),
        forall|k: int|
            0 <= k < nodes.len() ==> walk_reaches(nodes, (#[trigger] nodes[k]).id, root)
                && !walk_revisits(nodes, nodes[k].id),
{
    lemma_first_with_id(nodes, root, 0);
    lemma_no_link_error_from(nodes, root, 0);
    lemma_no_chain_error_from(nodes, root, 0);
    assert forall|k: int| 0 <= k < nodes.len() implies (#[trigger] nodes[k]).id == root || (nodes[k].parent is Some
        && nodes[k].parent != Some(nodes[k].id) && has_id(nodes, nodes[k].parent->0)) by {
        assert(link_error(nodes, root, nodes[k]) is None);
    }
    assert forall|k: int| 0 <= k < nodes.len() implies walk_reaches(nodes, (#[trigger] nodes[k]).id, root)
        && !walk_revisits(nodes, nodes[k].id) by {
        assert(chain_error(nodes, root, nodes[k]) is None);
    }
}

/// Conversely, a tree under the root passes validation: when the first
/// node with the root's id has no parent, every node is either that root or
/// names a listed parent other than itself, and the way up from every node
/// reaches the root without meeting an id twice, the hierarchy is accepted.
pub proof fn lemma_tree_is_valid(root: u128, nodes: Seq<SceneLinkView>, first: int)
    requires
        0 <= first < nodes.len(),
        nodes[first].id == root,
        nodes[first].parent is None,
        forall|j: int| 0 <= j < first ==> (#[trigger] nodes[j]).id != root,
        forall|k: int|
            0 <= k < nodes.len() ==> ((#[trigger] nodes[k]).id == root && nodes[k].parent is None) || (
            nodes[k].parent is Some && nodes[k].parent != Some(nodes[k].id) && has_id(nodes, nodes[k].parent->0)),
        forall|k: int|
            0 <= k < nodes.len() ==> walk_reaches(nodes, (#[trigger] nodes[k]).id, root)
                && !walk_revisits(nodes, nodes[k].id),
    ensures
        spec_validate_hierarchy(root, nodes) is Ok,
{
    lemma_first_with_id_is(nodes, root, first, 0);
    assert forall|k: int| 0 <= k < nodes.len() implies link_error(nodes, root, #[trigger] nodes[k]) is None by {}
    assert forall|k: int| 0 <= k < nodes.len() implies chain_error(nodes, root, #[trigger] nodes[k]) is None by {}
    lemma_link_errors_none(nodes, root, 0);
    lemma_chain_errors_none(nodes, root, 0);
}

proof fn lemma_first_with_id_is(nodes: Seq<SceneLinkView>, id: u128, first: int, from: int)
    requires
        0 <= from <= first < nodes.len(),
        nodes[first].id == id,
        forall|j: int| 0 <= j < first ==> (#[trigger] nodes[j]).id != id,
    ensures
        first_with_id(nodes, id, from) == Some(first),
    decreases first - from,
{
    if from < first {
        assert(nodes[from].id != id);
        lemma_first_with_id_is(nodes, id, first, from + 1);
    }
}

proof fn lemma_link_errors_none(nodes: Seq<SceneLinkView>, root: u128, from: int)
    requires
        0 <= from,
        forall|k: int| 0 <= k < nodes.len() ==> link_error(nodes, root, #[trigger] nodes[k]) is None,
    ensures
        first_link_error(nodes, root, from) is None,
    decreases nodes.len() - from,
{
    if from < nodes.len() {
        assert(link_error(nodes, root, nodes[from]) is None);
        lemma_link_errors_none(nodes, root, from + 1);
    }
}

proof fn lemma_chain_errors_none(nodes: Seq<SceneLinkView>, root: u128, from: int)
    requires
        0 <= from,
        forall|k: int| 0 <= k < nodes.len() ==> chain_error(nodes, root, #[trigger] nodes[k]) is None,
    ensures
        first_chain_error(nodes, root, from) is None,
    decreases nodes.len() - from,
{
    if from < nodes.len() {
        assert(chain_error(nodes, root, nodes[from]) is None);
        lemma_chain_errors_none(nodes, root, from + 1);
    }
}

proof fn lemma_first_with_id(nodes: Seq<SceneLinkView>, id: u128, from: int)
    requires
        0 <= from,
    ensures
        match first_with_id(nodes, id, from) {
            Some(i) => from <= i < nodes.len() && nodes[i].id == id,
            None => true,
        },
    decreases nodes.len() - from,
{
    if from < nodes.len() && nodes[from].id != id {
        lemma_first_with_id(nodes, id, from + 1);
    }
}

fn message3(a: &str, b: &str, c: &str) -> (r: String)
    ensures
        r@ == a@ + b@ + c@,
{
    let mut r = owned(a);
    push_str(&mut r, b);
    push_str(&mut r, c);
    r
}

fn has_id_exec(nodes: &Vec<SceneLink>, id: u128) -> (r: bool)
    ensures
        r == has_id(link_views(nodes@), id),
{
    let mut i: usize = 0;
    while i < nodes.len()
        invariant
            i <= nodes.len(),
            forall|k: int| 0 <= k < i ==> nodes@[k].id != id,
        decreases nodes.len() - i,
    {
        if nodes[i].id == id {
            assert(link_views(nodes@)[i as int].id == id);
            return true;
        }
        i = i + 1;
    }
    assert forall|k: int| 0 <= k < nodes.len() implies #[trigger] link_views(nodes@)[k].id != id by {
        assert(link_views(nodes@)[k].id == nodes@[k].id);
    }
    false
}

fn step_up_exec(nodes: &Vec<SceneLink>, id: u128) -> (r: Option<u128>)
    ensures
        r == step_up(link_views(nodes@), id),
{
    let mut i: usize = nodes.len();
    assert(nodes@.take(nodes.len() as int) =~= nodes@);
    while i > 0
        invariant
            i <= nodes.len(),
            parent_entry(link_views(nodes@), id) == parent_entry(link_views(nodes@.take(i as int)), id),
        decreases i,
    {
        assert(link_views(nodes@.take(i as int)).drop_last() =~= link_views(nodes@.take(i - 1)));
        assert(link_views(nodes@.take(i as int)).last() == nodes@[i - 1]@);
        if nodes[i - 1].id == id {
            return nodes[i - 1].parent;
        }
        i = i - 1;
    }
    assert(link_views(nodes@.take(0)) =~= Seq::<SceneLinkView>::empty());
    None
}

proof fn lemma_walk_none_after(nodes: Seq<SceneLinkView>, start: u128, k: nat, m: nat)
    requires
        walk_up(nodes, start, k) is None,
        k <= m,
    ensures
        walk_up(nodes, start, m) is None,
    decreases m - k,
{
    if k < m {
        lemma_walk_none_after(nodes, start, k, (m - 1) as nat);
    }
}

proof fn lemma_step_up_member(nodes: Seq<SceneLinkView>, id: u128)
    ensures
        match parent_entry(nodes, id) {
            Some(p) => exists|i: int| 0 <= i < nodes.len() && #[trigger] nodes[i].id == id && nodes[i].parent == p,
            None => true,
        },
    decreases nodes.len(),
{
    if nodes.len() > 0 {
        if nodes.last().id == id {
            assert(nodes[nodes.len() - 1].id == id);
        } else {
            lemma_step_up_member(nodes.drop_last(), id);
            match parent_entry(nodes.drop_last(), id) {
                Some(p) => {
                    let i = choose|i: int| 0 <= i < nodes.drop_last().len() && #[trigger] nodes.drop_last()[i].id == id && nodes.drop_last()[i].parent == p;
                    assert(nodes[i] == nodes.drop_last()[i]);
                },
                None => {},
            }
        }
    }
}

/// A list without repeats drawn from `universe` is no longer than it.
proof fn lemma_distinct_within(s: Seq<u128>, universe: Seq<u128>)
    requires
        s.no_duplicates(),
        forall|i: int| 0 <= i < s.len() ==> universe.contains(#[trigger] s[i]),
    ensures
        s.len() <= universe.len(),
{
    s.unique_seq_to_set();
    universe.lemma_cardinality_of_set();
    assert(s.to_set().subset_of(universe.to_set())) by {
        assert forall|x: u128| s.to_set().contains(x) implies universe.to_set().contains(x) by {
            let i = choose|i: int| 0 <= i < s.len() && s[i] == x;
            assert(universe.contains(s[i]));
        }
    }
    vstd::set_lib::lemma_len_subset(s.to_set(), universe.to_set());
}

#[verifier::loop_isolation(false)]
/// Walks up from `start` and reports whether the way meets an id twice
/// and whether it passes `root`.
fn walk_from(nodes: &Vec<SceneLink>, start: u128, root: u128) -> (r: (bool, bool))
    requires
        forall|i: int|
            0 <= i < nodes.len() ==> match #[trigger] nodes@[i].parent {
                Some(p) => has_id(link_views(nodes@), p),
                None => true,
            },
    ensures
        r.0 == walk_revisits(link_views(nodes@), start),
        !r.0 ==> r.1 == walk_reaches(link_views(nodes@), start, root),
{
    let ghost g = link_views(nodes@);
    let ghost universe = g.map_values(|n: SceneLinkView| n.id).push(start);
    let mut seen: Vec<u128> = Vec::new();
    let mut current: Option<u128> = Some(start);
    let mut k: usize = 0;
    assert(universe.contains(start)) by {
        assert(universe[universe.len() - 1] == start);
    }
    loop
        invariant
            g == link_views(nodes@),
            universe == g.map_values(|n: SceneLinkView| n.id).push(start),
            forall|i: int|
                0 <= i < nodes.len() ==> match #[trigger] nodes@[i].parent {
                    Some(p) => has_id(g, p),
                    None => true,
                },
            seen.len() == k,
            k <= universe.len(),
            seen@.no_duplicates(),
            forall|t: int| 0 <= t < k ==> walk_up(g, start, t as nat) == Some(#[trigger] seen@[t]),
            forall|t: int| 0 <= t < k ==> universe.contains(#[trigger] seen@[t]),
            current == walk_up(g, start, k as nat),
            current is Some ==> universe.contains(current->0),
        decreases universe.len() - k,
    {
        let id = match current {
            Some(id) => id,
            None => {
                proof {
                    lemma_walk_none_after(g, start, k as nat, k as nat);
                    assert forall|i: nat, j: nat| #![trigger walk_up(g, start, i), walk_up(g, start, j)]
                        i < j && walk_up(g, start, i) is Some implies walk_up(g, start, j) != walk_up(g, start, i) by {
                        if j >= k {
                            lemma_walk_none_after(g, start, k as nat, j);
                        } else {
                            assert(seen@[i as int] != seen@[j as int]);
                        }
                    }
                }
                let mut reached = false;
                let mut t: usize = 0;
                while t < seen.len()
                    invariant
                        t <= seen.len(),
                        reached == exists|u: int| 0 <= u < t && seen@[u] == root,
                    decreases seen.len() - t,
                {
                    if seen[t] == root {
                        reached = true;
                    }
                    t = t + 1;
                }
                proof {
                    if reached {
                        let u = choose|u: int| 0 <= u < seen.len() && seen@[u] == root;
                        assert(walk_up(g, start, u as nat) == Some(root));
                    } else {
                        assert forall|m: nat| walk_up(g, start, m) != Some(root) by {
                            if m >= k {
                                lemma_walk_none_after(g, start, k as nat, m);
                            } else {
                                assert(seen@[m as int] != root);
                            }
                        }
                    }
                }
                return (false, reached);
            },
        };
        let mut t: usize = 0;
        while t < seen.len()
            invariant
                t <= seen.len(),
                forall|u: int| 0 <= u < t ==> seen@[u] != id,
            decreases seen.len() - t,
        {
            if seen[t] == id {
                proof {
                    assert(walk_up(g, start, t as nat) == walk_up(g, start, k as nat));
                }
                return (true, false);
            }
            t = t + 1;
        }
        let ghost prev = seen@;
        seen.push(id);
        proof {
            assert forall|a: int, b: int| 0 <= a < seen.len() && 0 <= b < seen.len() && a != b implies seen@[a] != seen@[b] by {
                if a == k {
                    assert(prev[b] != id);
                } else if b == k {
                    assert(prev[a] != id);
                } else {
                    assert(prev[a] != prev[b]);
                }
            }
            lemma_distinct_within(seen@, universe);
        }
        let next = step_up_exec(nodes, id);
        proof {
            lemma_step_up_member(g, id);
            match next {
                Some(p) => {
                    let i = choose|i: int| 0 <= i < g.len() && #[trigger] g[i].id == id && g[i].parent == Some(p);
                    assert(g[i] == nodes@[i]@);
                    assert(has_id(g, p));
                    let j = choose|j: int| 0 <= j < g.len() && #[trigger] g[j].id == p;
                    assert(universe[j] == p);
                },
                None => {},
            }
        }
        current = next;
        k = seen.len();
    }
}

/// Checks a loaded scene hierarchy (see `spec_validate_hierarchy`).
#[verifier::loop_isolation(false)]
pub fn validate_hierarchy(root: u128, nodes: &Vec<SceneLink>) -> (r: Result<(), String>)
    ensures
        match r {
            Ok(()) => spec_validate_hierarchy(root, link_views(nodes@)) == Ok::<(), Seq<char>>(()),
            Err(e) => spec_validate_hierarchy(root, link_views(nodes@)) == Err::<(), Seq<char>>(e@),
        },
{
    let ghost g = link_views(nodes@);
    // The root.
    let mut i: usize = 0;
    while i < nodes.len() && nodes[i].id != root
        invariant
            i <= nodes.len(),
            g == link_views(nodes@),
            first_with_id(g, root, 0) == first_with_id(g, root, i as int),
        decreases nodes.len() - i,
    {
        i = i + 1;
    }
    if i == nodes.len() {
        return Err(owned("root entity is missing"));
    }
    assert(g[i as int] == nodes@[i as int]@);
    assert(first_with_id(g, root, i as int) == Some(i as int));
    if nodes[i].parent.is_some() {
        return Err(owned("root entity cannot have a parent"));
    }
    // Every node's link to its parent.
    let mut j: usize = 0;
    while j < nodes.len()
        invariant
            j <= nodes.len(),
            g == link_views(nodes@),
            first_link_error(g, root, 0) == first_link_error(g, root, j as int),
            forall|k: int| 0 <= k < j ==> link_error(g, root, #[trigger] g[k]) is None,
        decreases nodes.len() - j,
    {
        let n = &nodes[j];
        assert(g[j as int] == n@);
        assert(first_link_error(g, root, j as int) == match link_error(g, root, g[j as int]) {
            Some(e) => Some(e),
            None => first_link_error(g, root, j + 1),
        });
        if n.id != root && n.parent.is_none() {
            return Err(message3("entity ", n.name.as_str(), " has no parent"));
        }
        if let Some(p) = n.parent {
            if p == n.id {
                return Err(message3("entity ", n.name.as_str(), " cannot parent itself"));
            }
            if !has_id_exec(nodes, p) {
                return Err(message3("entity ", n.name.as_str(), " references a missing parent"));
            }
        }
        j = j + 1;
    }
    assert forall|k: int| 0 <= k < nodes.len() implies match #[trigger] nodes@[k].parent {
        Some(p) => has_id(g, p),
        None => true,
    } by {
        assert(g[k] == nodes@[k]@);
        assert(link_error(g, root, g[k]) is None);
    }
    // Every node's way up.
    let mut m: usize = 0;
    while m < nodes.len()
        invariant
            m <= nodes.len(),
            g == link_views(nodes@),
            first_link_error(g, root, 0) is None,
            first_chain_error(g, root, 0) == first_chain_error(g, root, m as int),
            forall|k: int|
                0 <= k < nodes.len() ==> match #[trigger] nodes@[k].parent {
                    Some(p) => has_id(g, p),
                    None => true,
                },
        decreases nodes.len() - m,
    {
        let n = &nodes[m];
        assert(g[m as int] == n@);
        assert(first_chain_error(g, root, m as int) == match chain_error(g, root, g[m as int]) {
            Some(e) => Some(e),
            None => first_chain_error(g, root, m + 1),
        });
        let (revisits, reaches) = walk_from(nodes, n.id, root);
        if revisits {
            let mut e = owned("scene hierarchy contains a cycle at ");
            push_str(&mut e, n.name.as_str());
            return Err(e);
        }
        if !reaches {
            return Err(message3("entity ", n.name.as_str(), " is not connected to the root"));
        }
        m = m + 1;
    }
    Ok(())
}


/// The extension scene files are saved with.
pub const SCENE_EXTENSION: &'static str = ".bsn";

// ---------------------------------------------------------------------
// Scene entity spaces.
// ---------------------------------------------------------------------

pub open spec fn is_2d_kind(kind: Seq<char>) -> bool {
    kind == "2d"@ || kind == "empty2d"@ || kind == "collision_rect2d"@ || kind == "sprite2d"@
        || kind == "camera2d"@ || kind == "empty_ui"@ || kind == "panel"@ || kind == "text"@
        || kind == "button"@ || kind == "image"@
}

pub open spec fn is_3d_kind(kind: Seq<char>) -> bool {
    kind == "3d"@ || kind == "empty3d"@ || kind == "mesh3d"@ || kind == "camera3d"@ || kind
        == "directional_light3d"@ || kind == "point_light3d"@ || kind == "spot_light3d"@
}

/// The space of a scene entity: its explicit `space` (`2d` or `3d`) when
/// given, otherwise the space its kind implies. Logical kinds (`empty`,
/// `animation_player`) need an explicit space.
pub open spec fn spec_parse_node_space(kind: Seq<char>, explicit: Option<Seq<char>>) -> Result<
    SceneSpace,
    Seq<char>,
> {
    match explicit {
        Some(space) => if space == "2d"@ {
            Ok(SceneSpace::TwoD)
        } else if space == "3d"@ {
            Ok(SceneSpace::ThreeD)
        } else {
            Err("unsupported entity space: "@ + space)
        },
        None => if is_2d_kind(kind) {
            Ok(SceneSpace::TwoD)
        } else if is_3d_kind(kind) {
            Ok(SceneSpace::ThreeD)
        } else if kind == "empty"@ || kind == "animation_player"@ {
            Err("logical "@ + kind + " entity requires an explicit space"@)
        } else {
            Err("unsupported scene kind: "@ + kind)
        },
    }
}

/// An explicit space decides, whatever the kind: `2d` is 2D, `3d` is 3D,
/// and any other explicit space is refused with it named. An entity of
/// kind `2d` or `3d` without an explicit space gets that space too.
pub proof fn lemma_explicit_space_decides(kind: Seq<char>, other: Seq<char>)
    ensures
        spec_parse_node_space(kind, Some("2d"@)) == Ok::<SceneSpace, Seq<char>>(SceneSpace::TwoD),
        spec_parse_node_space(kind, Some("3d"@)) == Ok::<SceneSpace, Seq<char>>(SceneSpace::ThreeD),
        other != "2d"@ && other != "3d"@ ==> spec_parse_node_space(kind, Some(other))
            == Err::<SceneSpace, Seq<char>>("unsupported entity space: "@ + other),
        spec_parse_node_space("2d"@, None) == Ok::<SceneSpace, Seq<char>>(SceneSpace::TwoD),
        spec_parse_node_space("3d"@, None) == Ok::<SceneSpace, Seq<char>>(SceneSpace::ThreeD),
{
    reveal_strlit("2d");
    reveal_strlit("3d");
    reveal_strlit("empty2d");
    reveal_strlit("collision_rect2d");
    reveal_strlit("sprite2d");
    reveal_strlit("camera2d");
    reveal_strlit("empty_ui");
    reveal_strlit("panel");
    reveal_strlit("text");
    reveal_strlit("button");
    reveal_strlit("image");
    assert("3d"@[0] != "2d"@[0]);
    assert("3d"@ != "2d"@);
    assert(!is_2d_kind("3d"@));
}

/// The kinds that are 2D without an explicit space.
pub open spec fn flat_kinds() -> Seq<Seq<char>> {
    seq![
        "2d"@, "empty2d"@, "collision_rect2d"@, "sprite2d"@, "camera2d"@, "empty_ui"@, "panel"@,
        "text"@, "button"@, "image"@,
    ]
}

/// The kinds that are 3D without an explicit space.
pub open spec fn deep_kinds() -> Seq<Seq<char>> {
    seq![
        "3d"@, "empty3d"@, "mesh3d"@, "camera3d"@, "directional_light3d"@, "point_light3d"@,
        "spot_light3d"@,
    ]
}

/// Without an explicit space, the kinds of the 2D table are 2D, those of
/// the 3D table are 3D, the logical kinds `empty` and `animation_player`
/// ask for an explicit space, and any other kind is refused.
pub proof fn lemma_kind_spaces(kind: Seq<char>)
    ensures
        flat_kinds().contains(kind) ==> spec_parse_node_space(kind, None) == Ok::<
            SceneSpace,
            Seq<char>,
        >(SceneSpace::TwoD),
        deep_kinds().contains(kind) ==> spec_parse_node_space(kind, None) == Ok::<
            SceneSpace,
            Seq<char>,
        >(SceneSpace::ThreeD),
        (kind == "empty"@ || kind == "animation_player"@) ==> spec_parse_node_space(kind, None)
            == Err::<SceneSpace, Seq<char>>(
            "logical "@ + kind + " entity requires an explicit space"@,
        ),
        !flat_kinds().contains(kind) && !deep_kinds().contains(kind) && kind != "empty"@ && kind
            != "animation_player"@ ==> spec_parse_node_space(kind, None) == Err::<
            SceneSpace,
            Seq<char>,
        >("unsupported scene kind: "@ + kind),
{
    reveal_strlit("2d");
    reveal_strlit("empty2d");
    reveal_strlit("collision_rect2d");
    reveal_strlit("sprite2d");
    reveal_strlit("camera2d");
    reveal_strlit("empty_ui");
    reveal_strlit("panel");
    reveal_strlit("text");
    reveal_strlit("button");
    reveal_strlit("image");
    reveal_strlit("3d");
    reveal_strlit("empty3d");
    reveal_strlit("mesh3d");
    reveal_strlit("camera3d");
    reveal_strlit("directional_light3d");
    reveal_strlit("point_light3d");
    reveal_strlit("spot_light3d");
    reveal_strlit("empty");
    reveal_strlit("animation_player");
    let f = flat_kinds();
    let d = deep_kinds();
    if f.contains(kind) {
        let i = choose|i: int| 0 <= i < f.len() && f[i] == kind;
        assert(is_2d_kind(kind));
    }
    assert forall|i: int| 0 <= i < f.len() implies f[i][f[i].len() - 2] != '3' && f[i].len() >= 2 by {}
    assert forall|i: int| 0 <= i < d.len() implies d[i][d[i].len() - 2] == '3' && d[i].len() >= 2 && d[i].last() == 'd' by {}
    assert forall|i: int| 0 <= i < f.len() implies f[i].last() != 'y' && f[i].last() != 'r' by {}
    if d.contains(kind) {
        let i = choose|i: int| 0 <= i < d.len() && d[i] == kind;
        assert(is_3d_kind(kind));
        assert forall|k: int| 0 <= k < f.len() implies f[k] != kind by {
            assert(f[k][f[k].len() - 2] != kind[kind.len() - 2]);
        }
        assert(!is_2d_kind(kind)) by {
            assert(f[0] != kind);
            assert(f[1] != kind);
            assert(f[2] != kind);
            assert(f[3] != kind);
            assert(f[4] != kind);
            assert(f[5] != kind);
            assert(f[6] != kind);
            assert(f[7] != kind);
            assert(f[8] != kind);
            assert(f[9] != kind);
        }
    }
    if is_2d_kind(kind) {
        if kind == "2d"@ { assert(f[0] == kind); }
        if kind == "empty2d"@ { assert(f[1] == kind); }
        if kind == "collision_rect2d"@ { assert(f[2] == kind); }
        if kind == "sprite2d"@ { assert(f[3] == kind); }
        if kind == "camera2d"@ { assert(f[4] == kind); }
        if kind == "empty_ui"@ { assert(f[5] == kind); }
        if kind == "panel"@ { assert(f[6] == kind); }
        if kind == "text"@ { assert(f[7] == kind); }
        if kind == "button"@ { assert(f[8] == kind); }
        if kind == "image"@ { assert(f[9] == kind); }
    }
    if is_3d_kind(kind) {
        if kind == "3d"@ { assert(d[0] == kind); }
        if kind == "empty3d"@ { assert(d[1] == kind); }
        if kind == "mesh3d"@ { assert(d[2] == kind); }
        if kind == "camera3d"@ { assert(d[3] == kind); }
        if kind == "directional_light3d"@ { assert(d[4] == kind); }
        if kind == "point_light3d"@ { assert(d[5] == kind); }
        if kind == "spot_light3d"@ { assert(d[6] == kind); }
    }
    if kind == "empty"@ || kind == "animation_player"@ {
        assert(kind.last() == 'y' || kind.last() == 'r');
        assert forall|k: int| 0 <= k < f.len() implies f[k] != kind by {
            assert(f[k].last() != kind.last());
        }
        assert forall|k: int| 0 <= k < d.len() implies d[k] != kind by {
            assert(d[k].last() != kind.last());
        }
        assert(!is_2d_kind(kind)) by {
            assert(f[0] != kind);
            assert(f[1] != kind);
            assert(f[2] != kind);
            assert(f[3] != kind);
            assert(f[4] != kind);
            assert(f[5] != kind);
            assert(f[6] != kind);
            assert(f[7] != kind);
            assert(f[8] != kind);
            assert(f[9] != kind);
        }
        assert(!is_3d_kind(kind)) by {
            assert(d[0] != kind);
            assert(d[1] != kind);
            assert(d[2] != kind);
            assert(d[3] != kind);
            assert(d[4] != kind);
            assert(d[5] != kind);
            assert(d[6] != kind);
        }
    }
}

pub open spec fn space_result_view(r: Result<SceneSpace, String>) -> Result<SceneSpace, Seq<char>> {
    match r {
        Ok(s) => Ok(s),
        Err(e) => Err(e@),
    }
}

fn one_of(kind: &str, options: &[&str]) -> (r: bool)
    ensures
        r == exists|i: int| 0 <= i < options@.len() && kind@ == (#[trigger] options@[i])@,
{
    let mut i: usize = 0;
    while i < options.len()
        invariant
            i <= options.len(),
            forall|k: int| 0 <= k < i ==> kind@ != (#[trigger] options@[k])@,
        decreases options.len() - i,
    {
        if str_equal(kind, options[i]) {
            return true;
        }
        i = i + 1;
    }
    false
}

pub fn parse_node_space(kind: &str, explicit_space: Option<&str>) -> (r: Result<SceneSpace, String>)
    ensures
        space_result_view(r) == spec_parse_node_space(
            kind@,
            match explicit_space {
                Some(s) => Some(s@),
                None => None,
            },
        ),
{
    if let Some(space) = explicit_space {
        if str_equal(space, "2d") {
            return Ok(SceneSpace::TwoD);
        } else if str_equal(space, "3d") {
            return Ok(SceneSpace::ThreeD);
        } else {
            let mut e = owned("unsupported entity space: ");
            push_str(&mut e, space);
            return Err(e);
        }
    }
    let two_d: [&str; 10] = ["2d", "empty2d", "collision_rect2d", "sprite2d", "camera2d", "empty_ui", "panel", "text", "button", "image"];
    let three_d: [&str; 7] = ["3d", "empty3d", "mesh3d", "camera3d", "directional_light3d", "point_light3d", "spot_light3d"];
    let is_two = one_of(kind, two_d.as_slice());
    proof {
        assert(is_two == is_2d_kind(kind@)) by {
            if is_2d_kind(kind@) {
                if kind@ == "2d"@ { assert(kind@ == two_d@[0]@); }
                if kind@ == "empty2d"@ { assert(kind@ == two_d@[1]@); }
                if kind@ == "collision_rect2d"@ { assert(kind@ == two_d@[2]@); }
                if kind@ == "sprite2d"@ { assert(kind@ == two_d@[3]@); }
                if kind@ == "camera2d"@ { assert(kind@ == two_d@[4]@); }
                if kind@ == "empty_ui"@ { assert(kind@ == two_d@[5]@); }
                if kind@ == "panel"@ { assert(kind@ == two_d@[6]@); }
                if kind@ == "text"@ { assert(kind@ == two_d@[7]@); }
                if kind@ == "button"@ { assert(kind@ == two_d@[8]@); }
                if kind@ == "image"@ { assert(kind@ == two_d@[9]@); }
            }
        }
    }
    if is_two {
        return Ok(SceneSpace::TwoD);
    }
    let is_three = one_of(kind, three_d.as_slice());
    proof {
        assert(is_three == is_3d_kind(kind@)) by {
            if is_3d_kind(kind@) {
                if kind@ == "3d"@ { assert(kind@ == three_d@[0]@); }
                if kind@ == "empty3d"@ { assert(kind@ == three_d@[1]@); }
                if kind@ == "mesh3d"@ { assert(kind@ == three_d@[2]@); }
                if kind@ == "camera3d"@ { assert(kind@ == three_d@[3]@); }
                if kind@ == "directional_light3d"@ { assert(kind@ == three_d@[4]@); }
                if kind@ == "point_light3d"@ { assert(kind@ == three_d@[5]@); }
                if kind@ == "spot_light3d"@ { assert(kind@ == three_d@[6]@); }
            }
        }
    }
    if is_three {
        return Ok(SceneSpace::ThreeD);
    }
    if str_equal(kind, "empty") || str_equal(kind, "animation_player") {
        let mut e = owned("logical ");
        push_str(&mut e, kind);
        push_str(&mut e, " entity requires an explicit space");
        Err(e)
    } else {
        let mut e = owned("unsupported scene kind: ");
        push_str(&mut e, kind);
        Err(e)
    }
}

/// The workspace a scene opens in: the one matching its root's space.
pub fn workspace_mode(space: SceneSpace) -> (r: WorkspaceMode)
    ensures
        r == (match space {
            SceneSpace::TwoD => WorkspaceMode::TwoD,
            SceneSpace::ThreeD => WorkspaceMode::ThreeD,
        }),
{
    match space {
        SceneSpace::TwoD => WorkspaceMode::TwoD,
        SceneSpace::ThreeD => WorkspaceMode::ThreeD,
    }
}

// ---------------------------------------------------------------------
// Scene ids.
// ---------------------------------------------------------------------

/// The text form of a stable scene id: 32 lower-case hexadecimal digits.
pub open spec fn spec_id_text(id: u128) -> Seq<char> {
    Seq::new(32, |i: int| hex_lower_digit(((id as nat) / pow16((31 - i) as nat)) % 16))
}

pub open spec fn pow16(n: nat) -> nat
    decreases n,
{
    if n == 0 {
        1
    } else {
        16 * pow16((n - 1) as nat)
    }
}

/// `id` as 32 lower-case hexadecimal digits.
pub fn id_text(id: u128) -> (r: String)
    ensures
        r@ == spec_id_text(id),
{
    let mut digits: Vec<char> = Vec::new();
    let mut rest: u128 = id;
    let mut k: usize = 0;
    assert(pow16(0) == 1);
    assert((id as nat) / 1 == id as nat);
    while k < 32
        invariant
            k <= 32,
            digits.len() == k,
            rest as nat == (id as nat) / pow16(k as nat),
            forall|j: int| 0 <= j < k ==> #[trigger] digits@[j] == hex_lower_digit(((id as nat) / pow16(j as nat)) % 16),
        decreases 32 - k,
    {
        let d = (rest % 16) as u32;
        let c = crate::text::hex_digit(d);
        digits.push(c);
        proof {
            assert(pow16((k + 1) as nat) == 16 * pow16(k as nat));
            assert(pow16(k as nat) > 0) by {
                lemma_pow16_pos(k as nat);
            }
            vstd::arithmetic::div_mod::lemma_div_denominator(id as int, pow16(k as nat) as int, 16);
        }
        rest = rest / 16;
        k = k + 1;
    }
    let mut out = String::new();
    let mut i: usize = 32;
    while i > 0
        invariant
            i <= 32,
            digits.len() == 32,
            out@.len() == 32 - i,
            forall|j: int| 0 <= j < 32 - i ==> #[trigger] out@[j] == digits@[31 - j],
        decreases i,
    {
        push_char(&mut out, digits[i - 1]);
        i = i - 1;
    }
    assert(out@ =~= spec_id_text(id));
    out
}

proof fn lemma_pow16_pos(n: nat)
    ensures
        pow16(n) > 0,
    decreases n,
{
    if n > 0 {
        lemma_pow16_pos((n - 1) as nat);
    }
}

/// Rejects a scene whose entities repeat an id, naming the first repeat.
pub fn check_unique_ids(ids: &Vec<u128>) -> (r: Result<(), String>)
    ensures
        match r {
            Ok(()) => ids@.no_duplicates(),
            Err(e) => exists|j: int|
                0 <= j < ids.len() && ids@.take(j).contains(#[trigger] ids@[j]) && (forall|k: int|
                    0 <= k < j ==> !ids@.take(k).contains(#[trigger] ids@[k])) && e@
                    == "duplicate scene entity ID: "@ + spec_id_text(ids@[j]),
        },
{
    let mut j: usize = 0;
    while j < ids.len()
        invariant
            j <= ids.len(),
            ids@.take(j as int).no_duplicates(),
            forall|k: int| 0 <= k < j ==> !ids@.take(k).contains(#[trigger] ids@[k]),
        decreases ids.len() - j,
    {
        let mut i: usize = 0;
        while i < j
            invariant
                i <= j,
                j < ids.len(),
                forall|t: int| 0 <= t < i ==> ids@[t] != ids@[j as int],
                forall|k: int| 0 <= k < j ==> !ids@.take(k).contains(#[trigger] ids@[k]),
            decreases j - i,
        {
            if ids[i] == ids[j] {
                proof {
                    assert(ids@.take(j as int)[i as int] == ids@[j as int]);
                    assert(ids@.take(j as int).contains(ids@[j as int]));
                }
                let mut e = owned("duplicate scene entity ID: ");
                let text = id_text(ids[j]);
                push_str(&mut e, text.as_str());
                return Err(e);
            }
            i = i + 1;
        }
        proof {
            assert(!ids@.take(j as int).contains(ids@[j as int])) by {
                if ids@.take(j as int).contains(ids@[j as int]) {
                    let t = choose|t: int| 0 <= t < j && ids@.take(j as int)[t] == ids@[j as int];
                    assert(ids@[t] == ids@[j as int]);
                }
            }
            let next = ids@.take(j + 1);
            assert forall|a: int, b: int| 0 <= a < next.len() && 0 <= b < next.len() && a != b implies next[a] != next[b] by {
                if a == j {
                    assert(ids@.take(j as int)[b] == next[b]);
                } else if b == j {
                    assert(ids@.take(j as int)[a] == next[a]);
                } else {
                    assert(ids@.take(j as int)[a] == next[a] && ids@.take(j as int)[b] == next[b]);
                }
            }
        }
        j = j + 1;
    }
    assert(ids@.take(ids.len() as int) =~= ids@);
    Ok(())
}

// ---------------------------------------------------------------------
// Scene file names and RON text.
// ---------------------------------------------------------------------

/// The file name a scene is saved under: the trimmed input, with `.bsn`
/// appended unless it already ends in it (compared ignoring ASCII case).
/// Empty input and folder paths are refused.
pub open spec fn spec_normalize_scene_filename(value: Seq<char>) -> Result<Seq<char>, Seq<char>> {
    let name = trimmed(value, TrimSet::Whitespace);
    if name.len() == 0 {
        Err("Enter a scene file name."@)
    } else if name.contains('/') || name.contains('\\') || name == "."@ || name == ".."@ {
        Err("Use a file name, not a folder path."@)
    } else if has_suffix(name.map_values(|c: char| ascii_lower(c)), ".bsn"@) {
        Ok(name)
    } else {
        Ok(name + ".bsn"@)
    }
}

/// Normalizing a scene file name that was already normalized gives it
/// back unchanged.
pub proof fn lemma_normalize_scene_filename_idempotent(value: Seq<char>)
    requires
        spec_normalize_scene_filename(value) is Ok,
    ensures
        spec_normalize_scene_filename(spec_normalize_scene_filename(value)->Ok_0)
            == spec_normalize_scene_filename(value),
{
    reveal_strlit(".bsn");
    reveal_strlit(".");
    reveal_strlit("..");
    let name = trimmed(value, TrimSet::Whitespace);
    crate::text::lemma_trimmed_ends(value, TrimSet::Whitespace);
    let n = spec_normalize_scene_filename(value)->Ok_0;
    let suffix = ".bsn"@;
    if n == name {
        crate::text::lemma_trimmed_fixed(name, TrimSet::Whitespace);
    } else {
        assert(n == name + suffix);
        assert(n[0] == name[0]);
        assert(n.last() == 'n');
        crate::text::lemma_trimmed_fixed(n, TrimSet::Whitespace);
        assert(!n.contains('/')) by {
            if n.contains('/') {
                let k = choose|k: int| 0 <= k < n.len() && n[k] == '/';
                if k < name.len() {
                    assert(name[k] == n[k]);
                }
            }
        }
        assert(!n.contains('\\')) by {
            if n.contains('\\') {
                let k = choose|k: int| 0 <= k < n.len() && n[k] == '\\';
                if k < name.len() {
                    assert(name[k] == n[k]);
                }
            }
        }
        assert(n != "."@ && n != ".."@) by {
            assert(n.len() >= 5);
        }
        let lower = n.map_values(|c: char| ascii_lower(c));
        assert(lower.skip(lower.len() - 4) =~= suffix) by {
            assert(lower[lower.len() - 4] == ascii_lower(n[n.len() - 4]));
            assert(n[n.len() - 4] == '.');
            assert(n[n.len() - 3] == 'b');
            assert(n[n.len() - 2] == 's');
            assert(n[n.len() - 1] == 'n');
        }
    }
}

pub open spec fn string_result(r: Result<String, String>) -> Result<Seq<char>, Seq<char>> {
    match r {
        Ok(v) => Ok(v@),
        Err(e) => Err(e@),
    }
}

fn contains_char(v: &Vec<char>, c: char) -> (r: bool)
    ensures
        r == v@.contains(c),
{
    let mut i: usize = 0;
    while i < v.len()
        invariant
            i <= v.len(),
            forall|k: int| 0 <= k < i ==> v@[k] != c,
        decreases v.len() - i,
    {
        if v[i] == c {
            assert(v@[i as int] == c);
            return true;
        }
        i = i + 1;
    }
    false
}

pub fn normalize_scene_filename(value: &str) -> (r: Result<String, String>)
    ensures
        string_result(r) == spec_normalize_scene_filename(value@),
{
    let v = chars_of(value);
    let name = trim_chars(&v, TrimSet::Whitespace);
    if name.len() == 0 {
        return Err(owned("Enter a scene file name."));
    }
    let dot = chars_of(".");
    let dots = chars_of("..");
    proof {
        reveal_strlit(".");
        reveal_strlit("..");
    }
    if contains_char(&name, '/') || contains_char(&name, '\\') || crate::text::chars_equal(&name, &dot)
        || crate::text::chars_equal(&name, &dots) {
        return Err(owned("Use a file name, not a folder path."));
    }
    let mut lower: Vec<char> = Vec::new();
    let mut i: usize = 0;
    while i < name.len()
        invariant
            i <= name.len(),
            lower@ == name@.take(i as int).map_values(|c: char| ascii_lower(c)),
        decreases name.len() - i,
    {
        lower.push(ascii_lower_char(name[i]));
        assert(name@.take(i + 1).map_values(|c: char| ascii_lower(c)) =~= name@.take(i as int).map_values(
            |c: char| ascii_lower(c),
        ).push(ascii_lower(name@[i as int])));
        i = i + 1;
    }
    assert(name@.take(name.len() as int) =~= name@);
    let ext = chars_of(".bsn");
    let mut out = string_of(&name);
    if !ends_with(&lower, &ext) {
        push_str(&mut out, ".bsn");
    }
    Ok(out)
}

pub open spec fn ron_escape_char(c: char) -> Seq<char> {
    if c == '\\' {
        seq!['\\', '\\']
    } else if c == '"' {
        seq!['\\', '"']
    } else if c == '\n' {
        seq!['\\', 'n']
    } else {
        seq![c]
    }
}

/// Text escaped for a RON string.
pub open spec fn ron_escaped(s: Seq<char>) -> Seq<char> {
    flat_map_chars(s, |c: char| ron_escape_char(c))
}

/// Escapes text for a RON string: backslashes, quotes and line feeds.
pub fn ron_string(value: &str) -> (r: String)
    ensures
        r@ == ron_escaped(value@),
{
    let v = chars_of(value);
    let mut out = String::new();
    let mut i: usize = 0;
    while i < v.len()
        invariant
            i <= v.len(),
            out@ == flat_map_chars(v@.take(i as int), |c: char| ron_escape_char(c)),
        decreases v.len() - i,
    {
        let c = v[i];
        proof {
            lemma_flat_map_step(v@, |c: char| ron_escape_char(c), i as int);
        }
        if c == '\\' {
            push_char(&mut out, '\\');
            push_char(&mut out, '\\');
        } else if c == '"' {
            push_char(&mut out, '\\');
            push_char(&mut out, '"');
        } else if c == '\n' {
            push_char(&mut out, '\\');
            push_char(&mut out, 'n');
        } else {
            push_char(&mut out, c);
        }
        assert(out@ == flat_map_chars(v@.take(i as int), |c: char| ron_escape_char(c))
            + ron_escape_char(c));
        i = i + 1;
    }
    assert(v@.take(v.len() as int) =~= v@);
    out
}


// ---------------------------------------------------------------------
// Document transitions.
// ---------------------------------------------------------------------

/// A file's name as the scene tab shows it, with a fallback.
pub open spec fn display_name(path: Seq<char>, fallback: Seq<char>) -> Seq<char> {
    match spec_file_name(path) {
        Some(n) => n,
        None => fallback,
    }
}

fn display_name_exec(path: &str, fallback: &str) -> (r: String)
    ensures
        r@ == display_name(path@, fallback@),
{
    match file_name(path) {
        Some(n) => n,
        None => owned(fallback),
    }
}

/// The two-field picture of where a scene will be written.
pub open spec fn spec_save_folder(path: Option<Seq<char>>, folder: Seq<char>) -> Result<
    Option<Seq<char>>,
    Seq<char>,
> {
    match path {
        Some(_) => Ok(None),
        None => {
            let f = trimmed(folder, TrimSet::Whitespace);
            if f.len() == 0 {
                Err("Choose a folder for this scene."@)
            } else if f[0] != '/' {
                Err("Choose an absolute scene folder or use Browse."@)
            } else {
                Ok(Some(f))
            }
        },
    }
}

pub open spec fn folder_result(r: Result<Option<String>, String>) -> Result<Option<Seq<char>>, Seq<char>> {
    match r {
        Ok(Some(f)) => Ok(Some(f@)),
        Ok(None) => Ok(None),
        Err(e) => Err(e@),
    }
}

/// The path a new scene is written to: the dialog's file name, normalized,
/// inside `folder`.
pub open spec fn spec_new_scene_path(folder: Seq<char>, filename: Seq<char>) -> Result<Seq<char>, Seq<char>> {
    match spec_normalize_scene_filename(filename) {
        Ok(name) => Ok(spec_path_join(folder, name)),
        Err(e) => Err(e),
    }
}

pub fn new_scene_path(folder: &str, filename: &str) -> (r: Result<String, String>)
    ensures
        string_result(r) == spec_new_scene_path(folder@, filename@),
{
    match normalize_scene_filename(filename) {
        Ok(name) => Ok(path_join(folder, name.as_str())),
        Err(e) => Err(e),
    }
}

/// Ctrl+S saves the scene (or asks where to save it).
pub fn save_shortcut(control: bool, s_pressed: bool) -> (r: bool)
    ensures
        r == (control && s_pressed),
{
    control && s_pressed
}

/// The message when a scene without a root is saved.
pub fn require_scene_root(has_root: bool) -> (r: Result<(), String>)
    ensures
        match r {
            Ok(()) => has_root,
            Err(e) => !has_root && e@ == "Create a 2D or 3D scene root before saving."@,
        },
{
    if has_root {
        Ok(())
    } else {
        Err(owned("Create a 2D or 3D scene root before saving."))
    }
}

impl SceneDocument {
    /// Where a save writes: `None` when the document already has a path,
    /// otherwise the Save As dialog's folder (trimmed), which must be absolute.
    pub fn save_folder(&self) -> (r: Result<Option<String>, String>)
        ensures
            folder_result(r) == spec_save_folder(opt_view(self.path), self.dialog.folder@),
    {
        if self.path.is_some() {
            return Ok(None);
        }
        let folder = trim(self.dialog.folder.as_str());
        let v = chars_of(folder.as_str());
        if v.len() == 0 {
            return Err(owned("Choose a folder for this scene."));
        }
        if v[0] != '/' {
            return Err(owned("Choose an absolute scene folder or use Browse."));
        }
        Ok(Some(folder))
    }

    /// The scene was written to its existing path.
    pub fn finish_save_existing(&mut self)
        ensures
            !final(self).dirty,
            final(self).dialog.error@.len() == 0,
            final(self).revision == crate::undo::next_revision(old(self).revision),
            final(self).open == old(self).open,
            final(self).path == old(self).path,
            final(self).name == old(self).name,
            final(self).dialog.open == old(self).dialog.open,
            final(self).dialog.folder == old(self).dialog.folder,
            final(self).dialog.filename == old(self).dialog.filename,
    {
        self.dirty = false;
        self.dialog.error = String::new();
        self.revision = self.revision.wrapping_add(1);
    }

    /// The scene was written to the new file `path` from the Save As dialog.
    pub fn finish_save_as(&mut self, path: String)
        ensures
            opt_view(final(self).path) == Some(path@),
            final(self).name@ == display_name(path@, "untitled.bsn"@),
            !final(self).dirty,
            !final(self).dialog.open,
            final(self).dialog.error@.len() == 0,
            final(self).revision == crate::undo::next_revision(old(self).revision),
            final(self).open == old(self).open,
    {
        self.name = display_name_exec(path.as_str(), "untitled.bsn");
        self.path = Some(path);
        self.dirty = false;
        self.dialog.open = false;
        self.dialog.error = String::new();
        self.revision = self.revision.wrapping_add(1);
    }

    /// A save failed: the dialog opens with the error.
    pub fn show_save_error(&mut self, error: String)
        ensures
            final(self).dialog.open,
            final(self).dialog.error@ == error@,
            final(self).revision == crate::undo::next_revision(old(self).revision),
            final(self).dirty == old(self).dirty,
            final(self).path == old(self).path,
    {
        self.dialog.open = true;
        self.dialog.error = error;
        self.revision = self.revision.wrapping_add(1);
    }

    /// Opens the Save As dialog in the project's `assets/scenes` folder,
    /// suggesting `untitled.bsn` when no file name has been typed.
    pub fn request_save(&mut self, project_root: &str)
        ensures
            final(self).dialog.open,
            final(self).dialog.folder@ == spec_path_join(spec_path_join(project_root@, "assets"@), "scenes"@),
            final(self).dialog.filename@ == (if trimmed(old(self).dialog.filename@, TrimSet::Whitespace).len() == 0 {
                "untitled.bsn"@
            } else {
                old(self).dialog.filename@
            }),
            final(self).dialog.error@.len() == 0,
            final(self).revision == crate::undo::next_revision(old(self).revision),
            final(self).dirty == old(self).dirty,
            final(self).path == old(self).path,
    {
        self.dialog.open = true;
        let assets = path_join(project_root, "assets");
        self.dialog.folder = path_join(assets.as_str(), "scenes");
        let typed = trim(self.dialog.filename.as_str());
        if typed.unicode_len() == 0 {
            self.dialog.filename = owned("untitled.bsn");
        }
        self.dialog.error = String::new();
        self.revision = self.revision.wrapping_add(1);
    }

    /// Closes the Save As dialog without saving.
    pub fn cancel_dialog(&mut self)
        ensures
            !final(self).dialog.open,
            final(self).dialog.error@.len() == 0,
            final(self).revision == crate::undo::next_revision(old(self).revision),
            final(self).dirty == old(self).dirty,
            final(self).path == old(self).path,
            final(self).open == old(self).open,
    {
        self.dialog.open = false;
        self.dialog.error = String::new();
        self.revision = self.revision.wrapping_add(1);
    }

    /// Escape closes the Save As dialog when it is open.
    pub fn escape(&mut self)
        ensures
            old(self).dialog.open ==> !final(self).dialog.open && final(self).dialog.error@.len() == 0
                && final(self).revision == crate::undo::next_revision(old(self).revision),
            !old(self).dialog.open ==> *final(self) == *old(self),
            final(self).dirty == old(self).dirty,
            final(self).path == old(self).path,
            final(self).open == old(self).open,
    {
        if self.dialog.open {
            self.cancel_dialog();
        }
    }

    /// A scene file at `path` was opened.
    pub fn finish_open(&mut self, path: String)
        ensures
            final(self).open,
            !final(self).dirty,
            opt_view(final(self).path) == Some(path@),
            final(self).name@ == display_name(path@, "Untitled Level"@),
            !final(self).dialog.open,
            final(self).dialog.error@.len() == 0,
            final(self).revision == crate::undo::next_revision(old(self).revision),
    {
        self.name = display_name_exec(path.as_str(), "Untitled Level");
        self.path = Some(path);
        self.open = true;
        self.dirty = false;
        self.dialog.open = false;
        self.dialog.error = String::new();
        self.revision = self.revision.wrapping_add(1);
    }
}

/// Why a requested scene did not open.
pub enum OpenSceneFailure {
    /// No scene file exists at the requested path inside the project.
    NotFound,
    /// Reading or decoding the file failed, with the reason.
    LoadFailed(String),
    /// The file holds no root entity.
    RootMissing,
}

/// The file system panel's status line and its revision.
pub struct FileSystemState {
    pub status: String,
    pub revision: u64,
}

/// The status line for a scene that did not open; `relative` is the
/// requested path with `/` separators.
pub open spec fn open_failure_status(relative: Seq<char>, failure: OpenSceneFailure) -> Seq<char> {
    match failure {
        OpenSceneFailure::NotFound => "Scene not found: "@ + relative,
        OpenSceneFailure::LoadFailed(e) => "Open scene failed: "@ + e@,
        OpenSceneFailure::RootMissing => "Open scene failed: root entity is missing"@,
    }
}

impl FileSystemState {
    /// Reports that the scene requested at `relative_path` (as given, with
    /// `\\` or `/` separators) did not open.
    pub fn report_open_failure(&mut self, relative_path: &str, failure: OpenSceneFailure)
        ensures
            final(self).status@ == open_failure_status(replace_char(relative_path@, '\\', '/'), failure),
            final(self).revision == crate::undo::next_revision(old(self).revision),
    {
        let v = chars_of(relative_path);
        let relative = replace_char_exec(&v, '\\', '/');
        let mut s = String::new();
        match failure {
            OpenSceneFailure::NotFound => {
                push_str(&mut s, "Scene not found: ");
                push_chars(&mut s, &relative);
                proof {
                    reveal_strlit("Scene not found: ");
                }
            },
            OpenSceneFailure::LoadFailed(e) => {
                push_str(&mut s, "Open scene failed: ");
                push_str(&mut s, e.as_str());
                proof {
                    reveal_strlit("Open scene failed: ");
                }
            },
            OpenSceneFailure::RootMissing => {
                push_str(&mut s, "Open scene failed: root entity is missing");
            },
        }
        self.status = s;
        self.revision = self.revision.wrapping_add(1);
    }
}

/// Closing the scene: the document empties, the workspace returns to 2D
/// with nothing selected or remembered, and the history is asked to clear.
pub fn close_scene(
    document: &mut SceneDocument,
    workspace: &mut WorkspaceState,
    history: &mut SceneHistory,
)
    requires
        old(history).wf(),
    ensures
        !final(document).open,
        !final(document).dirty,
        final(document).path is None,
        final(document).name@.len() == 0,
        !final(document).dialog.open,
        final(document).dialog.error@.len() == 0,
        final(document).revision == crate::undo::next_revision(old(document).revision),
        final(workspace).mode == WorkspaceMode::TwoD,
        final(workspace).view == EditorViewMode::TwoD,
        final(workspace).selection == Selection(None),
        final(workspace).saved == (WorkspaceSelections { two_d: None, three_d: None }),
        final(history).wf(),
        final(history)@.request == Some(crate::undo::HistoryRequest::Clear),
{
    workspace.mode = WorkspaceMode::TwoD;
    workspace.view = EditorViewMode::TwoD;
    workspace.selection = Selection(None);
    workspace.saved = WorkspaceSelections { two_d: None, three_d: None };
    document.open = false;
    document.dirty = false;
    document.path = None;
    document.name = String::new();
    document.dialog.open = false;
    document.dialog.error = String::new();
    document.revision = document.revision.wrapping_add(1);
    history.request_clear();
}

/// After a scene opens: its root is selected and remembered for the
/// scene's workspace, whose view becomes active.
pub fn apply_opened_scene(workspace: &mut WorkspaceState, mode: WorkspaceMode, root: u64)
    ensures
        final(workspace).mode == mode,
        final(workspace).view == (match mode {
            WorkspaceMode::TwoD => EditorViewMode::TwoD,
            WorkspaceMode::ThreeD => EditorViewMode::ThreeD,
        }),
        final(workspace).selection == Selection(Some(root)),
        final(workspace).saved == crate::workspace::saved_with(old(workspace).saved, mode, Some(root)),
{
    workspace.mode = mode;
    workspace.view = match mode {
        WorkspaceMode::TwoD => EditorViewMode::TwoD,
        WorkspaceMode::ThreeD => EditorViewMode::ThreeD,
    };
    workspace.selection = Selection(Some(root));
    workspace.saved.set(mode, Some(root));
}

// ---------------------------------------------------------------------
// Reading scene files.
// ---------------------------------------------------------------------

/// The number after `key` on a line (`key: 7,`): the text after the first
/// `key`, trimmed, without trailing commas, read as a `u32`.
pub open spec fn spec_unsigned_value(line: Seq<char>, key: Seq<char>) -> Option<u32> {
    match find_text(line, key) {
        None => None,
        Some(i) => spec_parse_u32(
            trimmed_end(trimmed(line.skip(i + key.len()), TrimSet::Whitespace), TrimSet::Comma),
        ),
    }
}

pub fn unsigned_value(line: &str, key: &str) -> (r: Option<u32>)
    ensures
        r == spec_unsigned_value(line@, key@),
{
    let l = chars_of(line);
    let k = chars_of(key);
    let found = find_exec(&l, &k);
    let start = match found {
        Some(i) => i,
        None => {
            return None;
        },
    };
    let key_len = k.len();
    assert(start + key_len <= l.len());
    let rest = chars_from(&l, start + key_len);
    let t = trim_chars(&rest, TrimSet::Whitespace);
    let u = trim_end_chars(&t, TrimSet::Comma);
    parse_u32(&u)
}

/// The text between the first pair of double quotes after `key` on a
/// line, with `\"` read as `"` and then `\\` as `\`.
pub open spec fn spec_quoted_value(line: Seq<char>, key: Seq<char>) -> Option<Seq<char>> {
    match find_text(line, key) {
        None => None,
        Some(i) => {
            let value = line.skip(i + key.len());
            match find_text(value, seq!['"']) {
                None => None,
                Some(first) => {
                    let rest = value.skip(first + 1);
                    match find_text(rest, seq!['"']) {
                        None => None,
                        Some(end) => Some(
                            replace_text(
                                replace_text(rest.take(end), seq!['\\', '"'], seq!['"']),
                                seq!['\\', '\\'],
                                seq!['\\'],
                            ),
                        ),
                    }
                },
            }
        },
    }
}

pub fn quoted_value(line: &str, key: &str) -> (r: Option<String>)
    ensures
        match r {
            Some(v) => spec_quoted_value(line@, key@) == Some(v@),
            None => spec_quoted_value(line@, key@) is None,
        },
{
    let l = chars_of(line);
    let k = chars_of(key);
    let quote: Vec<char> = vec!['"'];
    let found = find_exec(&l, &k);
    let start = match found {
        Some(i) => i,
        None => {
            return None;
        },
    };
    assert(start + k@.len() <= l@.len());
    assert(start + k.len() <= l.len());
    let after: usize = start + k.len();
    let value = chars_from(&l, after);
    assert(quote@ =~= seq!['"']);
    assert(value@ =~= line@.skip(start + key@.len()));
    let first = match find_exec(&value, &quote) {
        Some(i) => i,
        None => {
            return None;
        },
    };
    let rest = chars_from(&value, first + 1);
    assert(rest@ =~= value@.skip(first + 1));
    let end = match find_exec(&rest, &quote) {
        Some(i) => i,
        None => {
            return None;
        },
    };
    let inner = chars_between(&rest, 0, end);
    assert(inner@ =~= rest@.take(end as int));
    let escaped_quote: Vec<char> = vec!['\\', '"'];
    let escaped_backslash: Vec<char> = vec!['\\', '\\'];
    let backslash: Vec<char> = vec!['\\'];
    assert(escaped_quote@ =~= seq!['\\', '"']);
    assert(escaped_backslash@ =~= seq!['\\', '\\']);
    assert(backslash@ =~= seq!['\\']);
    let once = replace_exec(&inner, &escaped_quote, &quote);
    let twice = replace_exec(&once, &escaped_backslash, &backslash);
    Some(string_of(&twice))
}

/// The first `format_version:` number among the lines.
pub open spec fn first_version(lines: Seq<Seq<char>>) -> Option<u32>
    decreases lines.len(),
{
    if lines.len() == 0 {
        None
    } else {
        match spec_unsigned_value(lines[0], "format_version:"@) {
            Some(v) => Some(v),
            None => first_version(lines.drop_first()),
        }
    }
}

/// How a scene file is read.
#[derive(Clone, Copy, Debug, PartialEq, Eq, Structural)]
pub enum SceneLoader {
    /// A `.bsn` scene.
    Bsn,
    /// The first, line-based format.
    Legacy,
    /// The second format written as RON.
    RonV2,
}

/// The loader for a scene file: `.bsn` files (any letter case) are BSN;
/// otherwise the first `format_version:` line decides (1 when there is
/// none): 1 is the legacy format, 2 is RON when the text names a format
/// version and BSN otherwise, and other versions are refused.
pub open spec fn spec_scene_loader(path: Seq<char>, source: Seq<char>) -> Result<SceneLoader, Seq<char>> {
    let bsn = match spec_path_extension(path) {
        Some(ext) => eq_ignore_ascii_case(ext, "bsn"@),
        None => false,
    };
    if bsn {
        Ok(SceneLoader::Bsn)
    } else {
        let version = match first_version(spec_lines(source)) {
            Some(v) => v,
            None => 1,
        };
        if version == 1 {
            Ok(SceneLoader::Legacy)
        } else if version == 2 {
            if contains_text(source, "format_version:"@) {
                Ok(SceneLoader::RonV2)
            } else {
                Ok(SceneLoader::Bsn)
            }
        } else {
            Err("unsupported scene format version: "@ + decimal(version as nat))
        }
    }
}

pub fn scene_loader(path: &str, source: &str) -> (r: Result<SceneLoader, String>)
    ensures
        match r {
            Ok(l) => spec_scene_loader(path@, source@) == Ok::<SceneLoader, Seq<char>>(l),
            Err(e) => spec_scene_loader(path@, source@) == Err::<SceneLoader, Seq<char>>(e@),
        },
{
    let bsn = match path_extension(path) {
        Some(ext) => {
            let e = chars_of(ext.as_str());
            let b = chars_of("bsn");
            eq_ignore_ascii_case_exec(&e, &b)
        },
        None => false,
    };
    if bsn {
        return Ok(SceneLoader::Bsn);
    }
    let lines = lines_of(source);
    let ghost all = spec_lines(source@);
    let mut found: Option<u32> = None;
    let mut i: usize = 0;
    assert(all.skip(0) =~= all);
    while i < lines.len() && found.is_none()
        invariant
            i <= lines.len(),
            lines@.len() == all.len(),
            forall|k: int| 0 <= k < lines@.len() ==> #[trigger] lines@[k]@ == all[k],
            found is None ==> first_version(all) == first_version(all.skip(i as int)),
            found is Some ==> first_version(all) == found,
        decreases lines.len() - i,
    {
        assert(all.skip(i as int)[0] == all[i as int]);
        assert(all.skip(i as int).drop_first() =~= all.skip(i + 1));
        found = unsigned_value(lines[i].as_str(), "format_version:");
        i = i + 1;
    }
    proof {
        if found is None {
            assert(all.skip(i as int).len() == 0);
        }
    }
    let version: u32 = match found {
        Some(v) => v,
        None => 1,
    };
    assert(version == match first_version(all) {
        Some(v) => v,
        None => 1u32,
    });
    if version == 1 {
        Ok(SceneLoader::Legacy)
    } else if version == 2 {
        let s = chars_of(source);
        let key = chars_of("format_version:");
        if contains_text_exec(&s, &key) {
            Ok(SceneLoader::RonV2)
        } else {
            Ok(SceneLoader::Bsn)
        }
    } else {
        let mut m = owned("unsupported scene format version: ");
        push_decimal(&mut m, version as u64);
        Err(m)
    }
}

/// The editor state file that remembers the last scene (its path relative
/// to the project, `/`-separated).
pub open spec fn spec_last_scene_text(relative: Seq<char>) -> Seq<char> {
    "(last_scene: \""@ + ron_escaped(relative) + "\")\n"@
}

pub fn last_scene_text(relative: &str) -> (r: String)
    ensures
        r@ == spec_last_scene_text(relative@),
{
    let mut s = owned("(last_scene: \"");
    let escaped = ron_string(relative);
    push_str(&mut s, escaped.as_str());
    push_str(&mut s, "\")\n");
    s
}

/// The path the state file records for the scene at `path` (`None`: no
/// scene is open): its path inside the project, `/`-separated, or nothing
/// when it is not inside the project.
pub open spec fn spec_remembered_scene(project_root: Seq<char>, path: Option<Seq<char>>) -> Seq<char> {
    match path {
        Some(p) => match spec_strip_prefix(p, project_root) {
            Some(rest) => replace_char(rest, '\\', '/'),
            None => Seq::empty(),
        },
        None => Seq::empty(),
    }
}

/// The state file's text remembering the scene at `path` as the last one.
pub fn last_scene_state(project_root: &str, path: Option<&str>) -> (r: String)
    ensures
        r@ == spec_last_scene_text(
            spec_remembered_scene(
                project_root@,
                match path {
                    Some(p) => Some(p@),
                    None => None,
                },
            ),
        ),
{
    let relative = match path {
        Some(p) => match strip_path_prefix(p, project_root) {
            Some(rest) => {
                let v = chars_of(rest.as_str());
                string_of(&replace_char_exec(&v, '\\', '/'))
            },
            None => String::new(),
        },
        None => String::new(),
    };
    last_scene_text(relative.as_str())
}

/// The first `last_scene:` value among the lines.
pub open spec fn first_last_scene(lines: Seq<Seq<char>>) -> Option<Seq<char>>
    decreases lines.len(),
{
    if lines.len() == 0 {
        None
    } else {
        match spec_quoted_value(lines[0], "last_scene:"@) {
            Some(v) => Some(v),
            None => first_last_scene(lines.drop_first()),
        }
    }
}

/// The last scene the state file names, if any.
pub fn last_scene_from(source: &str) -> (r: Option<String>)
    ensures
        match r {
            Some(v) => first_last_scene(spec_lines(source@)) == Some(v@),
            None => first_last_scene(spec_lines(source@)) is None,
        },
{
    let lines = lines_of(source);
    let ghost all = spec_lines(source@);
    let mut i: usize = 0;
    assert(all.skip(0) =~= all);
    while i < lines.len()
        invariant
            i <= lines.len(),
            lines@.len() == all.len(),
            forall|k: int| 0 <= k < lines@.len() ==> #[trigger] lines@[k]@ == all[k],
            all == spec_lines(source@),
            first_last_scene(all) == first_last_scene(all.skip(i as int)),
        decreases lines.len() - i,
    {
        assert(all.skip(i as int)[0] == all[i as int]);
        assert(all.skip(i as int).drop_first() =~= all.skip(i + 1));
        assert(lines@[i as int]@ == all[i as int]);
        match quoted_value(lines[i].as_str(), "last_scene:") {
            Some(v) => {
                assert(spec_quoted_value(all[i as int], "last_scene:"@) == Some(v@));
                assert(first_last_scene(all.skip(i as int)) == Some(v@));
                return Some(v);
            },
            None => {},
        }
        i = i + 1;
    }
    assert(all.skip(i as int).len() == 0);
    None
}

// ---------------------------------------------------------------------
// Reading back what was written.
// ---------------------------------------------------------------------

/// A line without line feeds is one piece.
proof fn lemma_split_no_newline(s: Seq<char>)
    requires
        forall|i: int| 0 <= i < s.len() ==> s[i] != '\n',
    ensures
        split_at_newlines(s) == seq![s],
    decreases s.len(),
{
    if s.len() == 0 {
        assert(s =~= Seq::<char>::empty());
    } else {
        let t = s.drop_last();
        assert forall|i: int| 0 <= i < t.len() implies t[i] != '\n' by {
            assert(t[i] == s[i]);
        }
        lemma_split_no_newline(t);
        assert(s.last() == s[s.len() - 1]);
        assert(t.push(s.last()) =~= s);
        let prev = split_at_newlines(t);
        assert(prev.len() == 1);
        assert(prev.last() == t);
        assert(prev.update(0, prev.last().push(s.last())) =~= seq![s]);
    }
}

/// A text made of one line and a final line feed has that one line.
proof fn lemma_single_line(line: Seq<char>)
    requires
        forall|i: int| 0 <= i < line.len() ==> line[i] != '\n',
        line.len() > 0,
        line.last() != '\r',
    ensures
        spec_lines(line.push('\n')) == seq![line],
{
    lemma_split_no_newline(line);
    assert(line.push('\n').drop_last() =~= line);
    let pieces = split_at_newlines(line.push('\n'));
    assert(pieces =~= seq![line, Seq::<char>::empty()]);
    assert(spec_lines(line.push('\n')) =~= seq![line]);
}

/// The first occurrence of a one-character key: none before `j`, one at `j`.
proof fn lemma_find_char_at(s: Seq<char>, c: char, i: int, j: int)
    requires
        0 <= i <= j < s.len(),
        s[j] == c,
        forall|k: int| i <= k < j ==> s[k] != c,
    ensures
        find_from(s, seq![c], i) == Some(j),
    decreases j - i,
{
    if i == j {
        assert(s.subrange(i, i + 1) =~= seq![c]);
    } else {
        assert(s.subrange(i, i + 1)[0] == s[i]);
        lemma_find_char_at(s, c, i + 1, j);
    }
}

/// Escaping for RON splits at the first character.
proof fn lemma_escape_front(r: Seq<char>)
    requires
        r.len() > 0,
    ensures
        ron_escaped(r) == ron_escape_char(r[0]) + ron_escaped(r.drop_first()),
    decreases r.len(),
{
    if r.len() > 1 {
        lemma_escape_front(r.drop_last());
        assert(r.drop_last().drop_first() =~= r.drop_first().drop_last());
        assert(r.drop_last()[0] == r[0]);
        assert(r.drop_first().last() == r.last());
    } else {
        assert(r.drop_first() =~= Seq::<char>::empty());
        assert(r.drop_last() =~= Seq::<char>::empty());
    }
}

/// Escaping a text without quotes or line feeds doubles its backslashes,
/// and reading `\\` back as `\` undoes it; no quote appears.
proof fn lemma_escape_read_back(r: Seq<char>)
    requires
        forall|i: int| 0 <= i < r.len() ==> r[i] != '"' && r[i] != '\n',
    ensures
        ({
            let e = ron_escaped(r);
            &&& forall|k: int| 0 <= k < e.len() ==> e[k] != '"'
            &&& replace_text(e, seq!['\\', '"'], seq!['"']) == e
            &&& replace_text(e, seq!['\\', '\\'], seq!['\\']) == r
        }),
    decreases r.len(),
{
    let e = ron_escaped(r);
    if r.len() == 0 {
        assert(e =~= Seq::<char>::empty());
    } else {
        let t = r.drop_first();
        assert forall|i: int| 0 <= i < t.len() implies t[i] != '"' && t[i] != '\n' by {
            assert(t[i] == r[i + 1]);
        }
        lemma_escape_read_back(t);
        lemma_escape_front(r);
        let et = ron_escaped(t);
        let head = ron_escape_char(r[0]);
        assert(e == head + et);
        assert forall|k: int| 0 <= k < e.len() implies e[k] != '"' by {
            if k >= head.len() {
                assert(e[k] == et[k - head.len()]);
            }
        }
        if r[0] == '\\' {
            assert(head =~= seq!['\\', '\\']);
            assert(e.subrange(0, 2) =~= seq!['\\', '\\']);
            assert(e.skip(2) =~= et);
            assert(!occurs_at(e, seq!['\\', '"'], 0)) by {
                assert(e.subrange(0, 2)[1] == '\\');
            }
            assert(e.skip(1) =~= seq!['\\'] + et);
            assert(!occurs_at(e.skip(1), seq!['\\', '"'], 0)) by {
                if e.skip(1).len() >= 2 {
                    assert(e.skip(1).subrange(0, 2)[1] == e[2]);
                }
            }
            let e1 = e.skip(1);
            assert(e1.skip(1) =~= et);
            assert(e1.len() > 0);
            let q = seq!['\\', '"'];
            let quote = seq!['"'];
            assert(replace_text(e1, q, quote) == seq![e1[0]] + replace_text(e1.skip(1), q, quote));
            assert(replace_text(e1, q, quote) =~= e1);
            assert(replace_text(e, q, quote) == seq![e[0]] + replace_text(e1, q, quote));
            assert(seq![e[0]] + e1 =~= e);
            assert(replace_text(e, q, quote) =~= e);
            assert(replace_text(e, seq!['\\', '\\'], seq!['\\']) =~= r);
        } else {
            assert(head =~= seq![r[0]]);
            assert(e.skip(1) =~= et);
            assert(!occurs_at(e, seq!['\\', '"'], 0)) by {
                if e.len() >= 2 {
                    assert(e.subrange(0, 2)[0] == r[0]);
                    if r[0] == '\\' {
                    }
                    assert(e.subrange(0, 2)[1] == e[1]);
                }
            }
            assert(!occurs_at(e, seq!['\\', '\\'], 0)) by {
                if e.len() >= 2 {
                    assert(e.subrange(0, 2)[0] == r[0]);
                }
            }
            assert(e.len() > 0);
            assert(replace_text(e, seq!['\\', '"'], seq!['"']) == seq![e[0]] + replace_text(
                e.skip(1),
                seq!['\\', '"'],
                seq!['"'],
            ));
            assert(replace_text(e, seq!['\\', '"'], seq!['"']) =~= e);
            assert(replace_text(e, seq!['\\', '\\'], seq!['\\']) == seq![e[0]] + replace_text(
                e.skip(1),
                seq!['\\', '\\'],
                seq!['\\'],
            ));
            assert(t =~= seq![r[0]].add(t).drop_first());
            assert(replace_text(e, seq!['\\', '\\'], seq!['\\']) =~= r);
        }
    }
}

/// The state file gives back the last scene written to it: reading the
/// text that `last_scene_text` writes for a relative path without quotes
/// or line feeds yields that path.
pub proof fn lemma_last_scene_round_trip(relative: Seq<char>)
    requires
        forall|i: int| 0 <= i < relative.len() ==> relative[i] != '"' && relative[i] != '\n',
    ensures
        first_last_scene(spec_lines(spec_last_scene_text(relative))) == Some(relative),
{
    reveal_strlit("(last_scene: \"");
    reveal_strlit("\")\n");
    reveal_strlit("last_scene:");
    let e = ron_escaped(relative);
    lemma_escape_read_back(relative);
    lemma_flat_map_no_newline(relative);
    let head = "(last_scene: \""@;
    let line = head + e + seq!['"', ')'];
    let text = spec_last_scene_text(relative);
    assert(text =~= line.push('\n'));
    assert forall|i: int| 0 <= i < line.len() implies line[i] != '\n' by {
        if head.len() <= i < head.len() + e.len() {
            assert(line[i] == e[i - head.len()]);
        }
    }
    lemma_single_line(line);
    assert(spec_lines(text) == seq![line]);
    let key = "last_scene:"@;
    assert(!occurs_at(line, key, 0)) by {
        assert(line.subrange(0, key.len() as int)[0] == '(');
    }
    assert(line.subrange(1, 1 + key.len() as int) =~= key);
    assert(occurs_at(line, key, 1));
    assert(find_from(line, key, 1) == Some(1int));
    assert(find_text(line, key) == Some(1int));
    let value = line.skip(1 + key.len() as int);
    assert(value =~= seq![' ', '"'] + e + seq!['"', ')']);
    lemma_find_char_at(value, '"', 0, 1);
    let rest = value.skip(2);
    assert(rest =~= e + seq!['"', ')']);
    lemma_find_char_at(rest, '"', 0, e.len() as int);
    assert(rest.take(e.len() as int) =~= e);
    assert(first_last_scene(seq![line]) == spec_quoted_value(line, key));
}

/// Escaping keeps line feeds out when the text has none.
proof fn lemma_flat_map_no_newline(r: Seq<char>)
    requires
        forall|i: int| 0 <= i < r.len() ==> r[i] != '"' && r[i] != '\n',
    ensures
        forall|k: int|
            0 <= k < ron_escaped(r).len() ==> #[trigger] ron_escaped(r)[k] != '\n',
    decreases r.len(),
{
    if r.len() > 0 {
        let t = r.drop_last();
        assert forall|i: int| 0 <= i < t.len() implies t[i] != '"' && t[i] != '\n' by {
            assert(t[i] == r[i]);
        }
        lemma_flat_map_no_newline(t);
        let et = ron_escaped(t);
        let tail = ron_escape_char(r.last());
        let e = ron_escaped(r);
        assert(e == et + tail);
        assert forall|k: int| 0 <= k < e.len() implies #[trigger] e[k] != '\n' by {
            if k >= et.len() {
                assert(e[k] == tail[k - et.len()]);
            } else {
                assert(e[k] == et[k]);
            }
        }
    }
}

} // verus!
