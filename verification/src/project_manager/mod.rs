//! The project manager: the list of recent projects, the state of the
//! manager window, and its dialogs.

pub mod model;

use vstd::prelude::*;

use crate::project_manager::model::{
    ProjectMetadata, ProjectSort, RecentProject, RecentProjectView, RecentProjects,
    first_path, lists_path, opt_view, relative_time_at, same_path, sort_ordered, sort_projects_by,
    metadata_result_view, spec_lowercase, spec_same_path, spec_project_from_disk,
    spec_relative_time, views,
};
use crate::text::{
    TrimSet, chars_of, contains_text, contains_text_exec, decimal, owned, push_char, push_decimal,
    push_str, trim, trimmed,
};

verus! {

/// The name `str::to_lowercase` gives; see the model's `lowercase`.
fn lowered(s: &str) -> (r: Vec<char>)
    ensures
        r@ == spec_lowercase(s@),
{
    let l = crate::project_manager::model::lowercase_text(s);
    chars_of(l.as_str())
}

/// A project matches the search text when the text (trimmed and
/// lower-cased) is empty or occurs in its lower-cased name or path.
pub open spec fn matches_search(p: RecentProjectView, search: Seq<char>) -> bool {
    search.len() == 0 || contains_text(spec_lowercase(p.name), search) || contains_text(
        spec_lowercase(p.path),
        search,
    )
}

pub open spec fn search_text(filter: Seq<char>) -> Seq<char> {
    spec_lowercase(trimmed(filter, TrimSet::Whitespace))
}

/// The projects matching `search`, in order.
pub open spec fn matching(s: Seq<RecentProjectView>, search: Seq<char>) -> Seq<RecentProjectView>
    decreases s.len(),
{
    if s.len() == 0 {
        Seq::empty()
    } else if matches_search(s.last(), search) {
        matching(s.drop_last(), search).push(s.last())
    } else {
        matching(s.drop_last(), search)
    }
}

proof fn lemma_matching_entries(s: Seq<RecentProjectView>, search: Seq<char>, x: RecentProjectView)
    ensures
        matching(s, search).contains(x) <==> s.contains(x) && matches_search(x, search),
    decreases s.len(),
{
    if s.len() > 0 {
        let t = s.drop_last();
        lemma_matching_entries(t, search, x);
        let m = matching(t, search);
        let r = matching(s, search);
        if matches_search(s.last(), search) {
            assert(r == m.push(s.last()));
        } else {
            assert(r == m);
        }
        if s.contains(x) && matches_search(x, search) {
            let i = choose|i: int| 0 <= i < s.len() && s[i] == x;
            if i < s.len() - 1 {
                assert(t[i] == x);
                assert(t.contains(x));
                assert(m.contains(x));
                let k = choose|k: int| 0 <= k < m.len() && m[k] == x;
                assert(r[k] == x);
            } else {
                assert(r[m.len() as int] == x);
            }
        }
        if r.contains(x) {
            let k = choose|k: int| 0 <= k < r.len() && r[k] == x;
            if matches_search(s.last(), search) && k == m.len() {
                assert(s[s.len() - 1] == x);
            } else {
                assert(m[k] == x);
                assert(m.contains(x));
                let i = choose|i: int| 0 <= i < t.len() && t[i] == x;
                assert(s[i] == x);
            }
        }
    }
}

/// The project list shows exactly the projects whose lower-cased name or
/// lower-cased folder path contains the search text (trimmed and
/// lower-cased), or all of them when that text is empty, whatever the
/// sort order.
pub proof fn lemma_search_finds_name_or_path(
    projects: Seq<RecentProjectView>,
    filter: Seq<char>,
    order: ProjectSort,
    p: RecentProjectView,
)
    requires
        projects.contains(p),
    ensures
        ({
            let search = spec_lowercase(trimmed(filter, TrimSet::Whitespace));
            sort_ordered(order, matching(projects, search_text(filter))).contains(p) <==> (search.len()
                == 0 || contains_text(spec_lowercase(p.name), search) || contains_text(
                spec_lowercase(p.path),
                search,
            ))
        }),
{
    lemma_matching_entries(projects, search_text(filter), p);
    crate::project_manager::model::lemma_sort_ordered_same_entries(
        order,
        matching(projects, search_text(filter)),
        p,
    );
}

/// Which dialog the manager shows.
#[derive(Clone, Copy, Debug, Default, PartialEq, Eq, Structural)]
pub enum DialogKind {
    #[default]
    Closed,
    Create,
    Import,
    Error,
}

/// The manager's dialog: its kind, its inputs, and an error with the
/// dialog to return to.
#[derive(Debug, Default)]
pub struct DialogState {
    pub kind: DialogKind,
    pub project_name: String,
    pub create_parent: String,
    pub import_path: String,
    pub error_title: String,
    pub error_message: String,
    pub error_return: DialogKind,
    pub revision: u64,
}

pub open spec fn next_revision(r: u64) -> u64 {
    crate::undo::next_revision(r)
}

impl DialogState {
    /// New Project: the name `My Game` under `default_parent`.
    pub fn show_create(&mut self, default_parent: String)
        ensures
            final(self).kind == DialogKind::Create,
            final(self).project_name@ == "My Game"@,
            final(self).create_parent@ == default_parent@,
            final(self).revision == next_revision(old(self).revision),
            final(self).import_path == old(self).import_path,
    {
        self.kind = DialogKind::Create;
        self.project_name = owned("My Game");
        self.create_parent = default_parent;
        self.revision = self.revision.wrapping_add(1);
    }

    /// Import: an empty path.
    pub fn show_import(&mut self)
        ensures
            final(self).kind == DialogKind::Import,
            final(self).import_path@.len() == 0,
            final(self).revision == next_revision(old(self).revision),
            final(self).project_name == old(self).project_name,
    {
        self.kind = DialogKind::Import;
        self.import_path = String::new();
        self.revision = self.revision.wrapping_add(1);
    }

    /// Closing an error returns to the dialog it interrupted; closing any
    /// other dialog shows none.
    pub fn close(&mut self)
        ensures
            final(self).kind == kind_after_close(old(self).kind, old(self).error_return),
            old(self).kind == DialogKind::Error ==> final(self).error_return == DialogKind::Closed,
            old(self).kind != DialogKind::Error ==> final(self).error_return == old(self).error_return,
            final(self).revision == next_revision(old(self).revision),
            final(self).project_name == old(self).project_name,
            final(self).import_path == old(self).import_path,
    {
        if self.kind == DialogKind::Error {
            self.kind = self.error_return;
            self.error_return = DialogKind::Closed;
        } else {
            self.kind = DialogKind::Closed;
        }
        self.revision = self.revision.wrapping_add(1);
    }

    /// Shows an error; closing it returns to Create or Import if one was open.
    pub fn show_error(&mut self, title: String, message: String)
        ensures
            final(self).kind == DialogKind::Error,
            final(self).error_return == error_return_for(old(self).kind),
            final(self).error_title@ == title@,
            final(self).error_message@ == message@,
            final(self).revision == next_revision(old(self).revision),
    {
        self.error_return = match self.kind {
            DialogKind::Create | DialogKind::Import => self.kind,
            DialogKind::Closed | DialogKind::Error => DialogKind::Closed,
        };
        self.kind = DialogKind::Error;
        self.error_title = title;
        self.error_message = message;
        self.revision = self.revision.wrapping_add(1);
    }

    /// Escape closes an open dialog.
    pub fn escape(&mut self)
        ensures
            old(self).kind == DialogKind::Closed ==> final(self).kind == DialogKind::Closed
                && final(self).revision == old(self).revision,
            old(self).kind != DialogKind::Closed ==> final(self).kind == (if old(self).kind
                == DialogKind::Error {
                old(self).error_return
            } else {
                DialogKind::Closed
            }),
    {
        if self.kind != DialogKind::Closed {
            self.close();
        }
    }
}

/// Closing an error dialog after it interrupted Create (or Import) brings
/// that dialog back, and closing that one shows no dialog.
/// The dialog an error returns to when it closes: the create or import
/// dialog it was shown over, else none.
pub open spec fn error_return_for(kind: DialogKind) -> DialogKind {
    if kind == DialogKind::Create || kind == DialogKind::Import {
        kind
    } else {
        DialogKind::Closed
    }
}

/// The dialog shown after closing: an error gives way to the dialog it
/// was shown over; anything else closes.
pub open spec fn kind_after_close(kind: DialogKind, error_return: DialogKind) -> DialogKind {
    if kind == DialogKind::Error {
        error_return
    } else {
        DialogKind::Closed
    }
}

/// Showing an error over the create or import dialog and closing it
/// returns to that dialog; an error shown over no dialog closes to none,
/// and closing again then closes everything.
pub proof fn lemma_error_returns_to_dialog(kind: DialogKind)
    ensures
        kind == DialogKind::Create || kind == DialogKind::Import ==> kind_after_close(
            DialogKind::Error,
            error_return_for(kind),
        ) == kind,
        !(kind == DialogKind::Create || kind == DialogKind::Import) ==> kind_after_close(
            DialogKind::Error,
            error_return_for(kind),
        ) == DialogKind::Closed,
        kind_after_close(kind_after_close(DialogKind::Error, error_return_for(kind)), DialogKind::Closed)
            == DialogKind::Closed,
{
}

/// The line under the Create or Import dialog.
pub fn validation_line(kind: DialogKind, result: Result<String, String>) -> (r: Option<Result<String, String>>)
    ensures
        match kind {
            DialogKind::Create => match result {
                Ok(_) => r matches Some(Ok(m)) && m@ == "Ready to create"@,
                Err(e) => r matches Some(Err(m)) && m@ == e@,
            },
            DialogKind::Import => match result {
                Ok(name) => r matches Some(Ok(m)) && m@ == "Found project: "@ + name@,
                Err(e) => r matches Some(Err(m)) && m@ == e@,
            },
            _ => r is None,
        },
{
    match kind {
        DialogKind::Create => match result {
            Ok(_) => Some(Ok(owned("Ready to create"))),
            Err(e) => Some(Err(e)),
        },
        DialogKind::Import => match result {
            Ok(name) => {
                let mut m = owned("Found project: ");
                push_str(&mut m, name.as_str());
                Some(Ok(m))
            },
            Err(e) => Some(Err(e)),
        },
        _ => None,
    }
}

/// The manager window's state: the list, the selected project, the
/// search text, the order, and the status line.
#[derive(Debug)]
pub struct ManagerState {
    pub recents: RecentProjects,
    pub selected: Option<String>,
    pub filter: String,
    pub sort: ProjectSort,
    pub status: String,
    pub revision: u64,
}

/// The path of the first entry whose path matches `path`.
pub open spec fn matching_path(windows: bool, s: Seq<RecentProjectView>, path: Seq<char>) -> Option<Seq<char>>
    decreases s.len(),
{
    if s.len() == 0 {
        None
    } else if spec_same_path(windows, s[0].path, path) {
        Some(s[0].path)
    } else {
        matching_path(windows, s.drop_first(), path)
    }
}

/// The status line for a list of `n` projects.
pub open spec fn count_status(n: nat) -> Seq<char> {
    if n == 0 {
        "Create or import a project to get started"@
    } else {
        decimal(n) + " project(s)"@
    }
}

fn matching_path_exec(windows: bool, v: &Vec<RecentProject>, path: &str) -> (r: Option<String>)
    ensures
        opt_view(r) == matching_path(windows, views(v@), path@),
{
    let mut i: usize = 0;
    assert(views(v@).skip(0) =~= views(v@));
    while i < v.len()
        invariant
            i <= v.len(),
            matching_path(windows, views(v@), path@) == matching_path(windows, views(v@).skip(i as int), path@),
        decreases v.len() - i,
    {
        assert(views(v@).skip(i as int)[0] == v@[i as int]@);
        assert(views(v@).skip(i as int).drop_first() =~= views(v@).skip(i + 1));
        if same_path(windows, v[i].path.as_str(), path) {
            return Some(v[i].path.clone());
        }
        i = i + 1;
    }
    None
}

impl ManagerState {
    /// The manager opens with the last project selected when it is still
    /// listed, otherwise the first project.
    pub fn new(recents: RecentProjects) -> (r: Self)
        ensures
            r.recents@ == recents@,
            opt_view(r.selected) == (match recents@.last_project {
                Some(last) => match matching_path(recents@.windows, recents@.projects, last) {
                    Some(p) => Some(p),
                    None => first_path(recents@.projects),
                },
                None => first_path(recents@.projects),
            }),
            r.filter@.len() == 0,
            r.sort == ProjectSort::LastOpened,
            r.status@ == count_status(recents@.projects.len()),
            r.revision == 1,
    {
        proof {
            assert(views(recents.projects@).skip(0) =~= views(recents.projects@));
        }
        let found = match &recents.last_project {
            Some(last) => matching_path_exec(recents.windows, &recents.projects, last.as_str()),
            None => None,
        };
        let selected = match found {
            Some(p) => Some(p),
            None => if recents.projects.len() > 0 {
                Some(recents.projects[0].path.clone())
            } else {
                None
            },
        };
        let status = if recents.projects.len() == 0 {
            owned("Create or import a project to get started")
        } else {
            let mut s = String::new();
            push_decimal(&mut s, recents.projects.len() as u64);
            push_str(&mut s, " project(s)");
            s
        };
        ManagerState {
            recents,
            selected,
            filter: String::new(),
            sort: ProjectSort::LastOpened,
            status,
            revision: 1,
        }
    }

    pub fn bump(&mut self)
        ensures
            final(self).revision == next_revision(old(self).revision),
            final(self).recents == old(self).recents,
            final(self).selected == old(self).selected,
            final(self).status == old(self).status,
            final(self).filter == old(self).filter,
            final(self).sort == old(self).sort,
    {
        self.revision = self.revision.wrapping_add(1);
    }

    /// The index of the selected project in the list.
    pub fn selected_project(&self) -> (r: Option<usize>)
        ensures
            match r {
                Some(i) => i < self.recents@.projects.len() && self.selected is Some
                    && spec_same_path(self.recents@.windows, self.recents@.projects[i as int].path, self.selected->0@)
                    && forall|j: int| 0 <= j < i ==> !spec_same_path(self.recents@.windows, 
                        #[trigger] self.recents@.projects[j].path,
                        self.selected->0@,
                    ),
                None => match self.selected {
                    Some(s) => !lists_path(self.recents@.windows, self.recents@.projects, s@),
                    None => true,
                },
            },
    {
        let selected = match &self.selected {
            Some(s) => s,
            None => {
                return None;
            },
        };
        let mut i: usize = 0;
        while i < self.recents.projects.len()
            invariant
                i <= self.recents.projects.len(),
                self.selected == Some(*selected),
                forall|k: int| 0 <= k < i ==> !spec_same_path(self.recents@.windows, #[trigger] self.recents@.projects[k].path, selected@),
            decreases self.recents.projects.len() - i,
        {
            assert(self.recents@.projects[i as int] == self.recents.projects@[i as int]@);
            if same_path(self.recents.windows, self.recents.projects[i].path.as_str(), selected.as_str()) {
                return Some(i);
            }
            i = i + 1;
        }
        None
    }

    /// The projects the list shows: those matching the search text, in the
    /// chosen order.
    pub fn visible_projects(&self) -> (r: Vec<RecentProject>)
        ensures
            views(r@) == sort_ordered(self.sort, matching(self.recents@.projects, search_text(self.filter@))),
    {
        let t = trim(self.filter.as_str());
        let search = lowered(t.as_str());
        let mut kept: Vec<RecentProject> = Vec::new();
        let mut i: usize = 0;
        while i < self.recents.projects.len()
            invariant
                i <= self.recents.projects.len(),
                search@ == search_text(self.filter@),
                views(kept@) == matching(views(self.recents.projects@.take(i as int)), search@),
            decreases self.recents.projects.len() - i,
        {
            let p = &self.recents.projects[i];
            let ghost prev = kept@;
            assert(views(self.recents.projects@.take(i + 1)).drop_last() =~= views(self.recents.projects@.take(i as int)));
            assert(views(self.recents.projects@.take(i + 1)).last() == p@);
            let name = lowered(p.name.as_str());
            let path = lowered(p.path.as_str());
            let keep = search.len() == 0 || contains_text_exec(&name, &search) || contains_text_exec(&path, &search);
            if keep {
                kept.push(p.duplicate());
                assert(views(kept@) =~= views(prev).push(p@));
            }
            i = i + 1;
        }
        assert(self.recents.projects@.take(self.recents.projects.len() as int) =~= self.recents.projects@);
        sort_projects_by(self.sort, &kept)
    }

    /// Toggles between the two orders.
    pub fn toggle_sort(&mut self)
        ensures
            final(self).sort == (if old(self).sort == ProjectSort::LastOpened {
                ProjectSort::Name
            } else {
                ProjectSort::LastOpened
            }),
            final(self).revision == next_revision(old(self).revision),
            final(self).recents@ == old(self).recents@,
            final(self).selected == old(self).selected,
            final(self).status == old(self).status,
            final(self).filter == old(self).filter,
    {
        self.sort = match self.sort {
            ProjectSort::LastOpened => ProjectSort::Name,
            ProjectSort::Name => ProjectSort::LastOpened,
        };
        self.bump();
    }

    /// Refresh: every record is re-read (`validations` as in
    /// `RecentProjects::refresh`) and the status counts them.
    pub fn refreshed(&mut self, validations: Vec<Result<ProjectMetadata, String>>)
        requires
            validations.len() == old(self).recents@.projects.len(),
        ensures
            final(self).recents@.projects.len() == old(self).recents@.projects.len(),
            forall|i: int|
                0 <= i < old(self).recents@.projects.len() ==> #[trigger] final(self).recents@.projects[i]
                    == spec_project_from_disk(
                    old(self).recents@.projects[i].path,
                    old(self).recents@.projects[i].last_opened,
                    metadata_result_view(validations@[i]),
                ),
            final(self).recents@.last_project == old(self).recents@.last_project,
            final(self).selected == old(self).selected,
            final(self).sort == old(self).sort,
            final(self).filter == old(self).filter,
            final(self).status@ == "Refreshed "@ + decimal(old(self).recents@.projects.len()) + " project(s)"@,
            final(self).revision == next_revision(old(self).revision),
    {
        self.recents.refresh(validations);
        let mut s = owned("Refreshed ");
        push_decimal(&mut s, self.recents.projects.len() as u64);
        push_str(&mut s, " project(s)");
        self.status = s;
        self.bump();
    }

    /// Remove: the selected record leaves the list (its files stay) and the
    /// first remaining project becomes selected. Returns whether anything
    /// changed (and the list should be saved).
    pub fn remove_selected(&mut self) -> (r: bool)
        ensures
            r == old(self).selected is Some,
            r ==> final(self).recents@.projects == crate::project_manager::model::without_path(old(self).recents@.windows, 
                old(self).recents@.projects,
                old(self).selected->0@,
            ) && opt_view(final(self).selected) == first_path(final(self).recents@.projects)
                && final(self).status@ == "Removed project from the list; files were not changed"@
                && final(self).revision == next_revision(old(self).revision),
            !r ==> final(self).recents@ == old(self).recents@ && final(self).status == old(self).status
                && final(self).revision == old(self).revision,
            final(self).sort == old(self).sort,
            final(self).filter == old(self).filter,
    {
        let path = match self.selected.take() {
            Some(p) => p,
            None => {
                return false;
            },
        };
        self.recents.remove(path.as_str());
        self.selected = if self.recents.projects.len() > 0 {
            Some(self.recents.projects[0].path.clone())
        } else {
            None
        };
        self.status = owned("Removed project from the list; files were not changed");
        self.bump();
        true
    }

    /// Remove Missing with the disk's answers in `missing` (one per
    /// record): the selection moves to the first project if its record
    /// left, and the status reports how many records left.
    pub fn remove_missing_records(&mut self, missing: &Vec<bool>) -> (removed: usize)
        requires
            missing.len() == old(self).recents.projects.len(),
        ensures
            final(self).recents@.projects == crate::project_manager::model::without_flagged(
                old(self).recents@.projects,
                missing@,
            ),
            removed == old(self).recents@.projects.len() - final(self).recents@.projects.len(),
            final(self).status@ == (if removed == 0 {
                "No missing project records"@
            } else {
                "Removed "@ + decimal(removed as nat) + " missing project record(s)"@
            }),
            final(self).revision == next_revision(old(self).revision),
            match old(self).selected {
                Some(s) => if lists_path(old(self).recents@.windows, final(self).recents@.projects, s@) {
                    final(self).selected == old(self).selected
                } else {
                    opt_view(final(self).selected) == first_path(final(self).recents@.projects)
                },
                None => final(self).selected is None,
            },
    {
        let removed = self.recents.remove_flagged(missing);
        let stale = match &self.selected {
            Some(selected) => {
                let mut found = false;
                let mut i: usize = 0;
                while i < self.recents.projects.len()
                    invariant
                        i <= self.recents.projects.len(),
                        found == exists|k: int| 0 <= k < i && spec_same_path(self.recents@.windows, #[trigger] self.recents@.projects[k].path, selected@),
                    decreases self.recents.projects.len() - i,
                {
                    assert(self.recents@.projects[i as int] == self.recents.projects@[i as int]@);
                    let hit = same_path(self.recents.windows, self.recents.projects[i].path.as_str(), selected.as_str());
                    assert(hit == spec_same_path(self.recents@.windows, self.recents@.projects[i as int].path, selected@));
                    if hit {
                        found = true;
                    }
                    i = i + 1;
                }
                !found
            },
            None => false,
        };
        if stale {
            self.selected = if self.recents.projects.len() > 0 {
                Some(self.recents.projects[0].path.clone())
            } else {
                None
            };
        }
        if removed == 0 {
            self.status = owned("No missing project records");
        } else {
            let mut s = owned("Removed ");
            push_decimal(&mut s, removed as u64);
            push_str(&mut s, " missing project record(s)");
            self.status = s;
        }
        self.bump();
        removed
    }

    /// A click on a project row selects it.
    pub fn select(&mut self, path: String)
        ensures
            opt_view(final(self).selected) == Some(path@),
            final(self).status@ == "Selected "@ + path@,
            final(self).revision == next_revision(old(self).revision),
            final(self).recents@ == old(self).recents@,
    {
        let mut s = owned("Selected ");
        push_str(&mut s, path.as_str());
        self.status = s;
        self.selected = Some(path);
        self.bump();
    }

    /// Import failed for `path`: the status and the error dialog's message.
    pub fn import_failed(&mut self, path: &str, error: &str) -> (message: String)
        ensures
            final(self).status@ == "Import failed: "@ + error@,
            message@ == path@ + "\n\n"@ + error@,
            final(self).revision == next_revision(old(self).revision),
            final(self).recents@ == old(self).recents@,
    {
        let mut s = owned("Import failed: ");
        push_str(&mut s, error);
        self.status = s;
        self.bump();
        let mut m = owned(path);
        push_str(&mut m, "\n\n");
        push_str(&mut m, error);
        m
    }

    /// An error to report on the status line (also shown in a dialog).
    pub fn report(&mut self, error: String)
        ensures
            final(self).status@ == error@,
            final(self).revision == next_revision(old(self).revision),
            final(self).recents@ == old(self).recents@,
            final(self).selected == old(self).selected,
    {
        self.status = error;
        self.bump();
    }
}

// ---------------------------------------------------------------------
// The manager's buttons.
// ---------------------------------------------------------------------

/// The manager window's buttons.
#[derive(Clone, Copy, Debug, PartialEq, Eq, Structural)]
pub enum ManagerAction {
    NewProject,
    ImportProject,
    Refresh,
    ToggleSort,
    OpenSelected,
    ShowSelectedFolder,
    RemoveSelected,
    RemoveMissing,
    BrowseCreateParent,
    BrowseImportPath,
    ConfirmCreate,
    ConfirmImport,
    CancelDialog,
}

/// The outside work a button asks for: the caller does it and reports
/// the outcome to the named method.
#[derive(Debug, PartialEq, Eq)]
pub enum ManagerEffect {
    /// Nothing more to do.
    Done,
    /// Save the list.
    Persist,
    /// Let the user pick a project folder to import; then `import_picked`.
    PickImportFolder,
    /// Validate every record again; then `refreshed`, and save the list.
    RefreshRecords,
    /// Open the project in the folder (record it, save, start the editor).
    Launch(String),
    /// Show the folder in the file manager; then `folder_shown`.
    ShowFolder(String),
    /// Ask the disk which records are missing; then
    /// `remove_missing_records`, and save the list.
    CheckMissing,
    /// Let the user pick where to create the project, starting here; then
    /// `create_parent_picked`.
    PickCreateParent(String),
    /// Let the user pick the project to import, starting here; then
    /// `import_path_picked`.
    PickImportPath(String),
    /// Create the project from the template; then `created`.
    Create(String, String),
    /// Validate the folder; then `import_checked`.
    Import(String),
}

impl ManagerState {
    /// A button was pressed: the manager and its dialog change, and the
    /// outside work to do next is returned.
    pub fn handle_action(&mut self, dialog: &mut DialogState, action: ManagerAction, default_parent: String) -> (effect: ManagerEffect)
        ensures
            match action {
                ManagerAction::NewProject => final(dialog).kind == DialogKind::Create
                    && final(dialog).project_name@ == "My Game"@ && final(dialog).create_parent@
                    == default_parent@ && effect == ManagerEffect::Done,
                ManagerAction::ImportProject => final(dialog).kind == DialogKind::Import
                    && final(dialog).import_path@.len() == 0 && effect == ManagerEffect::PickImportFolder,
                ManagerAction::Refresh => effect == ManagerEffect::RefreshRecords,
                ManagerAction::ToggleSort => final(self).sort == (if old(self).sort
                    == ProjectSort::LastOpened {
                    ProjectSort::Name
                } else {
                    ProjectSort::LastOpened
                }) && effect == ManagerEffect::Done,
                ManagerAction::OpenSelected => effect == match old(self).selected {
                    Some(p) => ManagerEffect::Launch(p),
                    None => ManagerEffect::Done,
                },
                ManagerAction::ShowSelectedFolder => effect == match old(self).selected {
                    Some(p) => ManagerEffect::ShowFolder(p),
                    None => ManagerEffect::Done,
                },
                ManagerAction::RemoveSelected => match old(self).selected {
                    Some(p) => final(self).recents@.projects
                        == crate::project_manager::model::without_path(old(self).recents@.windows, 
                        old(self).recents@.projects,
                        p@,
                    ) && opt_view(final(self).selected) == first_path(final(self).recents@.projects)
                        && final(self).status@ == "Removed project from the list; files were not changed"@
                        && effect == ManagerEffect::Persist,
                    None => final(self).recents@ == old(self).recents@ && effect == ManagerEffect::Done,
                },
                ManagerAction::RemoveMissing => effect == ManagerEffect::CheckMissing,
                ManagerAction::BrowseCreateParent => effect == ManagerEffect::PickCreateParent(
                    old(dialog).create_parent,
                ),
                ManagerAction::BrowseImportPath => effect == ManagerEffect::PickImportPath(
                    old(dialog).import_path,
                ),
                ManagerAction::ConfirmCreate => effect matches ManagerEffect::Create(name, parent)
                    && name@ == old(dialog).project_name@ && parent@ == trimmed(
                    old(dialog).create_parent@,
                    TrimSet::Whitespace,
                ),
                ManagerAction::ConfirmImport => effect matches ManagerEffect::Import(path) && path@
                    == trimmed(old(dialog).import_path@, TrimSet::Whitespace),
                ManagerAction::CancelDialog => final(dialog).kind == kind_after_close(
                    old(dialog).kind,
                    old(dialog).error_return,
                ) && effect == ManagerEffect::Done,
            },
            action != ManagerAction::RemoveSelected ==> final(self).recents@ == old(self).recents@,
            action != ManagerAction::RemoveSelected ==> final(self).selected == old(self).selected,
            action != ManagerAction::ToggleSort ==> final(self).sort == old(self).sort,
            final(self).filter == old(self).filter,
            !(action == ManagerAction::RemoveSelected && old(self).selected is Some)
                ==> final(self).status == old(self).status,
            !(action == ManagerAction::NewProject || action == ManagerAction::ImportProject
                || action == ManagerAction::CancelDialog) ==> *final(dialog) == *old(dialog),
            final(self).revision == (if action == ManagerAction::ToggleSort || (action
                == ManagerAction::RemoveSelected && old(self).selected is Some) {
                next_revision(old(self).revision)
            } else {
                old(self).revision
            }),
            final(dialog).revision == (if action == ManagerAction::NewProject || action
                == ManagerAction::ImportProject || action == ManagerAction::CancelDialog {
                next_revision(old(dialog).revision)
            } else {
                old(dialog).revision
            }),
    {
        match action {
            ManagerAction::NewProject => {
                dialog.show_create(default_parent);
                ManagerEffect::Done
            },
            ManagerAction::ImportProject => {
                dialog.show_import();
                ManagerEffect::PickImportFolder
            },
            ManagerAction::Refresh => ManagerEffect::RefreshRecords,
            ManagerAction::ToggleSort => {
                self.toggle_sort();
                ManagerEffect::Done
            },
            ManagerAction::OpenSelected => match &self.selected {
                Some(p) => ManagerEffect::Launch(p.clone()),
                None => ManagerEffect::Done,
            },
            ManagerAction::ShowSelectedFolder => match &self.selected {
                Some(p) => ManagerEffect::ShowFolder(p.clone()),
                None => ManagerEffect::Done,
            },
            ManagerAction::RemoveSelected => if self.remove_selected() {
                ManagerEffect::Persist
            } else {
                ManagerEffect::Done
            },
            ManagerAction::RemoveMissing => ManagerEffect::CheckMissing,
            ManagerAction::BrowseCreateParent => ManagerEffect::PickCreateParent(dialog.create_parent.clone()),
            ManagerAction::BrowseImportPath => ManagerEffect::PickImportPath(dialog.import_path.clone()),
            ManagerAction::ConfirmCreate => ManagerEffect::Create(
                dialog.project_name.clone(),
                trim(dialog.create_parent.as_str()),
            ),
            ManagerAction::ConfirmImport => ManagerEffect::Import(trim(dialog.import_path.as_str())),
            ManagerAction::CancelDialog => {
                dialog.close();
                ManagerEffect::Done
            },
        }
    }

    /// The folder picked for an import (none when the user cancelled).
    pub fn import_picked(&mut self, dialog: &mut DialogState, picked: Option<String>) -> (effect: ManagerEffect)
        ensures
            match picked {
                Some(p) => final(dialog).import_path == p && effect == ManagerEffect::Import(p),
                None => final(dialog).kind == kind_after_close(old(dialog).kind, old(dialog).error_return)
                    && effect == ManagerEffect::Done,
            },
            final(self).recents@ == old(self).recents@,
    {
        match picked {
            Some(p) => {
                dialog.import_path = p.clone();
                ManagerEffect::Import(p)
            },
            None => {
                dialog.close();
                ManagerEffect::Done
            },
        }
    }

    /// The folder picked as the new project's location, if any.
    pub fn create_parent_picked(&mut self, dialog: &mut DialogState, picked: Option<String>)
        ensures
            match picked {
                Some(p) => final(dialog).create_parent == p && final(dialog).revision == next_revision(
                    old(dialog).revision,
                ),
                None => *final(dialog) == *old(dialog),
            },
    {
        if let Some(p) = picked {
            dialog.create_parent = p;
            dialog.revision = dialog.revision.wrapping_add(1);
        }
    }

    /// The folder picked as the project to import, if any.
    pub fn import_path_picked(&mut self, dialog: &mut DialogState, picked: Option<String>)
        ensures
            match picked {
                Some(p) => final(dialog).import_path == p && final(dialog).revision == next_revision(
                    old(dialog).revision,
                ),
                None => *final(dialog) == *old(dialog),
            },
    {
        if let Some(p) = picked {
            dialog.import_path = p;
            dialog.revision = dialog.revision.wrapping_add(1);
        }
    }

    /// What validating the folder to import found: a valid project is
    /// opened; otherwise the error is shown over the import dialog.
    pub fn import_checked(
        &mut self,
        dialog: &mut DialogState,
        path: String,
        validation: Result<ProjectMetadata, String>,
    ) -> (effect: ManagerEffect)
        ensures
            match validation {
                Ok(_) => final(dialog).kind == kind_after_close(old(dialog).kind, old(dialog).error_return)
                    && effect == ManagerEffect::Launch(path),
                Err(e) => final(dialog).kind == DialogKind::Error && final(dialog).error_title@
                    == "Import Failed"@ && final(dialog).error_message@ == path@ + "\n\n"@ + e@
                    && final(self).status@ == "Import failed: "@ + e@ && effect == ManagerEffect::Done,
            },
            final(self).recents@ == old(self).recents@,
    {
        match validation {
            Ok(_) => {
                dialog.close();
                ManagerEffect::Launch(path)
            },
            Err(e) => {
                let message = self.import_failed(path.as_str(), e.as_str());
                dialog.show_error(owned("Import Failed"), message);
                ManagerEffect::Done
            },
        }
    }

    /// What creating the project gave: its folder is opened, or the error
    /// is shown over the create dialog.
    pub fn created(&mut self, dialog: &mut DialogState, result: Result<String, String>) -> (effect: ManagerEffect)
        ensures
            match result {
                Ok(path) => final(dialog).kind == kind_after_close(old(dialog).kind, old(dialog).error_return)
                    && effect == ManagerEffect::Launch(path),
                Err(e) => final(dialog).kind == DialogKind::Error && final(dialog).error_title@
                    == "Project Creation Failed"@ && final(dialog).error_message@ == e@
                    && final(self).status@ == e@ && effect == ManagerEffect::Done,
            },
            final(self).recents@ == old(self).recents@,
    {
        match result {
            Ok(path) => {
                dialog.close();
                ManagerEffect::Launch(path)
            },
            Err(e) => {
                self.report(e.clone());
                dialog.show_error(owned("Project Creation Failed"), e);
                ManagerEffect::Done
            },
        }
    }

    /// What recording the opened project gave (its resolved folder or the
    /// error): the folder becomes the selection; an error is reported and
    /// shown. Returns whether the editor can be started.
    pub fn launch_recorded(&mut self, dialog: &mut DialogState, result: Result<String, String>) -> (r: bool)
        ensures
            r == result is Ok,
            match result {
                Ok(c) => final(self).selected == Some(c) && final(self).status == old(self).status,
                Err(e) => final(self).status@ == e@ && final(dialog).kind == DialogKind::Error
                    && final(dialog).error_title@ == "Could Not Open Project"@
                    && final(dialog).error_message@ == e@,
            },
            final(self).recents@ == old(self).recents@,
    {
        match result {
            Ok(c) => {
                self.selected = Some(c);
                true
            },
            Err(e) => {
                self.report(e.clone());
                dialog.show_error(owned("Could Not Open Project"), e);
                false
            },
        }
    }

    /// Starting the editor failed with `message`.
    pub fn launch_failed(&mut self, dialog: &mut DialogState, message: String)
        ensures
            final(self).status@ == message@,
            final(dialog).kind == DialogKind::Error,
            final(dialog).error_title@ == "Could Not Open Project"@,
            final(dialog).error_message@ == message@,
            final(self).recents@ == old(self).recents@,
    {
        self.report(message.clone());
        dialog.show_error(owned("Could Not Open Project"), message);
    }

    /// What showing the folder in the file manager gave.
    pub fn folder_shown(&mut self, dialog: &mut DialogState, path: &str, result: Result<(), String>)
        ensures
            match result {
                Ok(()) => final(self).status@ == "Opened "@ + path@ && *final(dialog) == *old(dialog),
                Err(e) => final(self).status@ == e@ && final(dialog).kind == DialogKind::Error
                    && final(dialog).error_title@ == "Could Not Open Folder"@
                    && final(dialog).error_message@ == e@,
            },
            final(self).revision == next_revision(old(self).revision),
            final(self).recents@ == old(self).recents@,
    {
        match result {
            Ok(()) => {
                let mut s = owned("Opened ");
                push_str(&mut s, path);
                self.status = s;
            },
            Err(e) => {
                self.status = e.clone();
                dialog.show_error(owned("Could Not Open Folder"), e);
            },
        }
        self.bump();
    }

    /// A primary click on a project row: it is selected, and a double
    /// click opens it.
    pub fn project_clicked(&mut self, path: String, count: u32) -> (effect: ManagerEffect)
        ensures
            opt_view(final(self).selected) == Some(path@),
            final(self).status@ == "Selected "@ + path@,
            effect == (if count >= 2 {
                ManagerEffect::Launch(path)
            } else {
                ManagerEffect::Done
            }),
            final(self).recents@ == old(self).recents@,
    {
        let copy = path.clone();
        self.select(path);
        if count >= 2 {
            ManagerEffect::Launch(copy)
        } else {
            ManagerEffect::Done
        }
    }
}

// ---------------------------------------------------------------------
// What the list and the details panel show.
// ---------------------------------------------------------------------

/// The letter shown in place of a missing icon: the name's first
/// character, or `A` for an empty name.
pub open spec fn spec_initial(name: Seq<char>) -> Seq<char> {
    if name.len() > 0 {
        seq![name[0]]
    } else {
        "A"@
    }
}

/// The line under a project's path in its row.
pub open spec fn spec_row_summary(valid: bool) -> Seq<char> {
    if valid {
        "Rust project  |  Format 1"@
    } else {
        "Project needs attention"@
    }
}

/// The texts of one row of the project list. Whether the path is shown
/// as missing, and the icon image, come from disk and are added by the
/// window.
#[derive(Debug)]
pub struct ProjectRowText {
    pub name: String,
    pub path: String,
    pub initial: String,
    pub summary: String,
    pub needs_attention: bool,
    pub last_opened: String,
}

/// The row of `project` at time `now`.
pub fn project_row_text(project: &RecentProject, now: u64) -> (r: ProjectRowText)
    ensures
        r.name@ == project@.name,
        r.path@ == project@.path,
        r.initial@ == spec_initial(project@.name),
        r.needs_attention == (project@.validation_error is Some),
        r.summary@ == spec_row_summary(project@.validation_error is None),
        r.last_opened@ == spec_relative_time(project@.last_opened, now),
{
    let letters = chars_of(project.name.as_str());
    let mut initial = String::new();
    if letters.len() > 0 {
        push_char(&mut initial, letters[0]);
    } else {
        push_str(&mut initial, "A");
    }
    let valid = project.validation_error.is_none();
    let summary = if valid {
        owned("Rust project  |  Format 1")
    } else {
        owned("Project needs attention")
    };
    ProjectRowText {
        name: project.name.clone(),
        path: project.path.clone(),
        initial,
        summary,
        needs_attention: !valid,
        last_opened: relative_time_at(project.last_opened, now),
    }
}

/// The project list: a message when nothing is shown, else the rows.
#[derive(Debug)]
pub enum ProjectListView {
    Empty { message: String, hint: String },
    Rows(Vec<ProjectRowText>),
}

/// The texts of the details panel for the selected project, or for
/// none.
#[derive(Debug)]
pub struct DetailsText {
    pub heading: String,
    pub title: String,
    pub subtitle: String,
    /// `Some(ready)` when a project is selected.
    pub ready: Option<bool>,
    pub readiness: String,
    pub error: Option<String>,
}

impl ManagerState {
    /// What the list shows at time `now`: the visible projects, or why
    /// there are none.
    pub fn project_list_view(&self, now: u64) -> (r: ProjectListView)
        ensures
            ({
                let shown = sort_ordered(self.sort, matching(self.recents@.projects, search_text(self.filter@)));
                match r {
                    ProjectListView::Empty { message, hint } => shown.len() == 0 && hint@
                        == "Use New Project or Import in the toolbar"@ && message@ == (if self.recents@.projects.len() == 0 {
                        "No projects yet"@
                    } else {
                        "No matching projects"@
                    }),
                    ProjectListView::Rows(rows) => shown.len() > 0 && rows.len() == shown.len()
                        && forall|i: int| 0 <= i < rows.len() ==> {
                        &&& (#[trigger] rows@[i]).name@ == shown[i].name
                        &&& rows@[i].path@ == shown[i].path
                        &&& rows@[i].initial@ == spec_initial(shown[i].name)
                        &&& rows@[i].needs_attention == (shown[i].validation_error is Some)
                        &&& rows@[i].summary@ == spec_row_summary(shown[i].validation_error is None)
                        &&& rows@[i].last_opened@ == spec_relative_time(shown[i].last_opened, now)
                    },
                }
            }),
    {
        let visible = self.visible_projects();
        if visible.len() == 0 {
            let message = if self.recents.projects.len() == 0 {
                owned("No projects yet")
            } else {
                owned("No matching projects")
            };
            return ProjectListView::Empty { message, hint: owned("Use New Project or Import in the toolbar") };
        }
        let mut rows: Vec<ProjectRowText> = Vec::new();
        let mut i: usize = 0;
        while i < visible.len()
            invariant
                i <= visible.len(),
                rows.len() == i,
                forall|k: int| 0 <= k < i ==> {
                    &&& (#[trigger] rows@[k]).name@ == visible@[k]@.name
                    &&& rows@[k].path@ == visible@[k]@.path
                    &&& rows@[k].initial@ == spec_initial(visible@[k]@.name)
                    &&& rows@[k].needs_attention == (visible@[k]@.validation_error is Some)
                    &&& rows@[k].summary@ == spec_row_summary(visible@[k]@.validation_error is None)
                    &&& rows@[k].last_opened@ == spec_relative_time(visible@[k]@.last_opened, now)
                },
            decreases visible.len() - i,
        {
            let row = project_row_text(&visible[i], now);
            rows.push(row);
            i = i + 1;
        }
        proof {
            assert forall|k: int| 0 <= k < rows.len() implies views(visible@)[k] == visible@[k]@ by {}
        }
        ProjectListView::Rows(rows)
    }

    /// What the details panel shows.
    pub fn details_text(&self) -> (r: DetailsText)
        ensures
            ({
                let found = match self.selected {
                    Some(s) => lists_path(self.recents@.windows, self.recents@.projects, s@),
                    None => false,
                };
                if !found {
                    &&& r.heading@ == "PROJECT"@
                    &&& r.title@ == "Nothing selected"@
                    &&& r.subtitle@ == "Select a project from the list."@
                    &&& r.ready is None
                    &&& r.readiness@.len() == 0
                    &&& r.error is None
                } else {
                    exists|i: int| {
                        &&& 0 <= i < self.recents@.projects.len()
                        &&& spec_same_path(self.recents@.windows, #[trigger] self.recents@.projects[i].path, self.selected->0@)
                        &&& forall|j: int| 0 <= j < i ==> !spec_same_path(self.recents@.windows, 
                            #[trigger] self.recents@.projects[j].path,
                            self.selected->0@,
                        )
                        &&& r.heading@ == "SELECTED PROJECT"@
                        &&& r.title@ == self.recents@.projects[i].name
                        &&& r.subtitle@ == self.recents@.projects[i].path
                        &&& r.ready == Some(self.recents@.projects[i].validation_error is None)
                        &&& r.readiness@ == (if self.recents@.projects[i].validation_error is None {
                            "Ready to open"@
                        } else {
                            "Cannot open"@
                        })
                        &&& opt_view(r.error) == self.recents@.projects[i].validation_error
                    }
                }
            }),
    {
        match self.selected_project() {
            None => DetailsText {
                heading: owned("PROJECT"),
                title: owned("Nothing selected"),
                subtitle: owned("Select a project from the list."),
                ready: None,
                readiness: String::new(),
                error: None,
            },
            Some(i) => {
                let project = &self.recents.projects[i];
                proof {
                    assert(self.recents@.projects[i as int] == project@);
                }
                let valid = project.validation_error.is_none();
                let readiness = if valid {
                    owned("Ready to open")
                } else {
                    owned("Cannot open")
                };
                let error = match &project.validation_error {
                    Some(e) => Some(e.clone()),
                    None => None,
                };
                DetailsText {
                    heading: owned("SELECTED PROJECT"),
                    title: project.name.clone(),
                    subtitle: project.path.clone(),
                    ready: Some(valid),
                    readiness,
                    error,
                }
            },
        }
    }
}

/// The texts and buttons of the open dialog.
#[derive(Debug)]
pub struct DialogText {
    pub title: String,
    /// The line under the inputs (the error's message for an error).
    pub body: String,
    /// The hint at the bottom of the body.
    pub hint: String,
    /// The confirming button and its label; an error has none.
    pub confirm: Option<(ManagerAction, String)>,
    /// The label of the button that dismisses the dialog.
    pub dismiss: String,
}

impl DialogState {
    /// What the open dialog shows; `None` when no dialog is open.
    pub fn dialog_text(&self) -> (r: Option<DialogText>)
        ensures
            match self.kind {
                DialogKind::Closed => r is None,
                DialogKind::Create => r matches Some(t) && {
                    &&& t.title@ == "Create New Project"@
                    &&& t.body@ == "Project folder"@
                    &&& t.hint@.len() == 0
                    &&& match t.confirm {
                        Some((action, label)) => action == ManagerAction::ConfirmCreate && label@ == "Create & Edit"@,
                        None => false,
                    }
                    &&& t.dismiss@ == "Cancel"@
                },
                DialogKind::Import => r matches Some(t) && {
                    &&& t.title@ == "Import Existing Project"@
                    &&& t.body@.len() == 0
                    &&& t.hint@ == "Select a folder containing project.toml"@
                    &&& match t.confirm {
                        Some((action, label)) => action == ManagerAction::ConfirmImport && label@ == "Import & Edit"@,
                        None => false,
                    }
                    &&& t.dismiss@ == "Cancel"@
                },
                DialogKind::Error => r matches Some(t) && t.title@ == self.error_title@
                    && t.body@ == self.error_message@
                    && t.hint@ == "Select a Revy project created by this editor and try again."@
                    && t.confirm is None && t.dismiss@ == "Close"@,
            },
    {
        match self.kind {
            DialogKind::Closed => None,
            DialogKind::Create => Some(DialogText {
                title: owned("Create New Project"),
                body: owned("Project folder"),
                hint: String::new(),
                confirm: Some((ManagerAction::ConfirmCreate, owned("Create & Edit"))),
                dismiss: owned("Cancel"),
            }),
            DialogKind::Import => Some(DialogText {
                title: owned("Import Existing Project"),
                body: String::new(),
                hint: owned("Select a folder containing project.toml"),
                confirm: Some((ManagerAction::ConfirmImport, owned("Import & Edit"))),
                dismiss: owned("Cancel"),
            }),
            DialogKind::Error => Some(DialogText {
                title: self.error_title.clone(),
                body: self.error_message.clone(),
                hint: owned("Select a Revy project created by this editor and try again."),
                confirm: None,
                dismiss: owned("Close"),
            }),
        }
    }
}

} // verus!
