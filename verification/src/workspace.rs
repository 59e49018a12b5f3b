//! The 2D/3D scene workspaces, the editor views of the center dock, and
//! the selection each workspace remembers.

use vstd::prelude::*;

use crate::selection::Selection;

verus! {

/// Which scene workspace and camera are currently active.
#[derive(Clone, Copy, Debug, Default, PartialEq, Eq, Structural)]
pub enum WorkspaceMode {
    #[default]
    TwoD,
    ThreeD,
}

impl WorkspaceMode {
    pub fn label(self) -> (r: &'static str)
        ensures
            r@ == (match self {
                WorkspaceMode::TwoD => "2D"@,
                WorkspaceMode::ThreeD => "3D"@,
            }),
    {
        match self {
            WorkspaceMode::TwoD => "2D",
            WorkspaceMode::ThreeD => "3D",
        }
    }
}

/// The editor surface shown in the center dock. The scene dimension stays
/// in `WorkspaceMode`, so runtime views never leak into scenes.
#[derive(Clone, Copy, Debug, Default, PartialEq, Eq, Structural)]
pub enum EditorViewMode {
    #[default]
    TwoD,
    ThreeD,
    Game,
    AssetStore,
}

/// The scene workspace an editor view shows, if it shows one.
pub open spec fn view_workspace(view: EditorViewMode) -> Option<WorkspaceMode> {
    match view {
        EditorViewMode::TwoD => Some(WorkspaceMode::TwoD),
        EditorViewMode::ThreeD => Some(WorkspaceMode::ThreeD),
        _ => None,
    }
}

impl EditorViewMode {
    pub fn label(self) -> (r: &'static str)
        ensures
            r@ == (match self {
                EditorViewMode::TwoD => "2D"@,
                EditorViewMode::ThreeD => "3D"@,
                EditorViewMode::Game => "Game"@,
                EditorViewMode::AssetStore => "AssetStore"@,
            }),
    {
        match self {
            EditorViewMode::TwoD => "2D",
            EditorViewMode::ThreeD => "3D",
            EditorViewMode::Game => "Game",
            EditorViewMode::AssetStore => "AssetStore",
        }
    }

    pub fn workspace_mode(self) -> (r: Option<WorkspaceMode>)
        ensures
            r == view_workspace(self),
    {
        match self {
            EditorViewMode::TwoD => Some(WorkspaceMode::TwoD),
            EditorViewMode::ThreeD => Some(WorkspaceMode::ThreeD),
            EditorViewMode::Game => None,
            EditorViewMode::AssetStore => None,
        }
    }
}

/// The view that shows a scene workspace.
pub open spec fn workspace_view(mode: WorkspaceMode) -> EditorViewMode {
    match mode {
        WorkspaceMode::TwoD => EditorViewMode::TwoD,
        WorkspaceMode::ThreeD => EditorViewMode::ThreeD,
    }
}

/// Remembers each workspace's selection while the user moves between modes.
#[derive(Clone, Copy, Debug, Default, PartialEq, Eq, Structural)]
pub struct WorkspaceSelections {
    pub two_d: Option<u64>,
    pub three_d: Option<u64>,
}

pub open spec fn saved_for(s: WorkspaceSelections, mode: WorkspaceMode) -> Option<u64> {
    match mode {
        WorkspaceMode::TwoD => s.two_d,
        WorkspaceMode::ThreeD => s.three_d,
    }
}

pub open spec fn saved_with(s: WorkspaceSelections, mode: WorkspaceMode, entity: Option<
    u64,
>) -> WorkspaceSelections {
    match mode {
        WorkspaceMode::TwoD => WorkspaceSelections { two_d: entity, ..s },
        WorkspaceMode::ThreeD => WorkspaceSelections { three_d: entity, ..s },
    }
}

impl WorkspaceSelections {
    pub fn get(&self, mode: WorkspaceMode) -> (r: Option<u64>)
        ensures
            r == saved_for(*self, mode),
    {
        match mode {
            WorkspaceMode::TwoD => self.two_d,
            WorkspaceMode::ThreeD => self.three_d,
        }
    }

    pub fn set(&mut self, mode: WorkspaceMode, entity: Option<u64>)
        ensures
            *final(self) == saved_with(*old(self), mode, entity),
    {
        match mode {
            WorkspaceMode::TwoD => self.two_d = entity,
            WorkspaceMode::ThreeD => self.three_d = entity,
        }
    }
}

/// The two workspaces remember their selections independently: setting
/// one and reading it back gives what was set, and leaves the other as it was.
pub proof fn lemma_workspace_selections_independent(
    s: WorkspaceSelections,
    mode: WorkspaceMode,
    other: WorkspaceMode,
    entity: Option<u64>,
)
    requires
        mode != other,
    ensures
        saved_for(saved_with(s, mode, entity), mode) == entity,
        saved_for(saved_with(s, mode, entity), other) == saved_for(s, other),
{
}

/// Marks a scene object as belonging to the 2D or 3D workspace.
#[derive(Clone, Copy, Debug, PartialEq, Eq, Structural)]
pub enum SceneSpace {
    TwoD,
    ThreeD,
}

pub open spec fn spec_matches_mode(mode: WorkspaceMode, space: SceneSpace) -> bool {
    (mode == WorkspaceMode::TwoD && space == SceneSpace::TwoD) || (mode == WorkspaceMode::ThreeD
        && space == SceneSpace::ThreeD)
}

pub fn matches_mode(mode: WorkspaceMode, space: SceneSpace) -> (r: bool)
    ensures
        r == spec_matches_mode(mode, space),
{
    match (mode, space) {
        (WorkspaceMode::TwoD, SceneSpace::TwoD) => true,
        (WorkspaceMode::ThreeD, SceneSpace::ThreeD) => true,
        _ => false,
    }
}

/// The panels of the center dock.
#[derive(Clone, Copy, Debug, Default, PartialEq, Eq, Structural)]
pub enum EditorViewPanel {
    #[default]
    Scene,
    Game,
    AssetStore,
}

pub open spec fn spec_panel_visible(panel: EditorViewPanel, view: EditorViewMode) -> bool {
    match panel {
        EditorViewPanel::Scene => view == EditorViewMode::TwoD || view == EditorViewMode::ThreeD,
        EditorViewPanel::Game => view == EditorViewMode::Game,
        EditorViewPanel::AssetStore => view == EditorViewMode::AssetStore,
    }
}

/// Whether a center-dock panel is displayed in a view.
pub fn panel_visible(panel: EditorViewPanel, view: EditorViewMode) -> (r: bool)
    ensures
        r == spec_panel_visible(panel, view),
{
    match panel {
        EditorViewPanel::Scene => view == EditorViewMode::TwoD || view == EditorViewMode::ThreeD,
        EditorViewPanel::Game => view == EditorViewMode::Game,
        EditorViewPanel::AssetStore => view == EditorViewMode::AssetStore,
    }
}

/// Whether an editable object in `space` is visible: only in a scene view
/// whose workspace matches its space.
pub fn object_visible(mode: WorkspaceMode, view: EditorViewMode, space: SceneSpace) -> (r: bool)
    ensures
        r == (spec_matches_mode(mode, space) && (view == EditorViewMode::TwoD || view
            == EditorViewMode::ThreeD)),
{
    matches_mode(mode, space) && (view == EditorViewMode::TwoD || view == EditorViewMode::ThreeD)
}

/// Helpers shown only in 3D (ground, lights) are visible in the 3D view.
pub fn helpers_3d_visible(view: EditorViewMode) -> (r: bool)
    ensures
        r == (view == EditorViewMode::ThreeD),
{
    view == EditorViewMode::ThreeD
}

/// Helpers shown only in 2D are visible in the 2D view.
pub fn helpers_2d_visible(view: EditorViewMode) -> (r: bool)
    ensures
        r == (view == EditorViewMode::TwoD),
{
    view == EditorViewMode::TwoD
}

/// The entity the 3D transform gizmo focuses: the selection, in 3D only.
pub fn gizmo_focus(mode: WorkspaceMode, selection: Selection) -> (r: Option<u64>)
    ensures
        r == (if mode == WorkspaceMode::ThreeD {
            selection.0
        } else {
            None
        }),
{
    if mode == WorkspaceMode::ThreeD {
        selection.0
    } else {
        None
    }
}

/// The space of `entity`, from the first entry for it in `spaces`.
pub open spec fn space_of(spaces: Seq<(u64, SceneSpace)>, entity: u64) -> Option<SceneSpace>
    decreases spaces.len(),
{
    if spaces.len() == 0 {
        None
    } else if spaces[0].0 == entity {
        Some(spaces[0].1)
    } else {
        space_of(spaces.drop_first(), entity)
    }
}

fn space_of_exec(spaces: &Vec<(u64, SceneSpace)>, entity: u64) -> (r: Option<SceneSpace>)
    ensures
        r == space_of(spaces@, entity),
{
    let mut i: usize = 0;
    assert(spaces@.skip(0) =~= spaces@);
    while i < spaces.len()
        invariant
            i <= spaces.len(),
            space_of(spaces@, entity) == space_of(spaces@.skip(i as int), entity),
        decreases spaces.len() - i,
    {
        assert(spaces@.skip(i as int)[0] == spaces@[i as int]);
        assert(spaces@.skip(i as int).drop_first() =~= spaces@.skip(i + 1));
        if spaces[i].0 == entity {
            return Some(spaces[i].1);
        }
        i = i + 1;
    }
    None
}

/// The remembered selection of `mode`, kept only while that entity still
/// belongs to `mode`'s space.
pub open spec fn restored_selection(
    saved: WorkspaceSelections,
    mode: WorkspaceMode,
    spaces: Seq<(u64, SceneSpace)>,
) -> Option<u64> {
    match saved_for(saved, mode) {
        Some(e) => match space_of(spaces, e) {
            Some(space) => if spec_matches_mode(mode, space) {
                Some(e)
            } else {
                None
            },
            None => None,
        },
        None => None,
    }
}

fn restore_selection(
    saved: &WorkspaceSelections,
    mode: WorkspaceMode,
    spaces: &Vec<(u64, SceneSpace)>,
) -> (r: Option<u64>)
    ensures
        r == restored_selection(*saved, mode, spaces@),
{
    match saved.get(mode) {
        Some(e) => match space_of_exec(spaces, e) {
            Some(space) => if matches_mode(mode, space) {
                Some(e)
            } else {
                None
            },
            None => None,
        },
        None => None,
    }
}

/// The workspace state the tabs and views act on.
#[derive(Clone, Copy, Debug, Default, PartialEq, Eq)]
pub struct WorkspaceState {
    pub mode: WorkspaceMode,
    pub view: EditorViewMode,
    pub selection: Selection,
    pub saved: WorkspaceSelections,
}

/// Switching to workspace `next`: the current selection is remembered for
/// the current workspace, and `next`'s remembered selection comes back.
pub open spec fn switched(
    s: WorkspaceState,
    next: WorkspaceMode,
    view: EditorViewMode,
    spaces: Seq<(u64, SceneSpace)>,
) -> WorkspaceState {
    let saved = saved_with(s.saved, s.mode, s.selection.0);
    WorkspaceState {
        mode: next,
        view,
        selection: Selection(restored_selection(saved, next, spaces)),
        saved,
    }
}

/// The state after activating the workspace tab for `tab`.
pub open spec fn after_workspace_tab(
    s: WorkspaceState,
    tab: WorkspaceMode,
    spaces: Seq<(u64, SceneSpace)>,
) -> WorkspaceState {
    if s.mode == tab {
        s
    } else {
        switched(s, tab, workspace_view(tab), spaces)
    }
}

/// The state after activating the editor view `tab`.
pub open spec fn after_editor_view(
    s: WorkspaceState,
    tab: EditorViewMode,
    spaces: Seq<(u64, SceneSpace)>,
) -> WorkspaceState {
    if s.view == tab {
        s
    } else {
        match view_workspace(tab) {
            None => WorkspaceState { view: tab, ..s },
            Some(next) => if s.mode == next {
                WorkspaceState { view: tab, ..s }
            } else {
                switched(s, next, tab, spaces)
            },
        }
    }
}

impl WorkspaceState {
    /// A workspace tab was activated. `spaces` lists the scene objects and
    /// their spaces.
    pub fn activate_workspace_tab(&mut self, tab: WorkspaceMode, spaces: &Vec<(u64, SceneSpace)>)
        ensures
            *final(self) == after_workspace_tab(*old(self), tab, spaces@),
    {
        if self.mode == tab {
            return;
        }
        self.saved.set(self.mode, self.selection.0);
        self.mode = tab;
        self.view = match tab {
            WorkspaceMode::TwoD => EditorViewMode::TwoD,
            WorkspaceMode::ThreeD => EditorViewMode::ThreeD,
        };
        self.selection = Selection(restore_selection(&self.saved, tab, spaces));
    }

    /// An editor view tab was activated. Views without a scene workspace
    /// keep the current workspace and selection.
    pub fn activate_editor_view(&mut self, tab: EditorViewMode, spaces: &Vec<(u64, SceneSpace)>)
        ensures
            *final(self) == after_editor_view(*old(self), tab, spaces@),
    {
        if self.view == tab {
            return;
        }
        self.view = tab;
        let next = match tab.workspace_mode() {
            Some(next) => next,
            None => {
                return;
            },
        };
        if self.mode == next {
            return;
        }
        self.saved.set(self.mode, self.selection.0);
        self.mode = next;
        self.selection = Selection(restore_selection(&self.saved, next, spaces));
    }

    /// Each frame the selection changed, it is remembered for the current workspace.
    pub fn remember_selection(&mut self, selection_changed: bool)
        ensures
            selection_changed ==> final(self).saved == saved_with(
                old(self).saved,
                old(self).mode,
                old(self).selection.0,
            ),
            !selection_changed ==> final(self).saved == old(self).saved,
            final(self).mode == old(self).mode,
            final(self).view == old(self).view,
            final(self).selection == old(self).selection,
    {
        if selection_changed {
            self.saved.set(self.mode, self.selection.0);
        }
    }
}

/// Leaving a workspace, by its tab or by an editor view tab, remembers the
/// selection it had for that workspace.
pub proof fn lemma_leaving_remembers_selection(
    s: WorkspaceState,
    tab: WorkspaceMode,
    view: EditorViewMode,
    spaces: Seq<(u64, SceneSpace)>,
)
    ensures
        tab != s.mode ==> saved_for(after_workspace_tab(s, tab, spaces).saved, s.mode)
            == s.selection.0,
        (view != s.view && view_workspace(view) is Some && view_workspace(view) != Some(s.mode))
            ==> saved_for(after_editor_view(s, view, spaces).saved, s.mode) == s.selection.0
                && after_editor_view(s, view, spaces).mode == view_workspace(view)->0,
{
}

/// An editor view that shows no scene workspace keeps the workspace, its
/// selection and what each workspace remembers; so does the view of the
/// current workspace. Only the active view changes.
pub proof fn lemma_view_without_switch(s: WorkspaceState, view: EditorViewMode, spaces: Seq<(u64, SceneSpace)>)
    requires
        view_workspace(view) is None || view_workspace(view) == Some(s.mode),
    ensures
        after_editor_view(s, view, spaces) == (WorkspaceState { view, ..s }),
{
}

/// Activating the current workspace's tab changes nothing; activating the
/// other one shows its view and brings back the selection it remembered
/// when that entity still belongs to it.
pub proof fn lemma_workspace_tab_target(s: WorkspaceState, tab: WorkspaceMode, spaces: Seq<(u64, SceneSpace)>)
    ensures
        tab == s.mode ==> after_workspace_tab(s, tab, spaces) == s,
        tab != s.mode ==> {
            let r = after_workspace_tab(s, tab, spaces);
            &&& r.mode == tab
            &&& r.view == workspace_view(tab)
            &&& saved_for(r.saved, tab) == saved_for(s.saved, tab)
            &&& match saved_for(s.saved, tab) {
                Some(e) => (space_of(spaces, e) is Some && spec_matches_mode(tab, space_of(spaces, e)->0))
                    ==> r.selection.0 == Some(e),
                None => r.selection.0 is None,
            }
        },
{
}

/// Moving to the other workspace's editor view and back restores the
/// selection that was active before, as long as that entity belongs to the
/// starting workspace.
pub proof fn lemma_view_round_trip(
    s: WorkspaceState,
    other: EditorViewMode,
    spaces: Seq<(u64, SceneSpace)>,
)
    requires
        view_workspace(s.view) == Some(s.mode),
        view_workspace(other) is Some,
        view_workspace(other) != Some(s.mode),
        match s.selection.0 {
            Some(e) => space_of(spaces, e) is Some && spec_matches_mode(
                s.mode,
                space_of(spaces, e)->0,
            ),
            None => true,
        },
    ensures
        after_editor_view(after_editor_view(s, other, spaces), s.view, spaces).selection
            == s.selection,
        after_editor_view(after_editor_view(s, other, spaces), s.view, spaces).mode == s.mode,
        after_editor_view(after_editor_view(s, other, spaces), s.view, spaces).view == s.view,
{
}

/// Moving to the other workspace and back restores the selection that was
/// active before, as long as that entity belongs to the starting workspace.
pub proof fn lemma_tab_round_trip(
    s: WorkspaceState,
    other: WorkspaceMode,
    spaces: Seq<(u64, SceneSpace)>,
)
    requires
        other != s.mode,
        s.view == workspace_view(s.mode),
        match s.selection.0 {
            Some(e) => space_of(spaces, e) is Some && spec_matches_mode(
                s.mode,
                space_of(spaces, e)->0,
            ),
            None => true,
        },
    ensures
        after_workspace_tab(after_workspace_tab(s, other, spaces), s.mode, spaces).selection
            == s.selection,
        after_workspace_tab(after_workspace_tab(s, other, spaces), s.mode, spaces).mode == s.mode,
        after_workspace_tab(after_workspace_tab(s, other, spaces), s.mode, spaces).view == s.view,
{
}

} // verus!
