//! Scene command history backed by stable-id snapshots: undo and redo
//! stacks, the action being recorded, and the snapshot last saved, which
//! decides whether the document is dirty.

use vstd::prelude::*;

use crate::scene::SceneDocument;
use crate::text::owned;
use crate::text::push_str;
use crate::workspace::WorkspaceMode;

verus! {

/// How many actions the history keeps.
pub const HISTORY_LIMIT: usize = 256;

/// The two history buttons.
#[derive(Clone, Copy, Debug, Default, PartialEq, Eq, Structural)]
pub enum HistoryAction {
    #[default]
    Undo,
    Redo,
}

/// The history action a key press asks for: Ctrl+Z undoes, Ctrl+Shift+Z
/// and Ctrl+Y redo. Nothing happens while a text input has the focus.
pub open spec fn spec_history_shortcut(
    text_focused: bool,
    control: bool,
    shift: bool,
    z_pressed: bool,
    y_pressed: bool,
) -> Option<HistoryAction> {
    if text_focused || !control {
        None
    } else if z_pressed {
        Some(
            if shift {
                HistoryAction::Redo
            } else {
                HistoryAction::Undo
            },
        )
    } else if y_pressed {
        Some(HistoryAction::Redo)
    } else {
        None
    }
}

pub fn history_shortcut(
    text_focused: bool,
    control: bool,
    shift: bool,
    z_pressed: bool,
    y_pressed: bool,
) -> (r: Option<HistoryAction>)
    ensures
        r == spec_history_shortcut(text_focused, control, shift, z_pressed, y_pressed),
{
    if text_focused || !control {
        None
    } else if z_pressed {
        if shift {
            Some(HistoryAction::Redo)
        } else {
            Some(HistoryAction::Undo)
        }
    } else if y_pressed {
        Some(HistoryAction::Redo)
    } else {
        None
    }
}

/// One scene node as a snapshot keeps it: its stable id, its place in the
/// hierarchy, its name, and the rest of its persisted state in a canonical
/// text form (equal text exactly when the remaining state is equal).
#[derive(Debug)]
pub struct SceneNodeState {
    pub id: u128,
    pub parent: Option<u128>,
    pub order: u32,
    pub name: String,
    pub state: String,
}

pub struct SceneNodeView {
    pub id: u128,
    pub parent: Option<u128>,
    pub order: u32,
    pub name: Seq<char>,
    pub state: Seq<char>,
}

impl View for SceneNodeState {
    type V = SceneNodeView;

    open spec fn view(&self) -> SceneNodeView {
        SceneNodeView {
            id: self.id,
            parent: self.parent,
            order: self.order,
            name: self.name@,
            state: self.state@,
        }
    }
}

impl SceneNodeState {
    pub fn duplicate(&self) -> (r: Self)
        ensures
            r@ == self@,
    {
        SceneNodeState {
            id: self.id,
            parent: self.parent,
            order: self.order,
            name: self.name.clone(),
            state: self.state.clone(),
        }
    }
}

pub open spec fn node_views(s: Seq<SceneNodeState>) -> Seq<SceneNodeView> {
    s.map_values(|n: SceneNodeState| n@)
}

/// The scene as the history records it: its nodes (ordered by id), the
/// selected node, and the active workspace.
#[derive(Debug)]
pub struct SceneSnapshot {
    pub nodes: Vec<SceneNodeState>,
    pub selected: Option<u128>,
    pub mode: WorkspaceMode,
}

pub struct SceneSnapshotView {
    pub nodes: Seq<SceneNodeView>,
    pub selected: Option<u128>,
    pub mode: WorkspaceMode,
}

impl View for SceneSnapshot {
    type V = SceneSnapshotView;

    open spec fn view(&self) -> SceneSnapshotView {
        SceneSnapshotView { nodes: node_views(self.nodes@), selected: self.selected, mode: self.mode }
    }
}

fn nodes_equal(a: &Vec<SceneNodeState>, b: &Vec<SceneNodeState>) -> (r: bool)
    ensures
        r == (node_views(a@) == node_views(b@)),
{
    if a.len() != b.len() {
        assert(node_views(a@).len() != node_views(b@).len());
        return false;
    }
    let mut i: usize = 0;
    while i < a.len()
        invariant
            i <= a.len(),
            a.len() == b.len(),
            forall|k: int| 0 <= k < i ==> a@[k]@ == b@[k]@,
        decreases a.len() - i,
    {
        let x = &a[i];
        let y = &b[i];
        if x.id != y.id || x.parent != y.parent || x.order != y.order || x.name != y.name
            || x.state != y.state {
            assert(node_views(a@)[i as int] != node_views(b@)[i as int]);
            return false;
        }
        assert(x.name@ == y.name@ && x.state@ == y.state@);
        i = i + 1;
    }
    assert(node_views(a@) =~= node_views(b@));
    true
}

impl SceneSnapshot {
    pub fn duplicate(&self) -> (r: Self)
        ensures
            r@ == self@,
    {
        let mut nodes: Vec<SceneNodeState> = Vec::new();
        let mut i: usize = 0;
        while i < self.nodes.len()
            invariant
                i <= self.nodes.len(),
                node_views(nodes@) == node_views(self.nodes@.take(i as int)),
            decreases self.nodes.len() - i,
        {
            let ghost prev = nodes@;
            nodes.push(self.nodes[i].duplicate());
            assert(node_views(nodes@) =~= node_views(prev).push(self.nodes@[i as int]@));
            assert(node_views(self.nodes@.take(i + 1)) =~= node_views(self.nodes@.take(i as int)).push(
                self.nodes@[i as int]@,
            ));
            i = i + 1;
        }
        assert(self.nodes@.take(self.nodes.len() as int) =~= self.nodes@);
        SceneSnapshot { nodes, selected: self.selected, mode: self.mode }
    }

    /// Whether two snapshots record the same scene, selection and workspace.
    pub fn same_as(&self, other: &SceneSnapshot) -> (r: bool)
        ensures
            r == (self@ == other@),
    {
        let same_nodes = nodes_equal(&self.nodes, &other.nodes);
        same_nodes && self.selected == other.selected && self.mode == other.mode
    }

    /// Whether two snapshots hold the same nodes (selection and workspace aside).
    pub fn same_nodes(&self, other: &SceneSnapshot) -> (r: bool)
        ensures
            r == (self@.nodes == other@.nodes),
    {
        nodes_equal(&self.nodes, &other.nodes)
    }
}

/// One recorded action.
#[derive(Debug)]
pub struct HistoryEntry {
    pub label: String,
    pub before: SceneSnapshot,
    pub after: SceneSnapshot,
}

pub struct HistoryEntryView {
    pub label: Seq<char>,
    pub before: SceneSnapshotView,
    pub after: SceneSnapshotView,
}

impl View for HistoryEntry {
    type V = HistoryEntryView;

    open spec fn view(&self) -> HistoryEntryView {
        HistoryEntryView { label: self.label@, before: self.before@, after: self.after@ }
    }
}

pub open spec fn entry_views(s: Seq<HistoryEntry>) -> Seq<HistoryEntryView> {
    s.map_values(|e: HistoryEntry| e@)
}

/// An action that started (with the scene before it) and ends when the
/// frame is finalized.
#[derive(Debug)]
pub struct PendingAction {
    pub label: String,
    pub before: SceneSnapshot,
}

pub struct PendingActionView {
    pub label: Seq<char>,
    pub before: SceneSnapshotView,
}

pub open spec fn pending_view(p: Option<PendingAction>) -> Option<PendingActionView> {
    match p {
        Some(a) => Some(PendingActionView { label: a.label@, before: a.before@ }),
        None => None,
    }
}

pub open spec fn snapshot_opt_view(s: Option<SceneSnapshot>) -> Option<SceneSnapshotView> {
    match s {
        Some(x) => Some(x@),
        None => None,
    }
}

/// Work the history does at the end of the frame, on the scene as it is then.
#[derive(Clone, Copy, Debug, PartialEq, Eq, Structural)]
pub enum HistoryRequest {
    /// Forget all actions; with `saved`, the current scene counts as saved.
    Reset { saved: bool },
    /// The current scene was just saved.
    MarkSaved,
    /// Forget all actions and the saved scene.
    Clear,
}

/// The undo and redo stacks and what the history knows about saving.
#[derive(Debug)]
pub struct SceneHistory {
    undo: Vec<HistoryEntry>,
    redo: Vec<HistoryEntry>,
    pending: Option<PendingAction>,
    saved: Option<SceneSnapshot>,
    request: Option<HistoryRequest>,
    revision: u64,
}

pub struct SceneHistoryView {
    pub undo: Seq<HistoryEntryView>,
    pub redo: Seq<HistoryEntryView>,
    pub pending: Option<PendingActionView>,
    pub saved: Option<SceneSnapshotView>,
    pub request: Option<HistoryRequest>,
    pub revision: u64,
}

impl View for SceneHistory {
    type V = SceneHistoryView;

    closed spec fn view(&self) -> SceneHistoryView {
        SceneHistoryView {
            undo: entry_views(self.undo@),
            redo: entry_views(self.redo@),
            pending: pending_view(self.pending),
            saved: snapshot_opt_view(self.saved),
            request: self.request,
            revision: self.revision,
        }
    }
}

/// The revision counter after one more change (it wraps).
pub open spec fn next_revision(r: u64) -> u64 {
    if r == u64::MAX {
        0
    } else {
        (r + 1) as u64
    }
}

/// The document is dirty unless a saved scene exists with the same nodes.
pub open spec fn spec_is_dirty(saved: Option<SceneSnapshotView>, current: SceneSnapshotView) -> bool {
    match saved {
        Some(s) => s.nodes != current.nodes,
        None => true,
    }
}

/// The stacks after recording an action from `before` to `after`: nothing
/// when the scene did not change; otherwise the action goes on the undo
/// stack (dropping the oldest beyond the limit) and the redo stack empties.
pub open spec fn spec_record(
    h: SceneHistoryView,
    label: Seq<char>,
    before: SceneSnapshotView,
    after: SceneSnapshotView,
) -> SceneHistoryView {
    if before == after {
        h
    } else {
        let pushed = h.undo.push(HistoryEntryView { label, before, after });
        SceneHistoryView {
            undo: if pushed.len() > HISTORY_LIMIT {
                pushed.drop_first()
            } else {
                pushed
            },
            redo: Seq::empty(),
            revision: next_revision(h.revision),
            ..h
        }
    }
}

/// The stacks after the Undo (or Redo) button: the top entry moves to the
/// other stack and the pending action is dropped.
pub open spec fn spec_activate(h: SceneHistoryView, action: HistoryAction) -> SceneHistoryView {
    match action {
        HistoryAction::Undo => if h.undo.len() == 0 {
            SceneHistoryView { pending: None, ..h }
        } else {
            SceneHistoryView {
                undo: h.undo.drop_last(),
                redo: h.redo.push(h.undo.last()),
                pending: None,
                revision: next_revision(h.revision),
                ..h
            }
        },
        HistoryAction::Redo => if h.redo.len() == 0 {
            SceneHistoryView { pending: None, ..h }
        } else {
            SceneHistoryView {
                undo: h.undo.push(h.redo.last()),
                redo: h.redo.drop_last(),
                pending: None,
                revision: next_revision(h.revision),
                ..h
            }
        },
    }
}

/// The scene the Undo (or Redo) button restores, if it does anything.
pub open spec fn spec_restored(h: SceneHistoryView, action: HistoryAction) -> Option<
    SceneSnapshotView,
> {
    match action {
        HistoryAction::Undo => if h.undo.len() == 0 {
            None
        } else {
            Some(h.undo.last().before)
        },
        HistoryAction::Redo => if h.redo.len() == 0 {
            None
        } else {
            Some(h.redo.last().after)
        },
    }
}

fn move_top(from: &mut Vec<HistoryEntry>, to: &mut Vec<HistoryEntry>)
    requires
        old(from).len() > 0,
    ensures
        entry_views(final(from)@) == entry_views(old(from)@).drop_last(),
        entry_views(final(to)@) == entry_views(old(to)@).push(entry_views(old(from)@).last()),
        final(from).len() == old(from).len() - 1,
        final(to).len() == old(to).len() + 1,
{
    let ghost f0 = from@;
    let ghost t0 = to@;
    let entry = from.pop().unwrap();
    assert(entry_views(from@) =~= entry_views(f0).drop_last());
    to.push(entry);
    assert(entry_views(to@) =~= entry_views(t0).push(entry_views(f0).last()));
}

impl Default for SceneHistory {
    fn default() -> (r: Self)
        ensures
            r.wf(),
            r@.undo.len() == 0,
            r@.redo.len() == 0,
            r@.pending is None,
            r@.saved is None,
            r@.request is None,
            r@.revision == 0,
    {
        SceneHistory::new()
    }
}

impl SceneHistory {
    /// The two stacks together never hold more than `HISTORY_LIMIT` actions.
    pub open spec fn wf(&self) -> bool {
        self@.undo.len() + self@.redo.len() <= HISTORY_LIMIT
    }

    pub fn new() -> (r: Self)
        ensures
            r.wf(),
            r@.undo.len() == 0,
            r@.redo.len() == 0,
            r@.pending is None,
            r@.saved is None,
            r@.request is None,
            r@.revision == 0,
    {
        SceneHistory {
            undo: Vec::new(),
            redo: Vec::new(),
            pending: None,
            saved: None,
            request: None,
            revision: 0,
        }
    }

    /// A history whose saved scene is `saved` (and otherwise empty).
    pub fn with_saved(saved: SceneSnapshot) -> (r: Self)
        ensures
            r.wf(),
            r@.undo.len() == 0,
            r@.redo.len() == 0,
            r@.pending is None,
            r@.saved == Some(saved@),
            r@.request is None,
    {
        SceneHistory {
            undo: Vec::new(),
            redo: Vec::new(),
            pending: None,
            saved: Some(saved),
            request: None,
            revision: 0,
        }
    }

    /// A history holding the given stacks and saved scene, when together
    /// the stacks fit within `HISTORY_LIMIT`.
    pub fn from_stacks(
        undo: Vec<HistoryEntry>,
        redo: Vec<HistoryEntry>,
        saved: Option<SceneSnapshot>,
    ) -> (r: Option<Self>)
        ensures
            match r {
                Some(h) => undo.len() + redo.len() <= HISTORY_LIMIT && h.wf() && h@.undo == entry_views(
                    undo@,
                ) && h@.redo == entry_views(redo@) && h@.saved == snapshot_opt_view(saved)
                    && h@.pending is None && h@.request is None,
                None => undo.len() + redo.len() > HISTORY_LIMIT,
            },
    {
        if undo.len() > HISTORY_LIMIT || redo.len() > HISTORY_LIMIT - undo.len() {
            return None;
        }
        Some(SceneHistory { undo, redo, pending: None, saved, request: None, revision: 0 })
    }

    /// Starts an action that the end of the frame records; an action
    /// already started keeps its own starting scene.
    pub fn begin(&mut self, label: String, before: SceneSnapshot)
        requires
            old(self).wf(),
        ensures
            final(self).wf(),
            final(self)@ == (if old(self)@.pending is None {
                (SceneHistoryView {
                    pending: Some(PendingActionView { label: label@, before: before@ }),
                    ..old(self)@
                })
            } else {
                old(self)@
            }),
    {
        if self.pending.is_none() {
            self.pending = Some(PendingAction { label, before });
        }
    }

    pub fn request_reset(&mut self, saved: bool)
        requires
            old(self).wf(),
        ensures
            final(self).wf(),
            final(self)@ == (SceneHistoryView {
                request: Some(HistoryRequest::Reset { saved }),
                ..old(self)@
            }),
    {
        self.request = Some(HistoryRequest::Reset { saved });
    }

    pub fn request_mark_saved(&mut self)
        requires
            old(self).wf(),
        ensures
            final(self).wf(),
            final(self)@ == (SceneHistoryView { request: Some(HistoryRequest::MarkSaved), ..old(self)@ }),
    {
        self.request = Some(HistoryRequest::MarkSaved);
    }

    pub fn request_clear(&mut self)
        requires
            old(self).wf(),
        ensures
            final(self).wf(),
            final(self)@ == (SceneHistoryView { request: Some(HistoryRequest::Clear), ..old(self)@ }),
    {
        self.request = Some(HistoryRequest::Clear);
    }

    pub fn can_undo(&self) -> (r: bool)
        ensures
            r == (self@.undo.len() > 0),
    {
        self.undo.len() > 0
    }

    pub fn can_redo(&self) -> (r: bool)
        ensures
            r == (self@.redo.len() > 0),
    {
        self.redo.len() > 0
    }

    pub fn has_request(&self) -> (r: bool)
        ensures
            r == (self@.request is Some),
    {
        self.request.is_some()
    }

    pub fn has_pending(&self) -> (r: bool)
        ensures
            r == (self@.pending is Some),
    {
        self.pending.is_some()
    }

    pub fn revision(&self) -> (r: u64)
        ensures
            r == self@.revision,
    {
        self.revision
    }

    /// The label of the action that Undo would revert.
    pub fn undo_label(&self) -> (r: Option<&str>)
        ensures
            match r {
                Some(l) => self@.undo.len() > 0 && l@ == self@.undo.last().label,
                None => self@.undo.len() == 0,
            },
    {
        if self.undo.len() > 0 {
            let e = &self.undo[self.undo.len() - 1];
            assert(entry_views(self.undo@).last() == e@);
            Some(e.label.as_str())
        } else {
            None
        }
    }

    /// The label of the action that Redo would repeat.
    pub fn redo_label(&self) -> (r: Option<&str>)
        ensures
            match r {
                Some(l) => self@.redo.len() > 0 && l@ == self@.redo.last().label,
                None => self@.redo.len() == 0,
            },
    {
        if self.redo.len() > 0 {
            let e = &self.redo[self.redo.len() - 1];
            assert(entry_views(self.redo@).last() == e@);
            Some(e.label.as_str())
        } else {
            None
        }
    }

    /// The status line under the history buttons.
    pub fn status_text(&self) -> (r: String)
        ensures
            r@ == (if self@.undo.len() > 0 {
                "Undo: "@ + self@.undo.last().label
            } else if self@.redo.len() > 0 {
                "Redo: "@ + self@.redo.last().label
            } else {
                "No history"@
            }),
    {
        match self.undo_label() {
            Some(label) => {
                let mut s = owned("Undo: ");
                push_str(&mut s, label);
                s
            },
            None => match self.redo_label() {
                Some(label) => {
                    let mut s = owned("Redo: ");
                    push_str(&mut s, label);
                    s
                },
                None => owned("No history"),
            },
        }
    }

    /// Whether a history button is disabled.
    pub fn button_disabled(&self, action: HistoryAction) -> (r: bool)
        ensures
            r == (match action {
                HistoryAction::Undo => self@.undo.len() == 0,
                HistoryAction::Redo => self@.redo.len() == 0,
            }),
    {
        match action {
            HistoryAction::Undo => !self.can_undo(),
            HistoryAction::Redo => !self.can_redo(),
        }
    }

    fn bump_revision(&mut self)
        ensures
            final(self)@ == (SceneHistoryView { revision: next_revision(old(self)@.revision), ..old(self)@ }),
            final(self).wf() == old(self).wf(),
    {
        self.revision = self.revision.wrapping_add(1);
    }

    /// Sets the document's dirty flag for the scene `current`.
    pub fn update_dirty(&self, current: &SceneSnapshot, document: &mut SceneDocument)
        ensures
            final(document).dirty == spec_is_dirty(self@.saved, current@),
            final(document).spec_revision() == next_revision(old(document).spec_revision()),
            final(document).open == old(document).open,
            final(document).path == old(document).path,
            final(document).name == old(document).name,
            final(document).dialog == old(document).dialog,
    {
        let dirty = match &self.saved {
            Some(saved) => !saved.same_nodes(current),
            None => true,
        };
        document.dirty = dirty;
        document.bump_revision();
    }

    /// Records an action from `before` to `after`; the document's dirty
    /// flag then follows `after`.
    pub fn record(
        &mut self,
        label: String,
        before: SceneSnapshot,
        after: SceneSnapshot,
        document: &mut SceneDocument,
    )
        requires
            old(self).wf(),
        ensures
            final(self).wf(),
            final(self)@ == spec_record(old(self)@, label@, before@, after@),
            old(self)@.saved == final(self)@.saved,
            before@ != after@ ==> final(document).dirty == spec_is_dirty(old(self)@.saved, after@),
            before@ == after@ ==> *final(document) == *old(document),
    {
        if before.same_as(&after) {
            return;
        }
        let ghost h = self@;
        let current = after.duplicate();
        let ghost u0 = self.undo@;
        self.undo.push(HistoryEntry { label, before, after });
        assert(entry_views(self.undo@) =~= entry_views(u0).push(self.undo@.last()@));
        if self.undo.len() > HISTORY_LIMIT {
            let ghost u1 = self.undo@;
            self.undo.remove(0);
            assert(entry_views(self.undo@) =~= entry_views(u1).drop_first());
        }
        self.redo.clear();
        assert(entry_views(self.redo@) =~= Seq::<HistoryEntryView>::empty());
        self.update_dirty(&current, document);
        self.bump_revision();
    }

    /// Records an interaction that owns its full lifetime, such as a
    /// viewport drag; any pending action is dropped.
    pub fn commit(
        &mut self,
        label: String,
        before: SceneSnapshot,
        after: SceneSnapshot,
        document: &mut SceneDocument,
    )
        requires
            old(self).wf(),
        ensures
            final(self).wf(),
            final(self)@ == spec_record(
                (SceneHistoryView { pending: None, ..old(self)@ }),
                label@,
                before@,
                after@,
            ),
            before@ != after@ ==> final(document).dirty == spec_is_dirty(old(self)@.saved, after@),
            before@ == after@ ==> *final(document) == *old(document),
    {
        self.pending = None;
        self.record(label, before, after, document);
    }

    /// The Undo or Redo button: moves the top action to the other stack and
    /// returns the scene to restore (none when the stack is empty). The
    /// document's dirty flag follows the restored scene.
    pub fn activate(&mut self, action: HistoryAction, document: &mut SceneDocument) -> (r: Option<
        SceneSnapshot,
    >)
        requires
            old(self).wf(),
        ensures
            final(self).wf(),
            final(self)@ == spec_activate(old(self)@, action),
            snapshot_opt_view(r) == spec_restored(old(self)@, action),
            match r {
                Some(s) => final(document).dirty == spec_is_dirty(old(self)@.saved, s@),
                None => *final(document) == *old(document),
            },
    {
        self.pending = None;
        match action {
            HistoryAction::Undo => {
                if self.undo.len() == 0 {
                    return None;
                }
                let snapshot = self.undo[self.undo.len() - 1].before.duplicate();
                assert(entry_views(self.undo@).last().before == snapshot@);
                self.update_dirty(&snapshot, document);
                move_top(&mut self.undo, &mut self.redo);
                self.bump_revision();
                Some(snapshot)
            },
            HistoryAction::Redo => {
                if self.redo.len() == 0 {
                    return None;
                }
                let snapshot = self.redo[self.redo.len() - 1].after.duplicate();
                assert(entry_views(self.redo@).last().after == snapshot@);
                self.update_dirty(&snapshot, document);
                move_top(&mut self.redo, &mut self.undo);
                self.bump_revision();
                Some(snapshot)
            },
        }
    }

    /// End-of-frame work requested earlier, applied to `current`, the scene
    /// as it is now.
    pub fn process_request(&mut self, current: SceneSnapshot, document: &mut SceneDocument)
        requires
            old(self).wf(),
        ensures
            final(self).wf(),
            final(self)@.request is None,
            match old(self)@.request {
                None => final(self)@ == old(self)@ && *final(document) == *old(document),
                Some(HistoryRequest::Clear) => final(self)@.undo.len() == 0
                    && final(self)@.redo.len() == 0 && final(self)@.pending is None
                    && final(self)@.saved is None && final(self)@.revision == next_revision(
                    old(self)@.revision,
                ) && *final(document) == *old(document),
                Some(HistoryRequest::Reset { saved }) => final(self)@.undo.len() == 0
                    && final(self)@.redo.len() == 0 && final(self)@.pending is None
                    && final(self)@.saved == (if saved {
                    Some(current@)
                } else {
                    None
                }) && final(self)@.revision == next_revision(old(self)@.revision)
                    && final(document).dirty == !saved,
                Some(HistoryRequest::MarkSaved) => final(self)@ == (SceneHistoryView {
                    saved: Some(current@),
                    request: None,
                    revision: next_revision(old(self)@.revision),
                    ..old(self)@
                }) && !final(document).dirty,
            },
    {
        let request = match self.request {
            Some(r) => r,
            None => {
                return;
            },
        };
        self.request = None;
        match request {
            HistoryRequest::Clear => {
                self.undo.clear();
                self.redo.clear();
                self.pending = None;
                self.saved = None;
                assert(entry_views(self.undo@) =~= Seq::<HistoryEntryView>::empty());
                assert(entry_views(self.redo@) =~= Seq::<HistoryEntryView>::empty());
            },
            HistoryRequest::Reset { saved } => {
                self.undo.clear();
                self.redo.clear();
                self.pending = None;
                assert(entry_views(self.undo@) =~= Seq::<HistoryEntryView>::empty());
                assert(entry_views(self.redo@) =~= Seq::<HistoryEntryView>::empty());
                if saved {
                    let copy = current.duplicate();
                    self.saved = Some(copy);
                } else {
                    self.saved = None;
                }
                self.update_dirty(&current, document);
            },
            HistoryRequest::MarkSaved => {
                self.saved = Some(current);
                document.dirty = false;
                document.bump_revision();
            },
        }
        self.bump_revision();
    }

    /// End of frame: a pending action is recorded against `after`, the
    /// scene as it is now.
    pub fn finalize_pending(&mut self, after: SceneSnapshot, document: &mut SceneDocument)
        requires
            old(self).wf(),
        ensures
            final(self).wf(),
            match old(self)@.pending {
                None => final(self)@ == old(self)@ && *final(document) == *old(document),
                Some(p) => final(self)@ == spec_record(
                    (SceneHistoryView { pending: None, ..old(self)@ }),
                    p.label,
                    p.before,
                    after@,
                ),
            },
    {
        let pending = self.pending.take();
        match pending {
            None => {},
            Some(p) => {
                self.record(p.label, p.before, after, document);
            },
        }
    }
}

/// Undo followed by Redo puts both stacks back as they were, and the two
/// buttons restore the scenes on either side of the same action.
/// Whether the scene is dirty depends on its nodes alone: a scene that
/// differs from the saved one only in what is selected (or in the
/// workspace) is as clean as the saved one, and the saved scene is clean.
pub proof fn lemma_dirty_ignores_selection(
    saved: SceneSnapshotView,
    a: SceneSnapshotView,
    b: SceneSnapshotView,
)
    requires
        a.nodes == b.nodes,
    ensures
        spec_is_dirty(Some(saved), a) == spec_is_dirty(Some(saved), b),
        !spec_is_dirty(Some(saved), saved),
{
}

pub proof fn lemma_undo_then_redo(h: SceneHistoryView)
    requires
        h.undo.len() > 0,
    ensures
        spec_activate(spec_activate(h, HistoryAction::Undo), HistoryAction::Redo).undo == h.undo,
        spec_activate(spec_activate(h, HistoryAction::Undo), HistoryAction::Redo).redo == h.redo,
        spec_restored(h, HistoryAction::Undo) == Some(h.undo.last().before),
        spec_restored(spec_activate(h, HistoryAction::Undo), HistoryAction::Redo) == Some(
            h.undo.last().after,
        ),
{
    let u = spec_activate(h, HistoryAction::Undo);
    assert(u.undo.push(u.redo.last()) =~= h.undo);
    assert(u.redo.drop_last() =~= h.redo);
}

/// Recording a change empties the redo stack, puts the action on top of
/// the undo stack, and never lets the undo stack exceed the limit.
pub proof fn lemma_record_clears_redo(
    h: SceneHistoryView,
    label: Seq<char>,
    before: SceneSnapshotView,
    after: SceneSnapshotView,
)
    requires
        before != after,
        h.undo.len() <= HISTORY_LIMIT,
    ensures
        spec_record(h, label, before, after).redo.len() == 0,
        spec_record(h, label, before, after).undo.last() == (HistoryEntryView {
            label,
            before,
            after,
        }),
        spec_record(h, label, before, after).undo.len() <= HISTORY_LIMIT,
{
}

} // verus!
