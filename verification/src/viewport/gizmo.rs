//! The transform gizmo's mode and space, as the viewport keys set them.

use vstd::prelude::*;

verus! {

/// What dragging the transform gizmo changes.
#[derive(Clone, Copy, Debug, PartialEq, Eq, Structural)]
pub enum GizmoMode {
    Translate,
    Rotate,
    Scale,
}

/// The axes the gizmo follows.
#[derive(Clone, Copy, Debug, PartialEq, Eq, Structural)]
pub enum GizmoSpace {
    World,
    Local,
}

#[derive(Clone, Copy, Debug, PartialEq, Eq, Structural)]
pub struct GizmoSettings {
    pub mode: GizmoMode,
    pub space: GizmoSpace,
}

pub open spec fn other_space(space: GizmoSpace) -> GizmoSpace {
    match space {
        GizmoSpace::World => GizmoSpace::Local,
        GizmoSpace::Local => GizmoSpace::World,
    }
}

impl GizmoSettings {
    /// Keys 1, 2 and 3 choose translate, rotate and scale, handled in that
    /// order so that the last of them pressed in a frame wins; X switches
    /// between world and local axes.
    pub fn keys(&mut self, one: bool, two: bool, three: bool, x: bool)
        ensures
            final(self).mode == (if three {
                GizmoMode::Scale
            } else if two {
                GizmoMode::Rotate
            } else if one {
                GizmoMode::Translate
            } else {
                old(self).mode
            }),
            final(self).space == (if x {
                other_space(old(self).space)
            } else {
                old(self).space
            }),
    {
        if one {
            self.mode = GizmoMode::Translate;
        }
        if two {
            self.mode = GizmoMode::Rotate;
        }
        if three {
            self.mode = GizmoMode::Scale;
        }
        if x {
            self.space = match self.space {
                GizmoSpace::World => GizmoSpace::Local,
                GizmoSpace::Local => GizmoSpace::World,
            };
        }
    }
}

} // verus!
