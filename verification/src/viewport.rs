//! Viewport interaction rules that do not depend on geometry.

pub mod gizmo;
pub mod ownership;
pub mod snap;
