//! Verified core of the Revy scene editor: the project manager's records,
//! state and dialogs; project settings and their `project.toml` update;
//! selection, workspaces, pointer ownership and the transform gizmo keys;
//! the scene document and its history; and the scan of a project's Rust
//! sources for components, systems and entity scripts.

pub mod text;
pub mod path_ops;
pub mod toml_doc;
pub mod project_manager;
pub mod selection;
pub mod viewport;
pub mod workspace;
pub mod scene;
pub mod scene_file;
pub mod undo;
pub mod project_settings;
pub mod rust_components;
pub mod rust_source;
