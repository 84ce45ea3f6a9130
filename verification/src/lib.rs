//! Tracks the set of open windows of a tiling window manager, grouped by
//! workspace, classifies each window into a coarse application category, and
//! prepares the update messages that a consumer (such as a status-bar
//! renderer) receives.
//!
//! The window-manager transport, the external property query and the final
//! rendering are collaborators outside this crate; everything here works on
//! plain values handed in by that surrounding code.

pub mod classify;
pub mod engine;
pub mod table;
pub mod text;
pub mod tree_util;
pub mod workspace;
pub mod x11_util;
