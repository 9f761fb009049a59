//! Velo-de's Spaces model and the pure logic around it: the grid of Spaces
//! and its commands, what the Overview shows, the IPC wire types and the
//! grid as IPC clients see it, Hyprland-compatible event lines and the
//! `hyprctl` shim's answers, socket paths, layer-shell geometry,
//! keybinding parsing, palette colours and cursor frame selection.

pub mod commands;
pub mod cursor;
pub mod grid;
pub mod hypr_compat;
pub mod hyprctl;
pub mod ipc_state;
pub mod keybind;
pub mod laws;
pub mod layer;
pub mod model;
pub mod overview;
pub mod paths;
pub mod protocol;
pub mod text;
pub mod theme;
