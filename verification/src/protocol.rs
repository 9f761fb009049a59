//! The values of `velo-de`'s native IPC protocol that carry no floating
//! point: directions, Space and window descriptions, responses and the
//! event stream.

use vstd::prelude::*;

use crate::model;

verus! {

/// A grid-relative direction, as the wire carries it.
#[derive(Debug, Clone, Copy, PartialEq, Eq, Structural)]
pub enum Direction {
    Left,
    Right,
    Up,
    Down,
}

impl From<Direction> for model::Direction {
    fn from(d: Direction) -> (r: model::Direction) {
        match d {
            Direction::Left => model::Direction::Left,
            Direction::Right => model::Direction::Right,
            Direction::Up => model::Direction::Up,
            Direction::Down => model::Direction::Down,
        }
    }
}

impl vstd::std_specs::convert::FromSpecImpl<Direction> for model::Direction {
    open spec fn obeys_from_spec() -> bool {
        true
    }

    open spec fn from_spec(d: Direction) -> model::Direction {
        match d {
            Direction::Left => model::Direction::Left,
            Direction::Right => model::Direction::Right,
            Direction::Up => model::Direction::Up,
            Direction::Down => model::Direction::Down,
        }
    }
}

impl From<model::Direction> for Direction {
    fn from(d: model::Direction) -> (r: Direction) {
        match d {
            model::Direction::Left => Direction::Left,
            model::Direction::Right => Direction::Right,
            model::Direction::Up => Direction::Up,
            model::Direction::Down => Direction::Down,
        }
    }
}

impl vstd::std_specs::convert::FromSpecImpl<model::Direction> for Direction {
    open spec fn obeys_from_spec() -> bool {
        true
    }

    open spec fn from_spec(d: model::Direction) -> Direction {
        match d {
            model::Direction::Left => Direction::Left,
            model::Direction::Right => Direction::Right,
            model::Direction::Up => Direction::Up,
            model::Direction::Down => Direction::Down,
        }
    }
}

/// One Space, described in Hyprland-`workspaces`-compatible shape.
#[derive(Debug, Clone, Copy, PartialEq)]
pub struct SpaceInfo {
    /// Stable, 1-based id (Hyprland-shaped "workspace id").
    pub id: i32,
    /// This Space's position in the Spaces grid.
    pub coord: (i32, i32),
    /// Number of mapped windows in this Space.
    pub windows: usize,
    /// Whether this is the currently-focused Space.
    pub focused: bool,
}

/// The currently-focused window, in Hyprland-`activewindow`-compatible
/// shape.
#[derive(Debug, Clone, PartialEq)]
pub struct WindowInfo {
    pub title: String,
    pub class: String,
}

/// A response to a request.
#[derive(Debug, Clone, PartialEq)]
pub enum Response {
    Spaces(Vec<SpaceInfo>),
    ActiveSpace(SpaceInfo),
    ActiveWindow(Option<WindowInfo>),
    /// The request was carried out (`"ok"` on the wire).
    Done,
    /// The request failed, with a message (`"err"` on the wire).
    Failed(String),
    /// Sent once in reply to a subscription before the connection switches
    /// to streaming [`Event`]s.
    Subscribed,
}

/// An asynchronous notification, streamed after a subscription.
#[derive(Debug, Clone, PartialEq)]
pub enum Event {
    /// The focused Space changed to this (Hyprland-shaped) id.
    Workspace(i32),
    /// A Space was created (Hyprland-shaped id).
    CreateWorkspace(i32),
    /// A Space was destroyed (Hyprland-shaped id).
    DestroyWorkspace(i32),
    /// The focused window changed.
    ActiveWindow(WindowInfo),
    /// Spaces or their window counts changed; bar modules should refresh.
    SpacesChanged,
}

} // verus!
