//! Verified core of a robotics site/workcell editor: the persisted document
//! model (anchors, frames, models, doors, lifts, levels), dense stable-ID
//! assignment over a live entity graph, document building and reloading with
//! cross-reference resolution, and the geometric projection of doors and
//! lifts into a simulator world description.
//!
//! All coordinates are fixed-point: lengths in millimeters, angles in
//! microradians. The application shell converts to and from floating point
//! at its edges.

use vstd::prelude::*;

pub mod focus;
pub mod graph;
pub mod ids;
pub mod numfmt;
pub mod rcc;
pub mod roundtrip;
pub mod sdf;
pub mod site;
pub mod siteload;
pub mod wload;
pub mod workcell;

verus! {

/// Which editor the application is in.
#[derive(Clone, Copy, Debug, PartialEq, Eq, Hash, Structural)]
pub enum AppState {
    MainMenu,
    SiteEditor,
    SiteVisualizer,
    WorkcellEditor,
    SiteDrawingEditor,
}

impl AppState {
    /// Whether the state works on a site: the site editor, visualizer and
    /// drawing editor do, the main menu and the workcell editor do not.
    pub fn in_site_mode(&self) -> (r: bool)
        ensures
            r == (self is SiteEditor || self is SiteVisualizer || self is SiteDrawingEditor),
    {
        match self {
            AppState::SiteEditor | AppState::SiteVisualizer | AppState::SiteDrawingEditor => true,
            AppState::MainMenu | AppState::WorkcellEditor => false,
        }
    }

    /// Whether the state displays a workspace: everything but the main menu.
    pub fn in_displaying_mode(&self) -> (r: bool)
        ensures
            r == !(self is MainMenu),
    {
        match self {
            AppState::MainMenu => false,
            AppState::SiteEditor
            | AppState::SiteVisualizer
            | AppState::WorkcellEditor
            | AppState::SiteDrawingEditor => true,
        }
    }
}

impl Default for AppState {
    fn default() -> (r: Self)
        ensures
            r is MainMenu,
    {
        AppState::MainMenu
    }
}

/// Which side of a door an anchor or motion refers to.
#[derive(Clone, Copy, Debug, PartialEq, Eq, Structural)]
pub enum Side {
    Left,
    Right,
}

impl Side {
    /// Sign convention: left is positive, right is negative.
    pub fn sign(&self) -> (r: i64)
        ensures
            r == self.sign_spec(),
    {
        match self {
            Side::Left => 1,
            Side::Right => -1,
        }
    }

    pub open spec fn sign_spec(&self) -> int {
        match self {
            Side::Left => 1,
            Side::Right => -1,
        }
    }
}

} // verus!
