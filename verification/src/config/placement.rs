//! Where popups go on screen, as the older placement settings give it.

use vstd::prelude::*;

verus! {

/// The corner or edge popups are placed at.
#[derive(Clone, Copy, Debug, PartialEq, Eq, Structural)]
pub enum Position {
    Top,
    TopLeft,
    TopRight,
    Bottom,
    BottomLeft,
    BottomRight,
    Left,
    Right,
}

impl Default for Position {
    fn default() -> (p: Self)
        ensures
            p == Position::TopRight,
    {
        Position::TopRight
    }
}

/// The placement of popups and the space around and between them, in pixels.
#[derive(Clone, Copy, Debug, PartialEq, Eq, Structural)]
pub struct PlacementConfig {
    pub position: Position,
    pub top_margin: u32,
    pub bottom_margin: u32,
    pub left_margin: u32,
    pub right_margin: u32,
    pub notification_gap: u32,
}

impl Default for PlacementConfig {
    fn default() -> (c: Self)
        ensures
            c == (PlacementConfig {
                position: Position::TopRight,
                top_margin: 16,
                bottom_margin: 16,
                left_margin: 16,
                right_margin: 16,
                notification_gap: 8,
            }),
    {
        PlacementConfig {
            position: Position::TopRight,
            top_margin: 16,
            bottom_margin: 16,
            left_margin: 16,
            right_margin: 16,
            notification_gap: 8,
        }
    }
}

} // verus!
