//! The window's edges, by which it is resized.

use vstd::prelude::*;

verus! {

#[derive(Debug, Clone, Copy, PartialEq, Eq, Structural)]
pub enum ResizeDirection {
    North,
    South,
    East,
    West,
    NorthEast,
    SouthEast,
    NorthWest,
    SouthWest,
}

#[derive(Debug, Clone, Copy, PartialEq, Eq, Structural)]
pub enum ResizeCursor {
    Vertical,
    Horizontal,
    NeSw,
    NwSe,
}

/// The direction in which the window is resized where the pointer is close to these edges.
/// Corners come before edges; in a window too narrow for all its edges, left comes before right
/// and top before bottom.
pub fn window_resize_direction(left: bool, right: bool, top: bool, bottom: bool) -> (direction:
    Option<ResizeDirection>)
    ensures
        direction is None <==> !left && !right && !top && !bottom,
        direction == Some(ResizeDirection::NorthWest) <==> top && left,
        direction == Some(ResizeDirection::NorthEast) <==> top && right && !left,
        direction == Some(ResizeDirection::SouthWest) <==> bottom && left && !top,
        direction == Some(ResizeDirection::SouthEast) <==> bottom && right && !left && !top,
        direction == Some(ResizeDirection::West) <==> left && !top && !bottom,
        direction == Some(ResizeDirection::East) <==> right && !left && !top && !bottom,
        direction == Some(ResizeDirection::North) <==> top && !left && !right,
        direction == Some(ResizeDirection::South) <==> bottom && !top && !left && !right,
{
    if left && top {
        Some(ResizeDirection::NorthWest)
    } else if right && top {
        Some(ResizeDirection::NorthEast)
    } else if left && bottom {
        Some(ResizeDirection::SouthWest)
    } else if right && bottom {
        Some(ResizeDirection::SouthEast)
    } else if left {
        Some(ResizeDirection::West)
    } else if right {
        Some(ResizeDirection::East)
    } else if top {
        Some(ResizeDirection::North)
    } else if bottom {
        Some(ResizeDirection::South)
    } else {
        None
    }
}

pub fn resize_cursor(direction: ResizeDirection) -> (cursor: ResizeCursor)
    ensures
        cursor == match direction {
            ResizeDirection::North | ResizeDirection::South => ResizeCursor::Vertical,
            ResizeDirection::East | ResizeDirection::West => ResizeCursor::Horizontal,
            ResizeDirection::NorthEast | ResizeDirection::SouthWest => ResizeCursor::NeSw,
            ResizeDirection::NorthWest | ResizeDirection::SouthEast => ResizeCursor::NwSe,
        },
{
    match direction {
        ResizeDirection::North | ResizeDirection::South => ResizeCursor::Vertical,
        ResizeDirection::East | ResizeDirection::West => ResizeCursor::Horizontal,
        ResizeDirection::NorthEast | ResizeDirection::SouthWest => ResizeCursor::NeSw,
        ResizeDirection::NorthWest | ResizeDirection::SouthEast => ResizeCursor::NwSe,
    }
}

} // verus!
