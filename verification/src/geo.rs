//! Axis-aligned bounding rectangles over integer map coordinates.
//!
//! Coordinates are fixed-point map units (the projection itself is an
//! external concern); the engine only ever combines bounding boxes.

use vstd::prelude::*;

verus! {

/// A planar coordinate in integer map units.
#[derive(Clone, Copy, Debug, PartialEq, Eq, Structural)]
pub struct Coord {
    pub x: i64,
    pub y: i64,
}

/// An axis-aligned rectangle, kept normalized: `min` is componentwise
/// at most `max`.
#[derive(Clone, Copy, Debug, PartialEq, Eq, Structural)]
pub struct Rect {
    pub min: Coord,
    pub max: Coord,
}

impl Rect {
    /// The rectangle is normalized.
    pub open spec fn wf(self) -> bool {
        self.min.x <= self.max.x && self.min.y <= self.max.y
    }

    /// Builds a rectangle from two opposite corners, swapping
    /// coordinates as needed so the result is normalized.
    pub fn new(c1: Coord, c2: Coord) -> (r: Rect)
        ensures
            r.wf(),
            r.min.x == if c1.x <= c2.x { c1.x } else { c2.x },
            r.min.y == if c1.y <= c2.y { c1.y } else { c2.y },
            r.max.x == if c1.x <= c2.x { c2.x } else { c1.x },
            r.max.y == if c1.y <= c2.y { c2.y } else { c1.y },
    {
        let min_x: i64 = if c1.x <= c2.x { c1.x } else { c2.x };
        let max_x: i64 = if c1.x <= c2.x { c2.x } else { c1.x };
        let min_y: i64 = if c1.y <= c2.y { c1.y } else { c2.y };
        let max_y: i64 = if c1.y <= c2.y { c2.y } else { c1.y };
        Rect { min: Coord { x: min_x, y: min_y }, max: Coord { x: max_x, y: max_y } }
    }

    pub fn min(&self) -> (r: Coord)
        ensures
            r == self.min,
    {
        self.min
    }

    pub fn max(&self) -> (r: Coord)
        ensures
            r == self.max,
    {
        self.max
    }
}

/// The smallest rectangle containing both arguments: componentwise
/// minimum of the lower corners and maximum of the upper corners.
pub fn combine_bounding_rect(acc: Rect, rect: Rect) -> (r: Rect)
    requires
        acc.wf(),
        rect.wf(),
    ensures
        r.wf(),
        r.min.x == if acc.min.x <= rect.min.x { acc.min.x } else { rect.min.x },
        r.min.y == if acc.min.y <= rect.min.y { acc.min.y } else { rect.min.y },
        r.max.x == if acc.max.x >= rect.max.x { acc.max.x } else { rect.max.x },
        r.max.y == if acc.max.y >= rect.max.y { acc.max.y } else { rect.max.y },
{
    let Coord { x: min_x, y: min_y } = acc.min();
    let Coord { x: omin_x, y: omin_y } = rect.min();
    let Coord { x: max_x, y: max_y } = acc.max();
    let Coord { x: omax_x, y: omax_y } = rect.max();
    let nmin = Coord {
        x: if min_x <= omin_x { min_x } else { omin_x },
        y: if min_y <= omin_y { min_y } else { omin_y },
    };
    let nmax = Coord {
        x: if max_x >= omax_x { max_x } else { omax_x },
        y: if max_y >= omax_y { max_y } else { omax_y },
    };
    Rect::new(nmin, nmax)
}

} // verus!
