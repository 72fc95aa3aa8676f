//! Positions and rectangles of funge-space.

use vstd::prelude::*;

verus! {

/// A cell location or a motion vector. Coordinates may be negative.
#[derive(Clone, Copy, Debug, PartialEq, Eq, Structural)]
pub struct Pos {
    pub x: isize,
    pub y: isize,
}

/// A rectangle, half-open in both axes: it holds `(x, y)` when
/// `left <= x < right` and `top <= y < bottom`.
#[derive(Clone, Copy, Debug, PartialEq, Eq, Structural)]
pub struct Rect {
    pub left: isize,
    pub right: isize,
    pub top: isize,
    pub bottom: isize,
}

impl Rect {
    /// Whether the mathematical point `(x, y)` lies in the rectangle.
    pub open spec fn holds(self, x: int, y: int) -> bool {
        self.left <= x < self.right && self.top <= y < self.bottom
    }

    /// Whether a position lies in the rectangle.
    pub open spec fn has(self, p: Pos) -> bool {
        self.holds(p.x as int, p.y as int)
    }

    pub fn new(left: isize, right: isize, top: isize, bottom: isize) -> (r: Self)
        ensures
            r == (Rect { left, right, top, bottom }),
    {
        Rect { left, right, top, bottom }
    }

    /// `right - left`; the difference has to fit the machine integer.
    pub fn width(&self) -> (w: isize)
        requires
            isize::MIN <= self.right - self.left <= isize::MAX,
        ensures
            w == self.right - self.left,
    {
        self.right - self.left
    }

    /// `bottom - top`; the difference has to fit the machine integer.
    pub fn height(&self) -> (h: isize)
        requires
            isize::MIN <= self.bottom - self.top <= isize::MAX,
        ensures
            h == self.bottom - self.top,
    {
        self.bottom - self.top
    }

    /// Whether the point given by the first two coordinates of `pos` lies in
    /// the rectangle.
    pub fn contains(&self, pos: &Vec<isize>) -> (b: bool)
        requires
            pos.len() >= 2,
        ensures
            b == self.holds(pos[0] as int, pos[1] as int),
    {
        self.left <= pos[0] && pos[0] < self.right && self.top <= pos[1] && pos[1] < self.bottom
    }

    /// Whether `p` lies in the rectangle.
    pub fn contains_pos(&self, p: Pos) -> (b: bool)
        ensures
            b == self.has(p),
    {
        self.left <= p.x && p.x < self.right && self.top <= p.y && p.y < self.bottom
    }
}

} // verus!
