//! Rectangles of the screen.

use vstd::prelude::*;

verus! {

/// A rectangle of the screen, in cells.
#[derive(Debug, Clone, Copy, PartialEq, Eq, Structural)]
pub struct Rect {
    pub x: u16,
    pub y: u16,
    pub width: u16,
    pub height: u16,
}

/// A sum of screen coordinates, no larger than the largest of them.
pub open spec fn screen_sum(a: u16, b: u16) -> u16 {
    if a + b > u16::MAX {
        u16::MAX
    } else {
        (a + b) as u16
    }
}

/// A difference of screen coordinates, no smaller than zero.
pub open spec fn screen_difference(a: u16, b: u16) -> u16 {
    if a < b {
        0
    } else {
        (a - b) as u16
    }
}

impl Rect {
    /// The column behind the rectangle's last one.
    pub open spec fn right_column(self) -> u16 {
        screen_sum(self.x, self.width)
    }

    /// The line below the rectangle's last one.
    pub open spec fn bottom_line(self) -> u16 {
        screen_sum(self.y, self.height)
    }

    /// The cell lies in the rectangle.
    pub open spec fn holds(self, column: u16, row: u16) -> bool {
        self.x <= column < self.right_column() && self.y <= row < self.bottom_line()
    }

    /// The column behind the rectangle's last one.
    pub fn right(self) -> (r: u16)
        ensures
            r == self.right_column(),
    {
        self.x.saturating_add(self.width)
    }

    /// The line below the rectangle's last one.
    pub fn bottom(self) -> (r: u16)
        ensures
            r == self.bottom_line(),
    {
        self.y.saturating_add(self.height)
    }

    /// The cell lies in the rectangle.
    pub fn contains(self, column: u16, row: u16) -> (r: bool)
        ensures
            r == self.holds(column, row),
    {
        !(column < self.x || column >= self.right() || row < self.y || row >= self.bottom())
    }

    /// The rectangle without its rightmost columns.
    pub fn clip_right(self, width: u16) -> (r: Rect)
        ensures
            r == (Rect { width: screen_difference(self.width, width), ..self }),
    {
        Rect { x: self.x, y: self.y, width: self.width.saturating_sub(width), height: self.height }
    }
}

} // verus!
