//! Cells, sizes and rectangles of a terminal screen.

use vstd::prelude::*;

verus! {

/// A cell of the screen, counted from the upper left corner.
#[derive(Debug, Clone, Copy, PartialEq, Eq, Hash, Structural)]
pub struct Position {
    pub x: u16,
    pub y: u16,
}

/// The extent of the screen in cells.
#[derive(Debug, Clone, Copy, PartialEq, Eq, Hash, Structural)]
pub struct Size {
    pub width: u16,
    pub height: u16,
}

/// A rectangle of cells.
#[derive(Debug, Clone, Copy, PartialEq, Eq, Hash, Structural)]
pub struct Rect {
    pub x: u16,
    pub y: u16,
    pub width: u16,
    pub height: u16,
}

/// The smaller of two integers.
pub open spec fn least(a: int, b: int) -> int {
    if a <= b {
        a
    } else {
        b
    }
}

/// The larger of two integers.
pub open spec fn greatest(a: int, b: int) -> int {
    if a >= b {
        a
    } else {
        b
    }
}

/// `a + b`, held at the largest `u16`.
pub open spec fn plus(a: u16, b: u16) -> u16 {
    if a + b > u16::MAX {
        u16::MAX
    } else {
        (a + b) as u16
    }
}

/// `a - b`, held at zero.
pub open spec fn minus(a: u16, b: u16) -> u16 {
    if a < b {
        0
    } else {
        (a - b) as u16
    }
}

/// The smaller of two coordinates.
pub open spec fn lower(a: u16, b: u16) -> u16 {
    if a <= b {
        a
    } else {
        b
    }
}

/// The larger of two coordinates.
pub open spec fn upper(a: u16, b: u16) -> u16 {
    if a >= b {
        a
    } else {
        b
    }
}

/// The smaller of two coordinates.
pub fn min_u16(a: u16, b: u16) -> (r: u16)
    ensures
        r == lower(a, b),
{
    if a <= b {
        a
    } else {
        b
    }
}

/// The larger of two coordinates.
pub fn max_u16(a: u16, b: u16) -> (r: u16)
    ensures
        r == upper(a, b),
{
    if a >= b {
        a
    } else {
        b
    }
}

impl Rect {
    /// The rectangle at `x`, `y` whose extent is cut where it would leave the range of `u16`.
    pub open spec fn spec_new(x: u16, y: u16, width: u16, height: u16) -> Rect {
        Rect { x, y, width: (plus(x, width) - x) as u16, height: (plus(y, height) - y) as u16 }
    }

    /// The rectangle at `x`, `y`, cut to the range of `u16`.
    #[verifier::when_used_as_spec(spec_new)]
    pub fn new(x: u16, y: u16, width: u16, height: u16) -> (r: Rect)
        ensures
            r == Rect::spec_new(x, y, width, height),
    {
        Rect { x, y, width: x.saturating_add(width) - x, height: y.saturating_add(height) - y }
    }

    /// The first column right of the rectangle.
    pub open spec fn spec_right(self) -> u16 {
        plus(self.x, self.width)
    }

    /// The first column right of the rectangle.
    #[verifier::when_used_as_spec(spec_right)]
    pub fn right(self) -> (r: u16)
        ensures
            r == self.spec_right(),
    {
        self.x.saturating_add(self.width)
    }

    /// The first row below the rectangle.
    pub open spec fn spec_bottom(self) -> u16 {
        plus(self.y, self.height)
    }

    /// The first row below the rectangle.
    #[verifier::when_used_as_spec(spec_bottom)]
    pub fn bottom(self) -> (r: u16)
        ensures
            r == self.spec_bottom(),
    {
        self.y.saturating_add(self.height)
    }

    /// Whether the rectangle holds no cell.
    pub open spec fn spec_is_empty(self) -> bool {
        self.width == 0 || self.height == 0
    }

    /// Whether the rectangle holds no cell.
    #[verifier::when_used_as_spec(spec_is_empty)]
    pub fn is_empty(self) -> (r: bool)
        ensures
            r == self.spec_is_empty(),
    {
        self.width == 0 || self.height == 0
    }

    /// How many cells the rectangle holds.
    pub open spec fn cells(self) -> nat {
        self.width as nat * self.height as nat
    }

    /// Whether every column and row of the rectangle is a `u16`.
    pub open spec fn fits(self) -> bool {
        &&& self.x + self.width <= u16::MAX + 1
        &&& self.y + self.height <= u16::MAX + 1
    }

    /// The rectangle moved down by `rows` (up, where negative), as far as it stays in the range of
    /// `u16`.
    pub open spec fn spec_offset(self, rows: i32) -> Rect {
        Rect {
            x: least(self.x as int, u16::MAX - self.width) as u16,
            y: greatest(0, least(self.y + rows, u16::MAX - self.height)) as u16,
            width: self.width,
            height: self.height,
        }
    }

    /// The rectangle moved down by `rows`, as far as it stays in the range of `u16`.
    pub fn offset(self, rows: i32) -> (r: Rect)
        ensures
            r == self.spec_offset(rows),
    {
        let max_x: u16 = u16::MAX - self.width;
        let max_y: i64 = (u16::MAX - self.height) as i64;
        let moved: i64 = self.y as i64 + rows as i64;
        let y: i64 = if moved < 0 {
            0
        } else if moved > max_y {
            max_y
        } else {
            moved
        };
        Rect { x: min_u16(self.x, max_x), y: y as u16, width: self.width, height: self.height }
    }

    /// The upper left corner.
    pub open spec fn spec_as_position(self) -> Position {
        Position { x: self.x, y: self.y }
    }

    /// The upper left corner.
    #[verifier::when_used_as_spec(spec_as_position)]
    pub fn as_position(self) -> (r: Position)
        ensures
            r == self.spec_as_position(),
    {
        Position { x: self.x, y: self.y }
    }
}

/// A rectangle that is moved keeps its size, and goes by as many rows as said, unless it would leave
/// the range of `u16`: there it goes as far as it can.
pub proof fn law_moved_rectangle_keeps_its_size(area: Rect, rows: i32)
    requires
        area.x + area.width <= u16::MAX,
        area.y + area.height <= u16::MAX,
    ensures
        ({
            let now = area.spec_offset(rows);
            &&& now.x == area.x
            &&& now.width == area.width
            &&& now.height == area.height
            &&& 0 <= area.y + rows && area.y + rows + area.height <= u16::MAX ==> now.y == area.y
                + rows
            &&& area.y + rows < 0 ==> now.y == 0
            &&& area.y + rows + area.height > u16::MAX ==> now.y + now.height == u16::MAX
        }),
{
}

/// A rectangle holds the places from its corner on, as many as it is wide and high, as far as they
/// can be counted.
pub proof fn law_rectangle_ends_behind_its_places(area: Rect)
    requires
        area.x + area.width <= u16::MAX,
        area.y + area.height <= u16::MAX,
    ensures
        area.spec_right() == area.x + area.width,
        area.spec_bottom() == area.y + area.height,
        area.spec_is_empty() <==> area.width == 0 || area.height == 0,
        area.spec_as_position() == (Position { x: area.x, y: area.y }),
        Rect::spec_new(area.x, area.y, area.width, area.height) == area,
{
}

} // verus!
