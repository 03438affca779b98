use vstd::prelude::*;

verus! {

/// A cell position on the screen.
#[derive(Debug, Clone, Copy, PartialEq, Eq, Structural)]
pub struct Point {
    pub row: i32,
    pub column: i32,
}

/// A rectangle of cells: its top left corner and its size.
#[derive(Debug, Clone, Copy, PartialEq, Eq, Structural)]
pub struct Rect {
    pub row: i32,
    pub column: i32,
    pub width: u32,
    pub height: u32,
}

impl Point {
    pub fn default() -> (p: Point)
        ensures
            p == (Point { row: 0, column: 0 }),
    {
        Point { row: 0, column: 0 }
    }

    /// This point relative to the top left corner of `rect`, or `None`
    /// where the point lies outside of `rect`.
    pub fn nest_into(&self, rect: &Rect) -> (r: Option<Point>)
        requires
            rect.valid(),
        ensures
            r == nested(self.row as int, self.column as int, *rect),
    {
        nest_into(self.row, self.column, rect)
    }

    pub fn add(&self, rhs: &Point) -> (r: Point)
        requires
            i32::MIN <= self.row + rhs.row <= i32::MAX,
            i32::MIN <= self.column + rhs.column <= i32::MAX,
        ensures
            r.row == self.row + rhs.row,
            r.column == self.column + rhs.column,
    {
        Point { row: self.row + rhs.row, column: self.column + rhs.column }
    }

    pub fn sub(&self, rhs: &Point) -> (r: Point)
        requires
            i32::MIN <= self.row - rhs.row <= i32::MAX,
            i32::MIN <= self.column - rhs.column <= i32::MAX,
        ensures
            r.row == self.row - rhs.row,
            r.column == self.column - rhs.column,
    {
        Point { row: self.row - rhs.row, column: self.column - rhs.column }
    }

    /// Moves the point by `rhs`.
    pub fn add_assign(&mut self, rhs: &Point)
        requires
            i32::MIN <= old(self).row + rhs.row <= i32::MAX,
            i32::MIN <= old(self).column + rhs.column <= i32::MAX,
        ensures
            final(self).row == old(self).row + rhs.row,
            final(self).column == old(self).column + rhs.column,
    {
        self.row = self.row + rhs.row;
        self.column = self.column + rhs.column;
    }

    /// Moves the point back by `rhs`.
    pub fn sub_assign(&mut self, rhs: &Point)
        requires
            i32::MIN <= old(self).row - rhs.row <= i32::MAX,
            i32::MIN <= old(self).column - rhs.column <= i32::MAX,
        ensures
            final(self).row == old(self).row - rhs.row,
            final(self).column == old(self).column - rhs.column,
    {
        self.row = self.row - rhs.row;
        self.column = self.column - rhs.column;
    }
}

/// Position `(row, column)` relative to `rect`, where it lies inside.
pub open spec fn nested(row: int, column: int, rect: Rect) -> Option<Point> {
    if rect.contains_spec(row, column) {
        Some(Point { row: (row - rect.row) as i32, column: (column - rect.column) as i32 })
    } else {
        None
    }
}

/// `(row, column)` relative to the top left corner of `rect`, or `None`
/// where it lies outside of `rect`.
pub fn nest_into(row: i32, column: i32, rect: &Rect) -> (r: Option<Point>)
    requires
        rect.valid(),
    ensures
        r == nested(row as int, column as int, *rect),
{
    if row < rect.row || row >= rect.bottom() || column < rect.column || column >= rect.right() {
        return None;
    }
    Some(Point { row: row - rect.row, column: column - rect.column })
}

impl Rect {
    /// The right and bottom edges fit in an `i32`; the extents are taken
    /// as `i32` (wrapping above `i32::MAX`), as the edges are computed.
    pub open spec fn valid(self) -> bool {
        &&& i32::MIN <= self.row + (self.height as i32) <= i32::MAX
        &&& i32::MIN <= self.column + (self.width as i32) <= i32::MAX
    }

    pub open spec fn bottom_spec(self) -> int {
        self.row + (self.height as i32)
    }

    pub open spec fn right_spec(self) -> int {
        self.column + (self.width as i32)
    }

    pub open spec fn contains_spec(self, row: int, column: int) -> bool {
        self.row <= row < self.bottom_spec() && self.column <= column < self.right_spec()
    }

    pub fn default() -> (r: Rect)
        ensures
            r == (Rect { row: 0, column: 0, width: 0, height: 0 }),
    {
        Rect { row: 0, column: 0, width: 0, height: 0 }
    }

    /// The rectangle between the given edges; an empty extent where an edge
    /// lies before its opposite.
    pub fn from_corners(top: i32, bottom: i32, left: i32, right: i32) -> (r: Self)
        requires
            right > left ==> right - left <= i32::MAX,
            bottom > top ==> bottom - top <= i32::MAX,
        ensures
            r.row == top,
            r.column == left,
            r.width == (if right > left { right - left } else { 0 }),
            r.height == (if bottom > top { bottom - top } else { 0 }),
            r.valid(),
    {
        Rect {
            row: top,
            column: left,
            width: if right > left { (right - left) as u32 } else { 0 },
            height: if bottom > top { (bottom - top) as u32 } else { 0 },
        }
    }

    /// The rectangle spanned by two corners.
    pub fn from_points(top_left: &Point, bottom_right: &Point) -> (r: Self)
        requires
            bottom_right.column > top_left.column ==> bottom_right.column - top_left.column <= i32::MAX,
            bottom_right.row > top_left.row ==> bottom_right.row - top_left.row <= i32::MAX,
        ensures
            r.row == top_left.row,
            r.column == top_left.column,
            r.width == (if bottom_right.column > top_left.column { bottom_right.column - top_left.column } else { 0 }),
            r.height == (if bottom_right.row > top_left.row { bottom_right.row - top_left.row } else { 0 }),
            r.valid(),
    {
        Self::from_corners(top_left.row, bottom_right.row, top_left.column, bottom_right.column)
    }

    pub fn top(&self) -> (r: i32)
        ensures
            r == self.row,
    {
        self.row
    }

    pub fn bottom(&self) -> (r: i32)
        requires
            self.valid(),
        ensures
            r == self.bottom_spec(),
    {
        self.row + self.height as i32
    }

    pub fn left(&self) -> (r: i32)
        ensures
            r == self.column,
    {
        self.column
    }

    pub fn right(&self) -> (r: i32)
        requires
            self.valid(),
        ensures
            r == self.right_spec(),
    {
        self.column + self.width as i32
    }

    pub fn contains(&self, row: i32, column: i32) -> (r: bool)
        requires
            self.valid(),
        ensures
            r == self.contains_spec(row as int, column as int),
    {
        row >= self.row && row < self.bottom() && column >= self.column && column < self.right()
    }

    pub fn contains_point(&self, point: &Point) -> (r: bool)
        requires
            self.valid(),
        ensures
            r == self.contains_spec(point.row as int, point.column as int),
    {
        self.contains(point.row, point.column)
    }

    pub fn top_left(&self) -> (r: Point)
        ensures
            r == (Point { row: self.row, column: self.column }),
    {
        Point { row: self.row, column: self.column }
    }

    pub fn bottom_right(&self) -> (r: Point)
        requires
            self.valid(),
        ensures
            r.row == self.bottom_spec(),
            r.column == self.right_spec(),
    {
        Point { row: self.bottom(), column: self.right() }
    }

    /// `other` lies within this rectangle.
    pub fn contains_rect(&self, other: &Rect) -> (r: bool)
        requires
            self.valid(),
            other.valid(),
        ensures
            r == (other.row >= self.row && other.bottom_spec() <= self.bottom_spec()
                && other.column >= self.column && other.right_spec() <= self.right_spec()),
    {
        other.row >= self.row && other.bottom() <= self.bottom() && other.column >= self.column
            && other.right() <= self.right()
    }

    /// The two rectangles share at least one cell.
    pub fn overlaps(&self, other: &Rect) -> (r: bool)
        requires
            self.valid(),
            other.valid(),
        ensures
            r == ((if other.row >= self.row { other.row < self.bottom_spec() } else { self.row < other.bottom_spec() })
                && (if other.column >= self.column { other.column < self.right_spec() } else { self.column < other.right_spec() })),
    {
        (if other.row >= self.row {
            other.row < self.bottom()
        } else {
            self.row < other.bottom()
        }) && (if other.column >= self.column {
            other.column < self.right()
        } else {
            self.column < other.right()
        })
    }

    /// The intersection of the two rectangles; empty where they do not
    /// overlap.
    pub fn overlap(&self, other: &Rect) -> (r: Rect)
        requires
            self.valid(),
            other.valid(),
        ensures
            r.row == max(self.row as int, other.row as int),
            r.column == max(self.column as int, other.column as int),
            r.height == max(0, min(self.bottom_spec(), other.bottom_spec()) - max(self.row as int, other.row as int)),
            r.width == max(0, min(self.right_spec(), other.right_spec()) - max(self.column as int, other.column as int)),
            r.valid(),
    {
        let top = if self.top() >= other.top() { self.top() } else { other.top() };
        let bottom = if self.bottom() <= other.bottom() { self.bottom() } else { other.bottom() };
        let left = if self.left() >= other.left() { self.left() } else { other.left() };
        let right = if self.right() <= other.right() { self.right() } else { other.right() };
        Rect::from_corners(top, bottom, left, right)
    }
}

pub open spec fn max(a: int, b: int) -> int {
    if a >= b { a } else { b }
}

pub open spec fn min(a: int, b: int) -> int {
    if a <= b { a } else { b }
}

/// The overlap of two rectangles lies within both of them.
pub proof fn overlap_within_both(a: Rect, b: Rect, o: Rect)
    requires
        a.valid(),
        b.valid(),
        o.row == max(a.row as int, b.row as int),
        o.column == max(a.column as int, b.column as int),
        o.height == max(0, min(a.bottom_spec(), b.bottom_spec()) - max(a.row as int, b.row as int)),
        o.width == max(0, min(a.right_spec(), b.right_spec()) - max(a.column as int, b.column as int)),
    ensures
        forall|row: int, column: int| o.contains_spec(row, column) ==>
            a.contains_spec(row, column) && b.contains_spec(row, column),
        forall|row: int, column: int| a.contains_spec(row, column) && b.contains_spec(row, column) ==>
            o.contains_spec(row, column),
{
}

} // verus!
