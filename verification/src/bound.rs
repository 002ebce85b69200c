use vstd::prelude::*;

verus! {

/// A point on the grid, by column and row.
#[derive(Clone, Copy, Debug, PartialEq, Eq, Structural)]
pub struct Point {
    pub col: i32,
    pub row: i32,
}

/// An axis-aligned region of the grid; both corners are part of it.
#[derive(Clone, Copy, Debug, PartialEq, Eq, Structural)]
pub struct Bound {
    pub min: Point,
    pub max: Point,
}

/// The answer to whether a bound holds a point.
#[derive(Clone, Copy, Debug, PartialEq, Eq, Structural)]
pub enum Contains {
    DoesContain,
    DoesNotContain,
}

/// Whether the point lies within the bound, corners included.
pub open spec fn bound_holds(bound: Bound, point: Point) -> bool {
    &&& bound.min.col <= point.col <= bound.max.col
    &&& bound.min.row <= point.row <= bound.max.row
}

/// Whether a point can be offset by another without leaving `i32`.
pub open spec fn offset_fits(p: Point, d: Point) -> bool {
    &&& i32::MIN <= p.col + d.col <= i32::MAX
    &&& i32::MIN <= p.row + d.row <= i32::MAX
}

/// The point `p` moved by `d`.
pub open spec fn offset_by(p: Point, d: Point) -> Point {
    Point { col: (p.col + d.col) as i32, row: (p.row + d.row) as i32 }
}

impl Point {
    /// The point moved by `offset`, column by column and row by row.
    pub fn offset(&self, offset: &Point) -> (r: Point)
        requires
            offset_fits(*self, *offset),
        ensures
            r.col == self.col + offset.col,
            r.row == self.row + offset.row,
    {
        Point { col: self.col + offset.col, row: self.row + offset.row }
    }
}

impl Bound {
    /// `DoesContain` exactly when the point lies between the two corners,
    /// both included, in each coordinate.
    pub fn contains(&self, point: Point) -> (r: Contains)
        ensures
            r == (if bound_holds(*self, point) {
                Contains::DoesContain
            } else {
                Contains::DoesNotContain
            }),
    {
        if point.col >= self.min.col && point.col <= self.max.col && point.row >= self.min.row
            && point.row <= self.max.row {
            Contains::DoesContain
        } else {
            Contains::DoesNotContain
        }
    }
}

/// Containment does not depend on where the grid's origin is: moving a point
/// and both corners of a bound by the same offset keeps the point in the
/// bound exactly when it was in it before.
pub proof fn lemma_contains_shift(bound: Bound, point: Point, d: Point)
    requires
        offset_fits(point, d),
        offset_fits(bound.min, d),
        offset_fits(bound.max, d),
    ensures
        bound_holds(bound, point) <==> bound_holds(
            Bound { min: offset_by(bound.min, d), max: offset_by(bound.max, d) },
            offset_by(point, d),
        ),
{
}

/// Offsetting by the zero point gives the point back.
pub proof fn lemma_offset_zero(p: Point)
    ensures
        offset_fits(p, Point { col: 0, row: 0 }),
        offset_by(p, Point { col: 0, row: 0 }) == p,
{
}

/// Offsetting twice is offsetting once by the sum of the two offsets.
pub proof fn lemma_offset_compose(p: Point, d: Point, e: Point)
    requires
        offset_fits(p, d),
        offset_fits(offset_by(p, d), e),
        offset_fits(d, e),
        offset_fits(p, offset_by(d, e)),
    ensures
        offset_by(offset_by(p, d), e) == offset_by(p, offset_by(d, e)),
{
}

} // verus!
