//! Two-dimensional points.

use vstd::prelude::*;
use vstd::std_specs::convert::FromSpecImpl;

verus! {

/// Something that has an X- and a Y-coordinate.
pub trait Coordinates<T> {
    /// The X-coordinate.
    fn x(&self) -> T;

    /// The Y-coordinate.
    fn y(&self) -> T;
}

/// A point of the integer grid.
#[derive(Default, Debug, Clone, Copy, PartialEq, Eq, Hash, Structural)]
pub struct XYPoint {
    pub x: i64,
    pub y: i64,
}

impl XYPoint {
    /// The point `(x, y)`.
    pub fn new(x: i64, y: i64) -> (p: Self)
        ensures
            p.x == x,
            p.y == y,
    {
        Self { x, y }
    }

    /// The point `self + other`, coordinate by coordinate.
    pub open spec fn shifted(self, other: XYPoint) -> (int, int) {
        (self.x + other.x, self.y + other.y)
    }

    /// The point `self - other`, coordinate by coordinate.
    pub open spec fn unshifted(self, other: XYPoint) -> (int, int) {
        (self.x - other.x, self.y - other.y)
    }

    /// The point `self * other`, coordinate by coordinate.
    pub open spec fn stretched(self, other: XYPoint) -> (int, int) {
        (self.x * other.x, self.y * other.y)
    }

    /// Whether both coordinates of `v` are `i64` values.
    pub open spec fn representable(v: (int, int)) -> bool {
        &&& i64::MIN <= v.0 <= i64::MAX
        &&& i64::MIN <= v.1 <= i64::MAX
    }

    /// Adds `other`; `None` if a coordinate of the sum is no `i64`.
    pub fn checked_add(&self, other: &XYPoint) -> (r: Option<XYPoint>)
        ensures
            Self::representable(self.shifted(*other)) <==> r is Some,
            r matches Some(p) ==> (p.x as int, p.y as int) == self.shifted(*other),
    {
        match (self.x.checked_add(other.x), self.y.checked_add(other.y)) {
            (Some(x), Some(y)) => Some(XYPoint { x, y }),
            _ => None,
        }
    }

    /// Subtracts `other`; `None` if a coordinate of the difference is no `i64`.
    pub fn checked_sub(&self, other: &XYPoint) -> (r: Option<XYPoint>)
        ensures
            Self::representable(self.unshifted(*other)) <==> r is Some,
            r matches Some(p) ==> (p.x as int, p.y as int) == self.unshifted(*other),
    {
        match (self.x.checked_sub(other.x), self.y.checked_sub(other.y)) {
            (Some(x), Some(y)) => Some(XYPoint { x, y }),
            _ => None,
        }
    }

    /// Multiplies by `other`, coordinate by coordinate; `None` if a
    /// coordinate of the product is no `i64`.
    pub fn checked_mul(&self, other: &XYPoint) -> (r: Option<XYPoint>)
        ensures
            Self::representable(self.stretched(*other)) <==> r is Some,
            r matches Some(p) ==> (p.x as int, p.y as int) == self.stretched(*other),
    {
        match (self.x.checked_mul(other.x), self.y.checked_mul(other.y)) {
            (Some(x), Some(y)) => Some(XYPoint { x, y }),
            _ => None,
        }
    }
}

impl From<(i64, i64)> for XYPoint {
    /// The point with the coordinates `value`.
    fn from(value: (i64, i64)) -> (p: Self) {
        Self { x: value.0, y: value.1 }
    }
}

impl FromSpecImpl<(i64, i64)> for XYPoint {
    open spec fn obeys_from_spec() -> bool {
        true
    }

    open spec fn from_spec(value: (i64, i64)) -> Self {
        XYPoint { x: value.0, y: value.1 }
    }
}

impl From<XYPoint> for (i64, i64) {
    /// The coordinates of `value`.
    fn from(value: XYPoint) -> (pair: Self) {
        (value.x, value.y)
    }
}

impl FromSpecImpl<XYPoint> for (i64, i64) {
    open spec fn obeys_from_spec() -> bool {
        true
    }

    open spec fn from_spec(value: XYPoint) -> Self {
        (value.x, value.y)
    }
}

impl Coordinates<i64> for XYPoint {
    fn x(&self) -> (r: i64)
        ensures
            r == self.x,
    {
        self.x
    }

    fn y(&self) -> (r: i64)
        ensures
            r == self.y,
    {
        self.y
    }
}

} // verus!
