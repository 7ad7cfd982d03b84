//! The walk: an ordered sequence of grid points.

use crate::dataset::point::XYPoint;
use vstd::prelude::*;
use vstd::std_specs::convert::FromSpecImpl;

verus! {

/// A random walk.  The first point is where it starts, the last where it ends.
#[derive(Default, Debug, Clone, PartialEq, Eq)]
pub struct Walk(pub Vec<XYPoint>);

impl View for Walk {
    type V = Seq<XYPoint>;

    open spec fn view(&self) -> Seq<XYPoint> {
        self.0@
    }
}

impl From<Vec<XYPoint>> for Walk {
    /// The walk through `value`, point by point.
    fn from(value: Vec<XYPoint>) -> (walk: Self) {
        Self(value)
    }
}

impl FromSpecImpl<Vec<XYPoint>> for Walk {
    open spec fn obeys_from_spec() -> bool {
        true
    }

    open spec fn from_spec(value: Vec<XYPoint>) -> Self {
        Walk(value)
    }
}

impl From<Walk> for Vec<XYPoint> {
    /// The points of `value` in their order.
    fn from(value: Walk) -> (points: Self) {
        value.0
    }
}

impl FromSpecImpl<Walk> for Vec<XYPoint> {
    open spec fn obeys_from_spec() -> bool {
        true
    }

    open spec fn from_spec(value: Walk) -> Self {
        value.0
    }
}

impl Walk {
    /// The number of points of the walk.
    pub fn len(&self) -> (n: usize)
        ensures
            n == self@.len(),
    {
        self.0.len()
    }

    /// Whether the walk has no point.
    pub fn is_empty(&self) -> (b: bool)
        ensures
            b <==> self@.len() == 0,
    {
        self.0.len() == 0
    }

    /// The points, one after the other.
    pub fn iter(&self) -> (it: core::slice::Iter<'_, XYPoint>)
        ensures
            vstd::std_specs::slice::into_iter_elts(it) == self@,
    {
        let points = self.0.as_slice();
        let it = points.iter();
        proof {
            vstd::std_specs::slice::axiom_spec_slice_iter(points);
        }
        it
    }

    /// Whether every point of the walk can be moved by `by`.
    pub open spec fn translatable(&self, by: XYPoint) -> bool {
        forall|i: int|
            0 <= i < self@.len() ==> XYPoint::representable((#[trigger] self@[i]).shifted(by))
    }

    /// Whether every point of the walk can be multiplied by `by`.
    pub open spec fn scalable(&self, by: XYPoint) -> bool {
        forall|i: int|
            0 <= i < self@.len() ==> XYPoint::representable((#[trigger] self@[i]).stretched(by))
    }

    /// Moves every point by `by`.
    pub fn translate(&self, by: XYPoint) -> (moved: Walk)
        requires
            self.translatable(by),
        ensures
            moved@.len() == self@.len(),
            forall|i: int|
                0 <= i < self@.len() ==> (moved@[i].x as int, moved@[i].y as int)
                    == (#[trigger] self@[i]).shifted(by),
    {
        let mut points: Vec<XYPoint> = Vec::new();
        let mut i: usize = 0;
        while i < self.0.len()
            invariant
                i <= self@.len(),
                self.translatable(by),
                points@.len() == i,
                forall|j: int|
                    0 <= j < i ==> (points@[j].x as int, points@[j].y as int)
                        == (#[trigger] self@[j]).shifted(by),
            decreases self@.len() - i,
        {
            let p = self.0[i];
            assert(XYPoint::representable(self@[i as int].shifted(by)));
            points.push(XYPoint { x: p.x + by.x, y: p.y + by.y });
            i += 1;
        }
        Walk(points)
    }

    /// Multiplies every point by `by`, coordinate by coordinate.
    pub fn scale(&self, by: XYPoint) -> (scaled: Walk)
        requires
            self.scalable(by),
        ensures
            scaled@.len() == self@.len(),
            forall|i: int|
                0 <= i < self@.len() ==> (scaled@[i].x as int, scaled@[i].y as int)
                    == (#[trigger] self@[i]).stretched(by),
    {
        let mut points: Vec<XYPoint> = Vec::new();
        let mut i: usize = 0;
        while i < self.0.len()
            invariant
                i <= self@.len(),
                self.scalable(by),
                points@.len() == i,
                forall|j: int|
                    0 <= j < i ==> (points@[j].x as int, points@[j].y as int)
                        == (#[trigger] self@[j]).stretched(by),
            decreases self@.len() - i,
        {
            let p = self.0[i];
            assert(XYPoint::representable(self@[i as int].stretched(by)));
            points.push(XYPoint { x: p.x * by.x, y: p.y * by.y });
            i += 1;
        }
        Walk(points)
    }
}

} // verus!
