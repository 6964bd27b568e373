//! Axis-aligned bounding rectangles over vertex sets.
//!
//! A rectangle is described by its bottom-left and top-right corners,
//! computed as the coordinate-wise minimum and maximum of a non-empty
//! vertex list.  Containment consults the x coordinate only: the
//! partitioner slices the plane into vertical bands.  A band is closed
//! at both ends, so a vertex on a shared boundary falls in both
//! adjacent bands and no vertex slips between bands.

use vstd::prelude::*;
use crate::error::Error;
use crate::models::graph_input::Vertex;

verus! {

/// The least element of a non-empty sequence of integers.
pub open spec fn seq_min(s: Seq<int>) -> int
    recommends
        s.len() > 0,
    decreases s.len(),
{
    if s.len() <= 1 {
        s[0]
    } else {
        let m = seq_min(s.drop_last());
        if s.last() < m {
            s.last()
        } else {
            m
        }
    }
}

/// The greatest element of a non-empty sequence of integers.
pub open spec fn seq_max(s: Seq<int>) -> int
    recommends
        s.len() > 0,
    decreases s.len(),
{
    if s.len() <= 1 {
        s[0]
    } else {
        let m = seq_max(s.drop_last());
        if s.last() > m {
            s.last()
        } else {
            m
        }
    }
}

/// The x coordinates of a vertex sequence.
pub open spec fn xs_of(s: Seq<Vertex>) -> Seq<int> {
    s.map_values(|v: Vertex| v.x as int)
}

/// The y coordinates of a vertex sequence.
pub open spec fn ys_of(s: Seq<Vertex>) -> Seq<int> {
    s.map_values(|v: Vertex| v.y as int)
}

/// A point of the plane, in fixed-point units.
#[derive(Debug, Clone, Copy)]
pub struct Point {
    pub x: i64,
    pub y: i64,
}

/// A rectangle spanned by two corner points, carrying the vertex list it
/// was computed over.
#[derive(Debug, Clone)]
pub struct Rect {
    pub top_right: Point,
    pub bottom_left: Point,
    pub vertices: Vec<Vertex>,
}

impl Rect {
    /// The containment predicate: the x coordinate lies in the closed
    /// band between the two corners.  The y coordinate is not consulted.
    pub open spec fn spec_contains_x(self, x: int) -> bool {
        self.bottom_left.x <= x <= self.top_right.x
    }

    /// Builds the bounding rectangle of a non-empty vertex list; an empty
    /// list is rejected.
    pub fn new(vertices: Vec<Vertex>) -> (r: Result<Rect, Error>)
        ensures
            match r {
                Ok(rr) => {
                    &&& vertices@.len() > 0
                    &&& rr.vertices@ == vertices@
                    &&& rr.bottom_left.x == seq_min(xs_of(vertices@))
                    &&& rr.bottom_left.y == seq_min(ys_of(vertices@))
                    &&& rr.top_right.x == seq_max(xs_of(vertices@))
                    &&& rr.top_right.y == seq_max(ys_of(vertices@))
                },
                Err(e) => vertices@.len() == 0 && e == Error::EmptyInput,
            },
    {
        if vertices.len() == 0 {
            return Err(Error::EmptyInput);
        }
        let rr = Rect {
            bottom_left: Point { x: 0, y: 0 },
            top_right: Point { x: 0, y: 0 },
            vertices,
        };
        Ok(rr.set_top_right_bottom_left())
    }

    /// Whether a vertex falls inside the rectangle, judged by x alone.
    pub fn in_rect(&self, v: Vertex) -> (r: bool)
        ensures
            r == self.spec_contains_x(v.x as int),
    {
        self.bottom_left.x <= v.x && v.x <= self.top_right.x
    }

    /// Recomputes the two corners as the coordinate-wise extremes of the
    /// vertex list.
    pub fn set_top_right_bottom_left(self) -> (r: Self)
        requires
            self.vertices@.len() > 0,
        ensures
            r.vertices@ == self.vertices@,
            r.bottom_left.x == seq_min(xs_of(self.vertices@)),
            r.bottom_left.y == seq_min(ys_of(self.vertices@)),
            r.top_right.x == seq_max(xs_of(self.vertices@)),
            r.top_right.y == seq_max(ys_of(self.vertices@)),
    {
        let ghost vs = self.vertices@;
        let first = self.vertices[0];
        let mut bot_x: i64 = first.x;
        let mut bot_y: i64 = first.y;
        let mut top_x: i64 = first.x;
        let mut top_y: i64 = first.y;

        let n = self.vertices.len();
        let mut i: usize = 1;
        while i < n
            invariant
                1 <= i <= n,
                n == vs.len(),
                self.vertices@ == vs,
                bot_x == seq_min(xs_of(vs.take(i as int))),
                bot_y == seq_min(ys_of(vs.take(i as int))),
                top_x == seq_max(xs_of(vs.take(i as int))),
                top_y == seq_max(ys_of(vs.take(i as int))),
            decreases n - i,
        {
            proof {
                lemma_extremes_step(vs, i as int);
            }
            let v = self.vertices[i];
            if v.x < bot_x {
                bot_x = v.x;
            }
            if v.y < bot_y {
                bot_y = v.y;
            }
            if v.x > top_x {
                top_x = v.x;
            }
            if v.y > top_y {
                top_y = v.y;
            }
            i = i + 1;
        }
        proof {
            assert(vs.take(n as int) =~= vs);
        }
        Rect {
            bottom_left: Point { x: bot_x, y: bot_y },
            top_right: Point { x: top_x, y: top_y },
            vertices: self.vertices,
        }
    }
}

/// Extending a prefix by one vertex extends each coordinate extreme by a
/// comparison with that vertex.
proof fn lemma_extremes_step(vs: Seq<Vertex>, i: int)
    requires
        1 <= i < vs.len(),
    ensures
        seq_min(xs_of(vs.take(i + 1))) == if (vs[i].x as int) < seq_min(xs_of(vs.take(i))) {
            vs[i].x as int
        } else {
            seq_min(xs_of(vs.take(i)))
        },
        seq_min(ys_of(vs.take(i + 1))) == if (vs[i].y as int) < seq_min(ys_of(vs.take(i))) {
            vs[i].y as int
        } else {
            seq_min(ys_of(vs.take(i)))
        },
        seq_max(xs_of(vs.take(i + 1))) == if (vs[i].x as int) > seq_max(xs_of(vs.take(i))) {
            vs[i].x as int
        } else {
            seq_max(xs_of(vs.take(i)))
        },
        seq_max(ys_of(vs.take(i + 1))) == if (vs[i].y as int) > seq_max(ys_of(vs.take(i))) {
            vs[i].y as int
        } else {
            seq_max(ys_of(vs.take(i)))
        },
{
    assert(xs_of(vs.take(i + 1)).drop_last() =~= xs_of(vs.take(i)));
    assert(ys_of(vs.take(i + 1)).drop_last() =~= ys_of(vs.take(i)));
    assert(xs_of(vs.take(i + 1)).last() == vs[i].x as int);
    assert(ys_of(vs.take(i + 1)).last() == vs[i].y as int);
}

/// The minimum of a non-empty integer sequence is a lower bound, and is
/// attained.
pub proof fn lemma_seq_min_bounds(s: Seq<int>)
    requires
        s.len() > 0,
    ensures
        forall|i: int| 0 <= i < s.len() ==> seq_min(s) <= s[i],
        exists|i: int| 0 <= i < s.len() && seq_min(s) == s[i],
    decreases s.len(),
{
    if s.len() <= 1 {
        assert(seq_min(s) == s[0]);
    } else {
        lemma_seq_min_bounds(s.drop_last());
        assert forall|i: int| 0 <= i < s.len() implies seq_min(s) <= s[i] by {
            if i < s.len() - 1 {
                assert(s.drop_last()[i] == s[i]);
            }
        }
        if s.last() < seq_min(s.drop_last()) {
            assert(seq_min(s) == s[s.len() - 1]);
        } else {
            let j = choose|j: int|
                0 <= j < s.drop_last().len() && seq_min(s.drop_last()) == s.drop_last()[j];
            assert(s[j] == s.drop_last()[j]);
            assert(seq_min(s) == s[j]);
        }
    }
}

/// The maximum of a non-empty integer sequence is an upper bound, and is
/// attained.
pub proof fn lemma_seq_max_bounds(s: Seq<int>)
    requires
        s.len() > 0,
    ensures
        forall|i: int| 0 <= i < s.len() ==> s[i] <= seq_max(s),
        exists|i: int| 0 <= i < s.len() && seq_max(s) == s[i],
    decreases s.len(),
{
    if s.len() <= 1 {
        assert(seq_max(s) == s[0]);
    } else {
        lemma_seq_max_bounds(s.drop_last());
        assert forall|i: int| 0 <= i < s.len() implies s[i] <= seq_max(s) by {
            if i < s.len() - 1 {
                assert(s.drop_last()[i] == s[i]);
            }
        }
        if s.last() > seq_max(s.drop_last()) {
            assert(seq_max(s) == s[s.len() - 1]);
        } else {
            let j = choose|j: int|
                0 <= j < s.drop_last().len() && seq_max(s.drop_last()) == s.drop_last()[j];
            assert(s[j] == s.drop_last()[j]);
            assert(seq_max(s) == s[j]);
        }
    }
}

} // verus!
