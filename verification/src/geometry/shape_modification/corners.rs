//! The corners of an outline.
use vstd::prelude::*;

use crate::geometry::primitives::point::Point;
use crate::geometry::shape_modification::ShapeModifyMode;
use crate::num::Num;

verus! {

/// Three consecutive vertices by their indices; the corner is on the left-hand side.
#[derive(Clone, Copy, Debug, PartialEq, Eq, Structural)]
pub struct Corner(pub usize, pub usize, pub usize);

/// How an outline turns at a corner.
#[derive(Clone, Copy, Debug, PartialEq, Eq, Structural)]
pub enum CornerType {
    Concave,
    Convex,
    Collinear,
}

impl Corner {
    /// The corner seen from the other side.
    pub open spec fn flipped(self) -> Corner {
        Corner(self.2, self.1, self.0)
    }

    pub fn flip(&mut self)
        ensures
            *final(self) == old(self).flipped(),
    {
        let Corner(a, b, c) = *self;
        *self = Corner(c, b, a);
    }

    pub open spec fn fits(self, n: nat) -> bool {
        self.0 < n && self.1 < n && self.2 < n
    }

    pub open spec fn spec_to_points(self, points: &[Point]) -> [Point; 3] {
        [points@[self.0 as int], points@[self.1 as int], points@[self.2 as int]]
    }

    #[verifier::when_used_as_spec(spec_to_points)]
    pub fn to_points(self, points: &[Point]) -> (r: [Point; 3])
        requires
            self.fits(points@.len()),
        ensures
            r == self.spec_to_points(points),
            r@[0] == points@[self.0 as int],
            r@[1] == points@[self.1 as int],
            r@[2] == points@[self.2 as int],
    {
        [points[self.0], points[self.1], points[self.2]]
    }

    /// The cross product of the vectors from the first point of the corner to the others.
    pub open spec fn turn(self, points: Seq<Point>) -> Num {
        turn_of(points[self.0 as int], points[self.1 as int], points[self.2 as int])
    }
}

/// The cross product of the vectors from the first point to the second and to the third.
///
/// It is positive where the way from the first point over the second to the third turns left.
pub open spec fn spec_turn_of(p1: Point, p2: Point, p3: Point) -> Num {
    p2.0.sub(p1.0).mul(p3.1.sub(p1.1)).sub(p2.1.sub(p1.1).mul(p3.0.sub(p1.0)))
}

#[verifier::when_used_as_spec(spec_turn_of)]
pub fn turn_of(p1: Point, p2: Point, p3: Point) -> (r: Num)
    ensures
        r == spec_turn_of(p1, p2, p3),
{
    p2.0.sub(p1.0).mul(p3.1.sub(p1.1)).sub(p2.1.sub(p1.1).mul(p3.0.sub(p1.0)))
}

impl CornerType {
    /// What a cross product says about a corner.
    pub open spec fn of_turn(turn: Num) -> CornerType {
        if turn.lt(Num::zero()) {
            CornerType::Concave
        } else if turn.gt(Num::zero()) {
            CornerType::Convex
        } else {
            CornerType::Collinear
        }
    }

    /// The type of the corner on the left-hand side of three points, whose cross product is
    /// a number.
    pub fn from(points: [Point; 3]) -> (r: CornerType)
        requires
            !turn_of(points@[0], points@[1], points@[2]).is_nan(),
        ensures
            r == CornerType::of_turn(turn_of(points@[0], points@[1], points@[2])),
    {
        let turn: Num = turn_of(points[0], points[1], points[2]);
        if turn.lt(Num::zero()) {
            CornerType::Concave
        } else if turn.gt(Num::zero()) {
            CornerType::Convex
        } else {
            CornerType::Collinear
        }
    }
}

/// A corner flipped twice is the corner itself.
pub proof fn flipping_is_an_involution(corner: Corner)
    ensures
        corner.flipped().flipped() == corner,
{
}

/// The corner at vertex `i` of an outline with `n` vertices.
pub open spec fn corner_at(n: nat, i: int) -> Corner {
    Corner(
        (if i == 0 {
            n - 1
        } else {
            i - 1
        }) as usize,
        i as usize,
        (if i == n - 1 {
            0
        } else {
            i + 1
        }) as usize,
    )
}

/// The corners of an outline in the order in which they are looked at: along the outline
/// to inflate it, and the other way round, seen from the other side, to deflate it.
pub open spec fn corners_of(n: nat, mode: ShapeModifyMode) -> Seq<Corner> {
    match mode {
        ShapeModifyMode::Inflate => Seq::new(n, |k: int| corner_at(n, k)),
        ShapeModifyMode::Deflate => Seq::new(n, |k: int| corner_at(n, n - 1 - k).flipped()),
    }
}

pub fn list_corners(n: usize, mode: ShapeModifyMode) -> (r: Vec<Corner>)
    ensures
        r@ == corners_of(n as nat, mode),
{
    let mut corners: Vec<Corner> = Vec::new();
    let mut k: usize = 0;
    while k < n
        invariant
            k <= n,
            corners@ == corners_of(n as nat, mode).take(k as int),
        decreases n - k,
    {
        let i: usize = match mode {
            ShapeModifyMode::Inflate => k,
            ShapeModifyMode::Deflate => n - 1 - k,
        };
        let prev: usize = if i == 0 {
            n - 1
        } else {
            i - 1
        };
        let next: usize = if i == n - 1 {
            0
        } else {
            i + 1
        };
        let mut corner: Corner = Corner(prev, i, next);
        match mode {
            ShapeModifyMode::Inflate => {},
            ShapeModifyMode::Deflate => corner.flip(),
        }
        corners.push(corner);
        k = k + 1;
        assert(corners@ =~= corners_of(n as nat, mode).take(k as int));
    }
    assert(corners@ =~= corners_of(n as nat, mode));
    corners
}

/// At a corner that turns left or right, no two of the three points coincide: both of its
/// sides have a length, and so has the edge that cuts it off.
pub proof fn corners_that_turn_have_distinct_points(p1: Point, p2: Point, p3: Point)
    requires
        CornerType::of_turn(turn_of(p1, p2, p3)) != CornerType::Collinear,
    ensures
        !p1.same_as(p2),
        !p2.same_as(p3),
        !p1.same_as(p3),
{
    let a = p2.0.sub(p1.0);
    let b = p2.1.sub(p1.1);
    let c = p3.0.sub(p1.0);
    let d = p3.1.sub(p1.1);
    let ad = a.mul(d);
    let bc = b.mul(c);
    assert(!crate::num::laws::is_nil(ad.sub(bc)));
    if p1.same_as(p2) {
        crate::num::laws::equal_numbers_have_no_difference(p2.0, p1.0);
        crate::num::laws::equal_numbers_have_no_difference(p2.1, p1.1);
        crate::num::laws::nil_numbers_stay_nil(a, d);
        crate::num::laws::nil_numbers_stay_nil(b, c);
        crate::num::laws::nil_numbers_stay_nil(ad, bc);
    }
    if p1.same_as(p3) {
        crate::num::laws::equal_numbers_have_no_difference(p3.0, p1.0);
        crate::num::laws::equal_numbers_have_no_difference(p3.1, p1.1);
        crate::num::laws::nil_numbers_stay_nil(d, a);
        crate::num::laws::nil_numbers_stay_nil(c, b);
        crate::num::laws::nil_numbers_stay_nil(ad, bc);
    }
    if p2.same_as(p3) {
        crate::num::laws::equal_numbers_have_equal_differences(p2.0, p3.0, p1.0);
        crate::num::laws::equal_numbers_have_equal_differences(p2.1, p3.1, p1.1);
        if a == c && b == d {
            crate::num::laws::multiplication_commutes(a, b);
            if ad.is_nan() {
                crate::num::laws::nil_numbers_stay_nil(ad, bc);
            } else {
                crate::num::laws::equal_numbers_have_no_difference(ad, bc);
            }
        } else {
            if a != c {
                crate::num::laws::nil_numbers_stay_nil(a, d);
                crate::num::laws::nil_numbers_stay_nil(c, b);
            } else {
                crate::num::laws::nil_numbers_stay_nil(d, a);
                crate::num::laws::nil_numbers_stay_nil(b, c);
            }
            crate::num::laws::nil_numbers_stay_nil(ad, bc);
        }
    }
}

} // verus!
