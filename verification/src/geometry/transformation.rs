//! Proper rigid transformations of the plane.
use vstd::prelude::*;

use crate::geometry::primitives::circle::Circle;
use crate::geometry::primitives::edge::Edge;
use crate::geometry::primitives::point::Point;
use crate::math::{evaluate, evaluates, Elementary};
use crate::num::Num;

pub mod detours;
pub mod laws;

verus! {

/// The three rows of a matrix.
#[derive(Clone, Copy, Debug, PartialEq, Eq, Structural)]
pub struct Row(pub Num, pub Num, pub Num);

/// A transformation of the plane, as a matrix on homogeneous coordinates.
#[derive(Clone, Copy, Debug, PartialEq, Eq)]
pub struct Transformation {
    pub rows: (Row, Row, Row),
}

/// A transformation as a rotation about the origin, followed by a translation.
#[derive(Clone, Copy, Debug, PartialEq, Eq)]
pub struct DTransformation {
    pub rotation: Num,
    pub translation: (Num, Num),
}

impl Row {
    pub open spec fn spec_dot(self, x: Num, y: Num, z: Num) -> Num {
        self.0.mul(x).add(self.1.mul(y)).add(self.2.mul(z))
    }

    #[verifier::when_used_as_spec(spec_dot)]
    pub fn dot(self, x: Num, y: Num, z: Num) -> (r: Num)
        ensures
            r == self.spec_dot(x, y, z),
    {
        self.0.mul(x).add(self.1.mul(y)).add(self.2.mul(z))
    }

    pub open spec fn spec_times(self, m: (Row, Row, Row)) -> Row {
        Row(
            self.dot(m.0.0, m.1.0, m.2.0),
            self.dot(m.0.1, m.1.1, m.2.1),
            self.dot(m.0.2, m.1.2, m.2.2),
        )
    }

    /// The product of the row and a matrix.
    #[verifier::when_used_as_spec(spec_times)]
    pub fn times(self, m: (Row, Row, Row)) -> (r: Row)
        ensures
            r == self.spec_times(m),
    {
        Row(
            self.dot(m.0.0, m.1.0, m.2.0),
            self.dot(m.0.1, m.1.1, m.2.1),
            self.dot(m.0.2, m.1.2, m.2.2),
        )
    }

    pub open spec fn spec_over(self, d: Num) -> Row {
        Row(self.0.div(d), self.1.div(d), self.2.div(d))
    }

    #[verifier::when_used_as_spec(spec_over)]
    pub fn over(self, d: Num) -> (r: Row)
        ensures
            r == self.spec_over(d),
    {
        Row(self.0.div(d), self.1.div(d), self.2.div(d))
    }
}

impl Transformation {
    /// The identity.
    #[verifier::allow_in_spec]
    pub fn empty() -> Transformation
        returns
            (Transformation {
                rows: (
                    Row(Num::one(), Num::zero(), Num::zero()),
                    Row(Num::zero(), Num::one(), Num::zero()),
                    Row(Num::zero(), Num::zero(), Num::one()),
                ),
            }),
    {
        Transformation {
            rows: (
                Row(Num::one(), Num::zero(), Num::zero()),
                Row(Num::zero(), Num::one(), Num::zero()),
                Row(Num::zero(), Num::zero(), Num::one()),
            ),
        }
    }

    pub open spec fn spec_from_translation(translation: (Num, Num)) -> Transformation {
        Transformation {
            rows: (
                Row(Num::one(), Num::zero(), translation.0),
                Row(Num::zero(), Num::one(), translation.1),
                Row(Num::zero(), Num::zero(), Num::one()),
            ),
        }
    }

    #[verifier::when_used_as_spec(spec_from_translation)]
    pub fn from_translation(translation: (Num, Num)) -> (r: Transformation)
        ensures
            r == Transformation::spec_from_translation(translation),
    {
        Transformation {
            rows: (
                Row(Num::one(), Num::zero(), translation.0),
                Row(Num::zero(), Num::one(), translation.1),
                Row(Num::zero(), Num::zero(), Num::one()),
            ),
        }
    }

    pub open spec fn spec_from_rotation<M: Fn(Elementary) -> Num>(
        angle: Num,
        math: &M,
    ) -> Transformation {
        let sin = evaluate(math, Elementary::Sin(angle));
        let cos = evaluate(math, Elementary::Cos(angle));
        Transformation {
            rows: (
                Row(cos, sin.neg(), Num::zero()),
                Row(sin, cos, Num::zero()),
                Row(Num::zero(), Num::zero(), Num::one()),
            ),
        }
    }

    #[verifier::when_used_as_spec(spec_from_rotation)]
    pub fn from_rotation<M: Fn(Elementary) -> Num>(angle: Num, math: &M) -> (r: Transformation)
        requires
            evaluates(math),
        ensures
            r == Transformation::spec_from_rotation(angle, math),
    {
        let sin: Num = evaluate(math, Elementary::Sin(angle));
        let cos: Num = evaluate(math, Elementary::Cos(angle));
        Transformation {
            rows: (
                Row(cos, sin.neg(), Num::zero()),
                Row(sin, cos, Num::zero()),
                Row(Num::zero(), Num::zero(), Num::one()),
            ),
        }
    }

    /// `self`, followed by `other`.
    pub open spec fn spec_transform(self, other: Transformation) -> Transformation {
        Transformation {
            rows: (
                other.rows.0.times(self.rows),
                other.rows.1.times(self.rows),
                other.rows.2.times(self.rows),
            ),
        }
    }

    #[verifier::when_used_as_spec(spec_transform)]
    pub fn transform(self, other: Transformation) -> (r: Transformation)
        ensures
            r == self.spec_transform(other),
    {
        Transformation {
            rows: (
                other.rows.0.times(self.rows),
                other.rows.1.times(self.rows),
                other.rows.2.times(self.rows),
            ),
        }
    }

    /// `self`, followed by a rotation about the origin.
    pub open spec fn spec_rotate<M: Fn(Elementary) -> Num>(
        self,
        angle: Num,
        math: &M,
    ) -> Transformation {
        self.transform(Transformation::from_rotation(angle, math))
    }

    #[verifier::when_used_as_spec(spec_rotate)]
    pub fn rotate<M: Fn(Elementary) -> Num>(self, angle: Num, math: &M) -> (r: Transformation)
        requires
            evaluates(math),
        ensures
            r == self.spec_rotate(angle, math),
    {
        self.transform(Transformation::from_rotation(angle, math))
    }

    /// `self`, followed by the rotation and the translation of `other`.
    pub open spec fn spec_transform_from_decomposed<M: Fn(Elementary) -> Num>(
        self,
        other: DTransformation,
        math: &M,
    ) -> Transformation {
        self.rotate(other.rotation, math).transform(
            Transformation::from_translation(other.translation),
        )
    }

    #[verifier::when_used_as_spec(spec_transform_from_decomposed)]
    pub fn transform_from_decomposed<M: Fn(Elementary) -> Num>(
        self,
        other: DTransformation,
        math: &M,
    ) -> (r: Transformation)
        requires
            evaluates(math),
        ensures
            r == self.spec_transform_from_decomposed(other, math),
    {
        self.rotate(other.rotation, math).transform(
            Transformation::from_translation(other.translation),
        )
    }

    pub open spec fn minor(a: Num, b: Num, c: Num, d: Num) -> Num {
        a.mul(d).sub(b.mul(c))
    }

    pub open spec fn spec_determinant(self) -> Num {
        let (a, b, c) = self.rows;
        a.0.mul(b.1).mul(c.2).add(a.1.mul(b.2).mul(c.0)).add(a.2.mul(b.0).mul(c.1)).sub(
            a.2.mul(b.1).mul(c.0),
        ).sub(a.1.mul(b.0).mul(c.2)).sub(a.0.mul(b.2).mul(c.1))
    }

    #[verifier::when_used_as_spec(spec_determinant)]
    pub fn determinant(self) -> (r: Num)
        ensures
            r == self.spec_determinant(),
    {
        let (a, b, c): (Row, Row, Row) = self.rows;
        a.0.mul(b.1).mul(c.2).add(a.1.mul(b.2).mul(c.0)).add(a.2.mul(b.0).mul(c.1)).sub(
            a.2.mul(b.1).mul(c.0),
        ).sub(a.1.mul(b.0).mul(c.2)).sub(a.0.mul(b.2).mul(c.1))
    }

    /// The adjugate divided by the determinant.
    pub open spec fn spec_inverse(self) -> Transformation {
        let (a, b, c) = self.rows;
        let d = self.determinant();
        Transformation {
            rows: (
                Row(
                    Transformation::minor(b.1, b.2, c.1, c.2),
                    Transformation::minor(a.2, a.1, c.2, c.1),
                    Transformation::minor(a.1, a.2, b.1, b.2),
                ).over(d),
                Row(
                    Transformation::minor(b.2, b.0, c.2, c.0),
                    Transformation::minor(a.0, a.2, c.0, c.2),
                    Transformation::minor(a.2, a.0, b.2, b.0),
                ).over(d),
                Row(
                    Transformation::minor(b.0, b.1, c.0, c.1),
                    Transformation::minor(a.1, a.0, c.1, c.0),
                    Transformation::minor(a.0, a.1, b.0, b.1),
                ).over(d),
            ),
        }
    }

    fn compute_minor(a: Num, b: Num, c: Num, d: Num) -> (r: Num)
        ensures
            r == Transformation::minor(a, b, c, d),
    {
        a.mul(d).sub(b.mul(c))
    }

    #[verifier::when_used_as_spec(spec_inverse)]
    pub fn inverse(self) -> (r: Transformation)
        ensures
            r == self.spec_inverse(),
    {
        let (a, b, c): (Row, Row, Row) = self.rows;
        let d: Num = self.determinant();
        Transformation {
            rows: (
                Row(
                    Transformation::compute_minor(b.1, b.2, c.1, c.2),
                    Transformation::compute_minor(a.2, a.1, c.2, c.1),
                    Transformation::compute_minor(a.1, a.2, b.1, b.2),
                ).over(d),
                Row(
                    Transformation::compute_minor(b.2, b.0, c.2, c.0),
                    Transformation::compute_minor(a.0, a.2, c.0, c.2),
                    Transformation::compute_minor(a.2, a.0, b.2, b.0),
                ).over(d),
                Row(
                    Transformation::compute_minor(b.0, b.1, c.0, c.1),
                    Transformation::compute_minor(a.1, a.0, c.1, c.0),
                    Transformation::compute_minor(a.0, a.1, b.0, b.1),
                ).over(d),
            ),
        }
    }

    /// The rotation and the translation that make up a proper rigid transformation.
    pub open spec fn spec_decompose<M: Fn(Elementary) -> Num>(self, math: &M) -> DTransformation {
        DTransformation {
            rotation: evaluate(math, Elementary::Atan2(self.rows.1.0, self.rows.0.0)),
            translation: (self.rows.0.2, self.rows.1.2),
        }
    }

    #[verifier::when_used_as_spec(spec_decompose)]
    pub fn decompose<M: Fn(Elementary) -> Num>(self, math: &M) -> (r: DTransformation)
        requires
            evaluates(math),
        ensures
            r == self.spec_decompose(math),
    {
        DTransformation {
            rotation: evaluate(math, Elementary::Atan2(self.rows.1.0, self.rows.0.0)),
            translation: (self.rows.0.2, self.rows.1.2),
        }
    }
}

impl DTransformation {
    /// The identity.
    #[verifier::allow_in_spec]
    pub fn empty() -> DTransformation
        returns
            (DTransformation { rotation: Num::zero(), translation: (Num::zero(), Num::zero()) }),
    {
        DTransformation { rotation: Num::zero(), translation: (Num::zero(), Num::zero()) }
    }

    pub open spec fn spec_compose<M: Fn(Elementary) -> Num>(self, math: &M) -> Transformation {
        Transformation::empty().transform_from_decomposed(self, math)
    }

    #[verifier::when_used_as_spec(spec_compose)]
    pub fn compose<M: Fn(Elementary) -> Num>(self, math: &M) -> (r: Transformation)
        requires
            evaluates(math),
        ensures
            r == self.spec_compose(math),
    {
        Transformation::empty().transform_from_decomposed(self, math)
    }
}

impl Point {
    pub open spec fn spec_transformed(self, t: Transformation) -> Point {
        Point(t.rows.0.dot(self.0, self.1, Num::one()), t.rows.1.dot(self.0, self.1, Num::one()))
    }

    /// The image of the point.
    #[verifier::when_used_as_spec(spec_transformed)]
    pub fn transformed(self, t: Transformation) -> (r: Point)
        ensures
            r == self.spec_transformed(t),
    {
        Point(t.rows.0.dot(self.0, self.1, Num::one()), t.rows.1.dot(self.0, self.1, Num::one()))
    }
}

impl Edge {
    pub open spec fn spec_transformed(self, t: Transformation) -> Edge {
        Edge { start: self.start.transformed(t), end: self.end.transformed(t) }
    }

    /// The image of the edge.
    #[verifier::when_used_as_spec(spec_transformed)]
    pub fn transformed(self, t: Transformation) -> (r: Edge)
        ensures
            r == self.spec_transformed(t),
    {
        Edge { start: self.start.transformed(t), end: self.end.transformed(t) }
    }
}

impl Circle {
    pub open spec fn spec_transformed(self, t: Transformation) -> Circle {
        Circle { center: self.center.transformed(t), radius: self.radius }
    }

    /// The image of the circle.
    #[verifier::when_used_as_spec(spec_transformed)]
    pub fn transformed(self, t: Transformation) -> (r: Circle)
        ensures
            r == self.spec_transformed(t),
    {
        Circle { center: self.center.transformed(t), radius: self.radius }
    }
}

} // verus!
