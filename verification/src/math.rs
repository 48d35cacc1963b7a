//! Integer plane vectors.
//!
//! Every coordinate in the simulation core is an integer: grid cells are
//! addressed by whole numbers, and positions that fall on edge midpoints are
//! stored doubled, so that they are whole numbers too.

use vstd::prelude::*;

verus! {

/// An integer 2-vector: a grid cell address, a displacement, or a doubled
/// position (a position stored at twice its value, so edge midpoints are
/// exact).
#[derive(Clone, Copy, Debug, PartialEq, Eq, Structural, Hash)]
pub struct Vec2i {
    pub x: isize,
    pub y: isize,
}

/// Builds a [`Vec2i`] from its components.
pub fn vec2(x: isize, y: isize) -> (v: Vec2i)
    ensures
        v == (Vec2i { x, y }),
{
    Vec2i { x, y }
}

impl Vec2i {
    /// Whether both components are small, the way a direction vector's are:
    /// small enough that negation, rotation and dot products cannot overflow.
    pub open spec fn bounded(self) -> bool {
        -0x1000 <= self.x <= 0x1000 && -0x1000 <= self.y <= 0x1000
    }

    /// Whether the vector is one of the four cardinal unit vectors.
    pub open spec fn is_cardinal(self) -> bool {
        self.bounded() && self.spec_dot(self) == 1
    }

    /// The negated vector, as a spec value.
    pub open spec fn spec_neg(self) -> Vec2i {
        Vec2i { x: (-self.x) as isize, y: (-self.y) as isize }
    }
}

/// A cardinal unit vector is one of exactly four values; negation and
/// quarter turns therefore stay cardinal.
pub proof fn lemma_cardinal_cases(v: Vec2i)
    requires
        v.is_cardinal(),
    ensures
        v == (Vec2i { x: 1 as isize, y: 0 as isize }) || v == (
        Vec2i { x: (-1) as isize, y: 0 as isize }) || v == (
        Vec2i { x: 0 as isize, y: 1 as isize }) || v == (
        Vec2i { x: 0 as isize, y: (-1) as isize }),
{
    let x = v.x as int;
    let y = v.y as int;
    assert((x == 1 && y == 0) || (x == -1 && y == 0) || (x == 0 && y == 1) || (x == 0 && y == -1))
        by (nonlinear_arith)
        requires
            x * x + y * y == 1,
    ;
}

/// Negating or quarter-turning a cardinal unit vector gives a cardinal unit
/// vector.
pub proof fn lemma_cardinal_preserved(v: Vec2i)
    requires
        v.is_cardinal(),
    ensures
        v.spec_neg().is_cardinal(),
        v.spec_right_ccw().is_cardinal(),
        v.spec_right_cw().is_cardinal(),
{
    let x = v.x as int;
    let y = v.y as int;
    assert((-x) * (-x) + (-y) * (-y) == 1 && (-y) * (-y) + x * x == 1 && y * y + (-x) * (-x) == 1)
        by (nonlinear_arith)
        requires
            x * x + y * y == 1,
    ;
}

/// Rotations and the dot product for direction vectors.
///
/// The spec functions give the mathematical value of each operation; the
/// executable methods are proved against them for every `in_range` vector.
pub trait Vector2Ex: Sized {
    /// The inputs on which the operations below are defined.
    spec fn in_range(self) -> bool;

    /// The vector rotated 90 degrees counterclockwise, as a spec value.
    spec fn spec_right_ccw(self) -> Self;

    /// The vector rotated 90 degrees clockwise, as a spec value.
    spec fn spec_right_cw(self) -> Self;

    /// The dot product, as a spec value (exact, over `int`).
    spec fn spec_dot(self, other: Self) -> int;

    /// Rotates the vector 90 degrees counterclockwise.
    fn right_ccw(self) -> (r: Self)
        requires
            self.in_range(),
        ensures
            r == self.spec_right_ccw(),
    ;

    /// Rotates the vector 90 degrees clockwise.
    fn right_cw(self) -> (r: Self)
        requires
            self.in_range(),
        ensures
            r == self.spec_right_cw(),
    ;

    /// Dot product; not restricted to unit vectors.
    fn dot_ex(self, other: Self) -> (r: isize)
        requires
            self.in_range(),
            other.in_range(),
        ensures
            r as int == self.spec_dot(other),
    ;
}

impl Vector2Ex for Vec2i {
    open spec fn in_range(self) -> bool {
        self.bounded()
    }

    open spec fn spec_right_ccw(self) -> Vec2i {
        Vec2i { x: (-self.y) as isize, y: self.x }
    }

    open spec fn spec_right_cw(self) -> Vec2i {
        Vec2i { x: self.y, y: (-self.x) as isize }
    }

    open spec fn spec_dot(self, other: Vec2i) -> int {
        self.x * other.x + self.y * other.y
    }

    fn right_ccw(self) -> (r: Vec2i) {
        Vec2i { x: -self.y, y: self.x }
    }

    fn right_cw(self) -> (r: Vec2i) {
        Vec2i { x: self.y, y: -self.x }
    }

    fn dot_ex(self, other: Vec2i) -> (r: isize) {
        proof {
            assert(-0x100_0000 <= self.x * other.x <= 0x100_0000) by (nonlinear_arith)
                requires
                    -0x1000 <= self.x <= 0x1000,
                    -0x1000 <= other.x <= 0x1000,
            ;
            assert(-0x100_0000 <= self.y * other.y <= 0x100_0000) by (nonlinear_arith)
                requires
                    -0x1000 <= self.y <= 0x1000,
                    -0x1000 <= other.y <= 0x1000,
            ;
        }
        self.x * other.x + self.y * other.y
    }
}

} // verus!
