use vstd::prelude::*;

use crate::raymarch::Ray;

verus! {

/// Angles are counted in millionths of a radian.
pub const ANGLE_UNITS_PER_RADIAN: u32 = 1_000_000;

/// The viewer: a position in fixed-point map coordinates (`SUB_CELL` units per
/// cell), the direction it faces and the width of its field of view, both in
/// millionths of a radian.
#[derive(Clone, Copy, Debug, PartialEq, Eq, Structural)]
pub struct Observer {
    pub x: u32,
    pub y: u32,
    pub angle: i32,
    pub fov: u32,
}

/// The direction of ray `j` of `n`: the field of view swept from its left edge,
/// `angle - fov / 2`, in `n` equal parts.
pub open spec fn column_angle_of(obs: Observer, j: int, n: int) -> int {
    obs.angle - obs.fov / 2 + obs.fov * j / n
}

impl Observer {
    /// The direction of ray `j` when `n` rays sweep the field of view.
    pub fn column_angle(&self, j: usize, n: usize) -> (r: i64)
        requires
            j <= n,
            n > 0,
        ensures
            r == column_angle_of(*self, j as int, n as int),
    {
        assert(0 <= self.fov as int * j as int <= self.fov as int * n as int) by (nonlinear_arith)
            requires j <= n, self.fov >= 0;
        assert(self.fov as int * j as int <= u128::MAX) by (nonlinear_arith)
            requires j <= u64::MAX, self.fov <= u32::MAX;
        let sweep: u128 = self.fov as u128 * j as u128 / n as u128;
        assert(sweep <= self.fov) by {
            vstd::arithmetic::div_mod::lemma_div_is_ordered(
                self.fov as int * j as int,
                self.fov as int * n as int,
                n as int,
            );
            vstd::arithmetic::div_mod::lemma_div_multiples_vanish(self.fov as int, n as int);
            assert(self.fov as int * n as int == n as int * self.fov as int) by (nonlinear_arith);
        }
        self.angle as i64 - (self.fov / 2) as i64 + sweep as i64
    }

    /// The ray from the observer's position in direction `(dx, dy)`.
    pub fn ray(&self, dx: i32, dy: i32) -> (r: Ray)
        ensures
            r == (Ray { x: self.x, y: self.y, dx, dy }),
    {
        Ray { x: self.x, y: self.y, dx, dy }
    }

    /// Turns the observer by `delta`.
    pub fn turn(&mut self, delta: i32)
        requires
            i32::MIN <= old(self).angle + delta <= i32::MAX,
        ensures
            *final(self) == (Observer { angle: (old(self).angle + delta) as i32, ..*old(self) }),
    {
        self.angle = self.angle + delta;
    }
}

} // verus!
