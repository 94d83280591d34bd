use vstd::prelude::*;

use crate::tilemap::{Tile, TileMap};

verus! {

/// Fixed-point positions count this many units per map cell.
pub const SUB_CELL: u32 = 65536;

/// A ray from the observer: its origin in fixed-point map coordinates, and its
/// direction as a vector of length close to `SUB_CELL`.
#[derive(Clone, Copy, Debug, PartialEq, Eq, Structural)]
pub struct Ray {
    pub x: u32,
    pub y: u32,
    pub dx: i32,
    pub dy: i32,
}

/// How a ray march ended: on a wall after `steps` steps, with the wall's palette
/// index; or after `steps` steps without a wall, at the step bound or on leaving
/// the map.
#[derive(Clone, Copy, Debug, PartialEq, Eq, Structural)]
pub enum RayEnd {
    Hit { steps: u32, color: u8 },
    Escaped { steps: u32 },
}

/// Positions along a ray are kept in units of `1 / (steps_per_unit * SUB_CELL)`
/// of a cell, so that every step lands on a whole unit.
pub open spec fn fine_unit(steps_per_unit: u32) -> int {
    steps_per_unit as int * SUB_CELL as int
}

/// The coordinate, in fine units, that starts at fixed-point `o` and moves by
/// `d / steps_per_unit` fixed-point units per step, after `i` steps.
pub open spec fn fine_pos(o: u32, d: i32, steps_per_unit: u32, i: int) -> int {
    o as int * steps_per_unit as int + i * d as int
}

proof fn lemma_fine_pos_bounds(o: u32, d: i32, steps_per_unit: u32, i: u32)
    ensures
        0 <= o as int * steps_per_unit as int <= 0x1_0000_0000_0000_0000,
        -0x1_0000_0000_0000_0000 <= i as int * d as int <= 0x1_0000_0000_0000_0000,
{
    assert(0 <= o as int * steps_per_unit as int <= 0x1_0000_0000_0000_0000) by (nonlinear_arith)
        requires 0 <= o <= 0xffff_ffff, 0 <= steps_per_unit <= 0xffff_ffff;
    assert(-0x1_0000_0000_0000_0000 <= i as int * d as int <= 0x1_0000_0000_0000_0000) by (nonlinear_arith)
        requires 0 <= i <= 0xffff_ffff, -0x8000_0000 <= d <= 0x7fff_ffff;
}

/// The cell that the ray reaches after `i` steps, if that point lies in the map.
pub open spec fn step_cell(map: TileMap, ray: Ray, steps_per_unit: u32, i: int) -> Option<(int, int)> {
    let fx = fine_pos(ray.x, ray.dx, steps_per_unit, i);
    let fy = fine_pos(ray.y, ray.dy, steps_per_unit, i);
    let u = fine_unit(steps_per_unit);
    if 0 <= fx && 0 <= fy && fx / u < map.width && fy / u < map.height {
        Some((fx / u, fy / u))
    } else {
        None
    }
}

/// Whether the ray stands on a wall after `i` steps.
pub open spec fn wall_at_step(map: TileMap, ray: Ray, steps_per_unit: u32, i: int) -> bool {
    step_cell(map, ray, steps_per_unit, i) matches Some(c) && map.tile(c.0, c.1) is Wall
}

/// How the march goes on from step `i`: it stops on the first step that leaves
/// the map or lands on a wall, or at step `max_steps`.
pub open spec fn march_from(map: TileMap, ray: Ray, steps_per_unit: u32, max_steps: u32, i: int) -> RayEnd
    decreases max_steps - i,
{
    if i >= max_steps {
        RayEnd::Escaped { steps: max_steps }
    } else {
        match step_cell(map, ray, steps_per_unit, i) {
            None => RayEnd::Escaped { steps: i as u32 },
            Some(c) => match map.tile(c.0, c.1) {
                Tile::Wall(color) => RayEnd::Hit { steps: i as u32, color },
                Tile::Passable => march_from(map, ray, steps_per_unit, max_steps, i + 1),
            },
        }
    }
}

/// The end of a march of at most `max_steps` steps from the ray's origin.
pub open spec fn march(map: TileMap, ray: Ray, steps_per_unit: u32, max_steps: u32) -> RayEnd {
    march_from(map, ray, steps_per_unit, max_steps, 0)
}

/// The cell the ray reaches after `i` steps, or `None` when that point lies
/// outside the map.
pub fn cell_at_step(map: &TileMap, ray: Ray, steps_per_unit: u32, i: u32) -> (r: Option<(usize, usize)>)
    requires
        steps_per_unit > 0,
    ensures
        r matches Some(c) ==> step_cell(*map, ray, steps_per_unit, i as int) == Some((c.0 as int, c.1 as int)),
        r is None ==> step_cell(*map, ray, steps_per_unit, i as int) is None,
{
    proof {
        lemma_fine_pos_bounds(ray.x, ray.dx, steps_per_unit, i);
        lemma_fine_pos_bounds(ray.y, ray.dy, steps_per_unit, i);
    }
    let fx: i128 = ray.x as i128 * steps_per_unit as i128 + i as i128 * ray.dx as i128;
    let fy: i128 = ray.y as i128 * steps_per_unit as i128 + i as i128 * ray.dy as i128;
    assert(0 < steps_per_unit as int * SUB_CELL as int <= 0x1_0000_0000_0000_0000) by (nonlinear_arith)
        requires 0 < steps_per_unit <= 0xffff_ffff, SUB_CELL == 65536;
    let u: i128 = steps_per_unit as i128 * SUB_CELL as i128;
    if fx < 0 || fy < 0 {
        return None;
    }
    let cx: i128 = fx / u;
    let cy: i128 = fy / u;
    if cx < map.width as i128 && cy < map.height as i128 {
        Some((cx as usize, cy as usize))
    } else {
        None
    }
}

/// Marches `ray` one step of `1 / steps_per_unit` cells at a time, for at most
/// `max_steps` steps, and reports where it stopped: on the first wall it meets,
/// on leaving the map, or at the step bound.
pub fn march_ray(map: &TileMap, ray: Ray, steps_per_unit: u32, max_steps: u32) -> (r: RayEnd)
    requires
        map.wf(),
        steps_per_unit > 0,
    ensures
        r == march(*map, ray, steps_per_unit, max_steps),
{
    let mut i: u32 = 0;
    while i < max_steps
        invariant
            map.wf(),
            steps_per_unit > 0,
            i <= max_steps,
            march_from(*map, ray, steps_per_unit, max_steps, i as int) == march(*map, ray, steps_per_unit, max_steps),
        decreases max_steps - i,
    {
        match cell_at_step(map, ray, steps_per_unit, i) {
            None => {
                return RayEnd::Escaped { steps: i };
            },
            Some((cx, cy)) => {
                match map.tile_at(cx, cy) {
                    Tile::Wall(color) => {
                        return RayEnd::Hit { steps: i, color };
                    },
                    Tile::Passable => {},
                }
            },
        }
        i = i + 1;
    }
    RayEnd::Escaped { steps: max_steps }
}

} // verus!

verus! {

proof fn lemma_hit_is_first(map: TileMap, ray: Ray, steps_per_unit: u32, max_steps: u32, i: int)
    requires
        0 <= i,
    ensures
        march_from(map, ray, steps_per_unit, max_steps, i) matches RayEnd::Hit { steps, color } ==> {
            &&& i <= steps < max_steps
            &&& wall_at_step(map, ray, steps_per_unit, steps as int)
            &&& color == map.tile(
                step_cell(map, ray, steps_per_unit, steps as int).unwrap().0,
                step_cell(map, ray, steps_per_unit, steps as int).unwrap().1,
            )->Wall_0
            &&& forall|m: int| i <= m < steps ==> {
                &&& #[trigger] step_cell(map, ray, steps_per_unit, m) is Some
                &&& !wall_at_step(map, ray, steps_per_unit, m)
            }
        },
    decreases max_steps - i,
{
    if i < max_steps {
        if let Some(c) = step_cell(map, ray, steps_per_unit, i) {
            if map.tile(c.0, c.1) is Passable {
                lemma_hit_is_first(map, ray, steps_per_unit, max_steps, i + 1);
            }
        }
    }
}

proof fn lemma_wall_is_reached(map: TileMap, ray: Ray, steps_per_unit: u32, max_steps: u32, i: int, k: int)
    requires
        0 <= i <= k < max_steps,
        wall_at_step(map, ray, steps_per_unit, k),
        forall|m: int| i <= m < k ==> #[trigger] step_cell(map, ray, steps_per_unit, m) is Some,
    ensures
        march_from(map, ray, steps_per_unit, max_steps, i) matches RayEnd::Hit { steps, color } && steps <= k,
    decreases k - i,
{
    if i < k {
        let c = step_cell(map, ray, steps_per_unit, i).unwrap();
        if map.tile(c.0, c.1) is Passable {
            lemma_wall_is_reached(map, ray, steps_per_unit, max_steps, i + 1, k);
        }
    }
}

/// A ray that meets a wall at step `k`, below the step bound and without leaving the
/// map before, ends on a wall no later than step `k`; and a march that ends on a wall
/// ends on the first one: every step before it stands on open floor in the map.
pub proof fn lemma_march_stops_at_first_wall(
    map: TileMap,
    ray: Ray,
    steps_per_unit: u32,
    max_steps: u32,
    k: int,
)
    requires
        0 <= k < max_steps,
        wall_at_step(map, ray, steps_per_unit, k),
        forall|m: int| 0 <= m < k ==> #[trigger] step_cell(map, ray, steps_per_unit, m) is Some,
    ensures
        march(map, ray, steps_per_unit, max_steps) matches RayEnd::Hit { steps, color } && {
            &&& steps <= k
            &&& wall_at_step(map, ray, steps_per_unit, steps as int)
            &&& forall|m: int| 0 <= m < steps ==> {
                &&& #[trigger] step_cell(map, ray, steps_per_unit, m) is Some
                &&& !wall_at_step(map, ray, steps_per_unit, m)
            }
        },
{
    lemma_wall_is_reached(map, ray, steps_per_unit, max_steps, 0, k);
    lemma_hit_is_first(map, ray, steps_per_unit, max_steps, 0);
}

} // verus!

verus! {

/// A march that ends on a wall does so below the step bound, on a wall whose
/// palette index is the one reported.
pub proof fn lemma_march_end_bounds(map: TileMap, ray: Ray, steps_per_unit: u32, max_steps: u32)
    ensures
        march(map, ray, steps_per_unit, max_steps) matches RayEnd::Hit { steps, color } ==> {
            &&& steps < max_steps
            &&& step_cell(map, ray, steps_per_unit, steps as int) matches Some(c)
            &&& map.tile(c.0, c.1) == Tile::Wall(color)
        },
{
    lemma_hit_is_first(map, ray, steps_per_unit, max_steps, 0);
}

} // verus!
