use vstd::prelude::*;

use crate::framebuffer::{Framebuffer, pixel_set, rect_filled};
use crate::observer::Observer;
use crate::raster::{draw_top_down, top_down};
use crate::raymarch::{Ray, RayEnd, fine_pos, fine_unit, march, march_ray};
use crate::tilemap::TileMap;

verus! {

/// A rectangle of the framebuffer that one view draws into.
#[derive(Clone, Copy, Debug, PartialEq, Eq, Structural)]
pub struct Viewport {
    pub x: usize,
    pub y: usize,
    pub w: usize,
    pub h: usize,
}

/// What a frame is drawn with.
#[derive(Clone, Copy, Debug, PartialEq, Eq, Structural)]
pub struct RenderConfig {
    /// Width in pixels of a map cell in the top-down view.
    pub cell_w: u32,
    /// Height in pixels of a map cell in the top-down view.
    pub cell_h: u32,
    /// Ray steps per map cell: a step is `1 / steps_per_unit` cells long.
    pub steps_per_unit: u32,
    /// The most steps a ray takes.
    pub max_steps: u32,
    /// The color of the visibility cone in the top-down view.
    pub cone_color: u32,
    /// Whether the cone also marks the step that lands on a wall.
    pub cone_on_hit: bool,
    /// Where the projected view goes: one column per ray.
    pub view: Viewport,
}

impl Viewport {
    /// The viewport lies inside a `bw × bh` buffer.
    pub open spec fn fits(&self, bw: int, bh: int) -> bool {
        self.x + self.w <= bw && self.y + self.h <= bh
    }
}

/// The projected height of a wall `steps` steps of `1 / steps_per_unit` cells away,
/// in a view `view_h` pixels high: `view_h` divided by the distance, rounded down.
/// A wall at distance zero is taken to be one step away.
pub open spec fn projected_height_of(view_h: int, steps: int, steps_per_unit: int) -> int {
    view_h * steps_per_unit / (if steps > 0 {
        steps
    } else {
        1
    })
}

/// The wall column for ray `j` of `view` with projected height `height`: one pixel
/// wide, centered vertically, cut to the viewport's height. The result is `(x, y,
/// w, h)`.
pub open spec fn column_rect(view: Viewport, j: int, height: int) -> (int, int, int, int) {
    if height >= view.h {
        (view.x + j, view.y as int, 1, view.h as int)
    } else {
        (view.x + j, view.y + (view.h - height) / 2, 1, height)
    }
}

/// The top-down pixel that marks the ray's position after `i` steps.
pub open spec fn cone_pixel(ray: Ray, cfg: RenderConfig, i: int) -> (int, int) {
    let u = fine_unit(cfg.steps_per_unit);
    (
        fine_pos(ray.x, ray.dx, cfg.steps_per_unit, i) * cfg.cell_w / u,
        fine_pos(ray.y, ray.dy, cfg.steps_per_unit, i) * cfg.cell_h / u,
    )
}

/// The pixels of a `bw × bh` buffer after the cone marks of the first `n` steps of
/// `ray` are drawn.
pub open spec fn cone_drawn(pixels: Seq<u32>, bw: int, bh: int, ray: Ray, cfg: RenderConfig, n: int) -> Seq<u32>
    decreases n,
{
    if n <= 0 {
        pixels
    } else {
        let p = cone_pixel(ray, cfg, n - 1);
        pixel_set(cone_drawn(pixels, bw, bh, ray, cfg, n - 1), bw, bh, p.0, p.1, cfg.cone_color)
    }
}

/// How many steps of a march that ended at `end` get a cone mark.
pub open spec fn cone_steps(end: RayEnd, cone_on_hit: bool) -> int {
    match end {
        RayEnd::Hit { steps, .. } => steps + if cone_on_hit {
            1int
        } else {
            0int
        },
        RayEnd::Escaped { steps } => steps as int,
    }
}

/// The pixels of a `bw × bh` buffer after ray `j` is cast: the cone marks of the
/// steps it took, then, if it met a wall, the wall's column in the wall's color.
pub open spec fn ray_drawn(
    pixels: Seq<u32>,
    bw: int,
    bh: int,
    map: TileMap,
    palette: Seq<u32>,
    ray: Ray,
    cfg: RenderConfig,
    j: int,
) -> Seq<u32> {
    let end = march(map, ray, cfg.steps_per_unit, cfg.max_steps);
    let p = cone_drawn(pixels, bw, bh, ray, cfg, cone_steps(end, cfg.cone_on_hit));
    match end {
        RayEnd::Hit { steps, color } => {
            let r = column_rect(
                cfg.view,
                j,
                projected_height_of(cfg.view.h as int, steps as int, cfg.steps_per_unit as int),
            );
            rect_filled(p, bw, r.0, r.1, r.2, r.3, palette[color as int])
        },
        RayEnd::Escaped { .. } => p,
    }
}

/// The projected height of a wall `steps` steps away in a view `view_h` pixels
/// high; a wall at distance zero counts as one step away.
pub fn projected_height(view_h: usize, steps: u32, steps_per_unit: u32) -> (r: u128)
    ensures
        r == projected_height_of(view_h as int, steps as int, steps_per_unit as int),
{
    let d: u128 = if steps > 0 {
        steps as u128
    } else {
        1
    };
    assert(view_h as int * steps_per_unit as int <= u128::MAX) by (nonlinear_arith)
        requires view_h <= u64::MAX, steps_per_unit <= u32::MAX;
    view_h as u128 * steps_per_unit as u128 / d
}

/// A closer wall never projects lower than a farther one; it projects strictly
/// higher when the two heights differ by at least one pixel before rounding
/// (`view_h * steps_per_unit * (t2 - t1) >= t1 * t2`).
pub proof fn lemma_closer_wall_is_taller(view_h: nat, steps_per_unit: nat, t1: nat, t2: nat)
    requires
        0 < t1 < t2,
    ensures
        projected_height_of(view_h as int, t1 as int, steps_per_unit as int) >= projected_height_of(
            view_h as int,
            t2 as int,
            steps_per_unit as int,
        ),
        view_h * steps_per_unit * (t2 - t1) >= t1 * t2 ==> projected_height_of(
            view_h as int,
            t1 as int,
            steps_per_unit as int,
        ) > projected_height_of(view_h as int, t2 as int, steps_per_unit as int),
{
    let n = (view_h * steps_per_unit) as int;
    assert(n >= 0) by (nonlinear_arith)
        requires n == view_h * steps_per_unit;
    vstd::arithmetic::div_mod::lemma_div_is_ordered_by_denominator(n, t1 as int, t2 as int);
    if view_h * steps_per_unit * (t2 - t1) >= t1 * t2 {
        let q2 = n / (t2 as int);
        vstd::arithmetic::div_mod::lemma_fundamental_div_mod(n, t2 as int);
        vstd::arithmetic::div_mod::lemma_mod_pos_bound(n, t2 as int);
        assert((q2 + 1) * t1 <= n) by (nonlinear_arith)
            requires
                n == t2 * q2 + (n % (t2 as int)),
                (n % (t2 as int)) >= 0,
                n * (t2 - t1) >= t1 * t2,
                0 < t1 < t2,
        {
            assert((q2 + 1) * t1 * t2 <= n * t2);
        }
        vstd::arithmetic::div_mod::lemma_div_pos_is_pos(n, t2 as int);
        vstd::arithmetic::div_mod::lemma_fundamental_div_mod(n, t1 as int);
        vstd::arithmetic::div_mod::lemma_mod_pos_bound(n, t1 as int);
        assert(n / (t1 as int) >= q2 + 1) by (nonlinear_arith)
            requires
                (q2 + 1) * t1 <= n,
                n == t1 * (n / (t1 as int)) + (n % (t1 as int)),
                0 <= (n % (t1 as int)) < t1,
                t1 > 0;
    }
}

} // verus!

verus! {

proof fn lemma_div_of_negative(a: int, u: int)
    requires
        a < 0,
        u > 0,
    ensures
        a / u < 0,
{
    vstd::arithmetic::div_mod::lemma_fundamental_div_mod(a, u);
    vstd::arithmetic::div_mod::lemma_mod_bound(a, u);
    assert(a / u < 0) by (nonlinear_arith)
        requires a == u * (a / u) + a % u, 0 <= a % u, a < 0, u > 0;
}

/// Marks in the top-down view the position of `ray` after each of its first `n`
/// steps; marks that fall outside the buffer are dropped.
pub fn draw_cone(buf: &mut Framebuffer, ray: Ray, cfg: &RenderConfig, n: u32)
    requires
        old(buf).wf(),
        cfg.steps_per_unit > 0,
    ensures
        final(buf).wf(),
        final(buf).width == old(buf).width,
        final(buf).height == old(buf).height,
        final(buf).pixels@ == cone_drawn(
            old(buf).pixels@,
            old(buf).width as int,
            old(buf).height as int,
            ray,
            *cfg,
            n as int,
        ),
{
    let ghost start = buf.pixels@;
    assert(0 < cfg.steps_per_unit as int * 65536 <= 0x1_0000_0000_0000_0000) by (nonlinear_arith)
        requires 0 < cfg.steps_per_unit <= 0xffff_ffff;
    let u: i128 = cfg.steps_per_unit as i128 * 65536;
    let mut i: u32 = 0;
    while i < n
        invariant
            i <= n,
            buf.wf(),
            buf.width == old(buf).width,
            buf.height == old(buf).height,
            start == old(buf).pixels@,
            u == fine_unit(cfg.steps_per_unit),
            u > 0,
            buf.pixels@ == cone_drawn(start, buf.width as int, buf.height as int, ray, *cfg, i as int),
        decreases n - i,
    {
        assert(0 <= ray.x as int * cfg.steps_per_unit as int <= 0x1_0000_0000_0000_0000
            && 0 <= ray.y as int * cfg.steps_per_unit as int <= 0x1_0000_0000_0000_0000
            && -0x1_0000_0000_0000_0000 <= i as int * ray.dx as int <= 0x1_0000_0000_0000_0000
            && -0x1_0000_0000_0000_0000 <= i as int * ray.dy as int <= 0x1_0000_0000_0000_0000)
            by (nonlinear_arith)
            requires ray.x <= u32::MAX, ray.y <= u32::MAX, cfg.steps_per_unit <= u32::MAX,
                i <= u32::MAX, i32::MIN <= ray.dx <= i32::MAX, i32::MIN <= ray.dy <= i32::MAX;
        let fx: i128 = ray.x as i128 * cfg.steps_per_unit as i128 + i as i128 * ray.dx as i128;
        let fy: i128 = ray.y as i128 * cfg.steps_per_unit as i128 + i as i128 * ray.dy as i128;
        assert(-0x4_0000_0000_0000_0000_0000_0000 <= fx * cfg.cell_w <= 0x4_0000_0000_0000_0000_0000_0000
            && -0x4_0000_0000_0000_0000_0000_0000 <= fy * cfg.cell_h <= 0x4_0000_0000_0000_0000_0000_0000)
            by (nonlinear_arith)
            requires -0x2_0000_0000_0000_0000 <= fx <= 0x2_0000_0000_0000_0000,
                -0x2_0000_0000_0000_0000 <= fy <= 0x2_0000_0000_0000_0000,
                0 <= cfg.cell_w <= u32::MAX, 0 <= cfg.cell_h <= u32::MAX;
        let ax: i128 = fx * cfg.cell_w as i128;
        let ay: i128 = fy * cfg.cell_h as i128;
        if ax >= 0 && ay >= 0 {
            let px: i128 = ax / u;
            let py: i128 = ay / u;
            if px < buf.width as i128 && py < buf.height as i128 {
                buf.set_pixel(px as usize, py as usize, cfg.cone_color);
            }
        } else {
            proof {
                if ax < 0 {
                    lemma_div_of_negative(ax as int, u as int);
                }
                if ay < 0 {
                    lemma_div_of_negative(ay as int, u as int);
                }
            }
        }
        i = i + 1;
    }
}

/// Casts ray `j`: marches `ray` across the map, marks the steps it takes in the
/// top-down view, and, if it meets a wall, draws the wall's column in the
/// projected view, taller the closer the wall, in the wall's palette color.
pub fn cast_ray(
    buf: &mut Framebuffer,
    map: &TileMap,
    palette: &Vec<u32>,
    ray: Ray,
    cfg: &RenderConfig,
    j: usize,
)
    requires
        old(buf).wf(),
        map.wf(),
        map.fits_palette(palette.len() as nat),
        cfg.steps_per_unit > 0,
        cfg.view.fits(old(buf).width as int, old(buf).height as int),
        j < cfg.view.w,
    ensures
        final(buf).wf(),
        final(buf).width == old(buf).width,
        final(buf).height == old(buf).height,
        final(buf).pixels@ == ray_drawn(
            old(buf).pixels@,
            old(buf).width as int,
            old(buf).height as int,
            *map,
            palette@,
            ray,
            *cfg,
            j as int,
        ),
{
    let end = march_ray(map, ray, cfg.steps_per_unit, cfg.max_steps);
    proof {
        crate::raymarch::lemma_march_end_bounds(*map, ray, cfg.steps_per_unit, cfg.max_steps);
        if let RayEnd::Hit { steps, color } = end {
            let c = crate::raymarch::step_cell(*map, ray, cfg.steps_per_unit, steps as int).unwrap();
            assert(c.0 + c.1 * map.width < map.width * map.height) by (nonlinear_arith)
                requires 0 <= c.0 < map.width, 0 <= c.1 < map.height;
            assert(crate::tilemap::tile_fits(map.tiles@[c.0 + c.1 * map.width], palette.len() as nat));
        }
    }
    match end {
        RayEnd::Hit { steps, color } => {
            let marks = if cfg.cone_on_hit {
                steps + 1
            } else {
                steps
            };
            draw_cone(buf, ray, cfg, marks);
            let height = projected_height(cfg.view.h, steps, cfg.steps_per_unit);
            let x = cfg.view.x + j;
            if height >= cfg.view.h as u128 {
                buf.fill_rect(x, cfg.view.y, 1, cfg.view.h, palette[color as usize]);
            } else {
                let top = cfg.view.y + (cfg.view.h - height as usize) / 2;
                buf.fill_rect(x, top, 1, height as usize, palette[color as usize]);
            }
        },
        RayEnd::Escaped { steps } => {
            draw_cone(buf, ray, cfg, steps);
        },
    }
}

} // verus!

verus! {

/// The ray that `obs` casts in direction `dir`.
pub open spec fn ray_toward(obs: Observer, dir: (i32, i32)) -> Ray {
    Ray { x: obs.x, y: obs.y, dx: dir.0, dy: dir.1 }
}

/// The pixels of a `bw × bh` buffer after rays `0 .. n` are cast, ray `j` in
/// direction `dirs[j]`, one after the other.
pub open spec fn rays_drawn(
    pixels: Seq<u32>,
    bw: int,
    bh: int,
    map: TileMap,
    palette: Seq<u32>,
    obs: Observer,
    dirs: Seq<(i32, i32)>,
    cfg: RenderConfig,
    n: int,
) -> Seq<u32>
    decreases n,
{
    if n <= 0 {
        pixels
    } else {
        ray_drawn(
            rays_drawn(pixels, bw, bh, map, palette, obs, dirs, cfg, n - 1),
            bw,
            bh,
            map,
            palette,
            ray_toward(obs, dirs[n - 1]),
            cfg,
            n - 1,
        )
    }
}

/// The frame drawn over `pixels`: cleared to `background`, the map top-down, then
/// one ray per direction of `dirs`.
pub open spec fn frame_over(
    pixels: Seq<u32>,
    bw: int,
    bh: int,
    map: TileMap,
    palette: Seq<u32>,
    obs: Observer,
    dirs: Seq<(i32, i32)>,
    cfg: RenderConfig,
    background: u32,
) -> Seq<u32> {
    let cleared = Seq::new(pixels.len(), |k: int| background);
    let with_map = top_down(cleared, bw, map, palette, cfg.cell_w as int, cfg.cell_h as int);
    rays_drawn(with_map, bw, bh, map, palette, obs, dirs, cfg, dirs.len() as int)
}

/// Casts one ray per column of the projected view, ray `j` in direction
/// `dirs[j]` from the observer.
pub fn render_view(
    buf: &mut Framebuffer,
    map: &TileMap,
    palette: &Vec<u32>,
    obs: &Observer,
    dirs: &Vec<(i32, i32)>,
    cfg: &RenderConfig,
)
    requires
        old(buf).wf(),
        map.wf(),
        map.fits_palette(palette.len() as nat),
        cfg.steps_per_unit > 0,
        cfg.view.fits(old(buf).width as int, old(buf).height as int),
        dirs.len() == cfg.view.w,
    ensures
        final(buf).wf(),
        final(buf).width == old(buf).width,
        final(buf).height == old(buf).height,
        final(buf).pixels@ == rays_drawn(
            old(buf).pixels@,
            old(buf).width as int,
            old(buf).height as int,
            *map,
            palette@,
            *obs,
            dirs@,
            *cfg,
            dirs.len() as int,
        ),
{
    let ghost start = buf.pixels@;
    let mut j: usize = 0;
    while j < dirs.len()
        invariant
            j <= dirs.len(),
            dirs.len() == cfg.view.w,
            buf.wf(),
            map.wf(),
            map.fits_palette(palette.len() as nat),
            cfg.steps_per_unit > 0,
            buf.width == old(buf).width,
            buf.height == old(buf).height,
            cfg.view.fits(buf.width as int, buf.height as int),
            start == old(buf).pixels@,
            buf.pixels@ == rays_drawn(start, buf.width as int, buf.height as int, *map, palette@, *obs, dirs@, *cfg, j as int),
        decreases dirs.len() - j,
    {
        let (dx, dy) = dirs[j];
        let ray = obs.ray(dx, dy);
        cast_ray(buf, map, palette, ray, cfg, j);
        j = j + 1;
    }
}

/// Draws one frame into `buf`: clears it to `background`, draws the map top-down
/// with its cells `cfg.cell_w × cfg.cell_h` pixels from the top-left corner, then
/// casts one ray per column of the projected view, ray `j` in direction
/// `dirs[j]`. Nothing of what `buf` held before shows in the result.
pub fn render_frame(
    buf: &mut Framebuffer,
    map: &TileMap,
    palette: &Vec<u32>,
    obs: &Observer,
    dirs: &Vec<(i32, i32)>,
    cfg: &RenderConfig,
    background: u32,
)
    requires
        old(buf).wf(),
        map.wf(),
        map.fits_palette(palette.len() as nat),
        cfg.steps_per_unit > 0,
        cfg.view.fits(old(buf).width as int, old(buf).height as int),
        dirs.len() == cfg.view.w,
    ensures
        final(buf).wf(),
        final(buf).width == old(buf).width,
        final(buf).height == old(buf).height,
        final(buf).pixels@ == frame_over(
            old(buf).pixels@,
            old(buf).width as int,
            old(buf).height as int,
            *map,
            palette@,
            *obs,
            dirs@,
            *cfg,
            background,
        ),
{
    buf.clear(background);
    draw_top_down(buf, map, palette, cfg.cell_w as usize, cfg.cell_h as usize);
    render_view(buf, map, palette, obs, dirs, cfg);
}

/// A frame does not depend on what the buffer held before: drawn over any two
/// earlier frames of the same size, it comes out the same.
pub proof fn lemma_frame_forgets_previous(
    a: Seq<u32>,
    b: Seq<u32>,
    bw: int,
    bh: int,
    map: TileMap,
    palette: Seq<u32>,
    obs: Observer,
    dirs: Seq<(i32, i32)>,
    cfg: RenderConfig,
    background: u32,
)
    requires
        a.len() == b.len(),
    ensures
        frame_over(a, bw, bh, map, palette, obs, dirs, cfg, background) == frame_over(
            b,
            bw,
            bh,
            map,
            palette,
            obs,
            dirs,
            cfg,
            background,
        ),
{
    assert(Seq::new(a.len(), |k: int| background) =~= Seq::new(b.len(), |k: int| background));
}

} // verus!
