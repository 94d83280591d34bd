use raycaster::color::{ColorChannel, pack_color};
use raycaster::framebuffer::Framebuffer;
use raycaster::observer::Observer;
use raycaster::raster::draw_top_down;
use raycaster::raymarch::{Ray, RayEnd, SUB_CELL, cell_at_step, march_ray};
use raycaster::render::{RenderConfig, Viewport, cast_ray, draw_cone, projected_height, render_frame};
use raycaster::tilemap::TileMap;

const WHITE: u32 = 0x00ff_ffff;
const GREY: u32 = 0x00a0_a0a0;

fn fixed(v: f64) -> u32 {
    (v * SUB_CELL as f64) as u32
}

fn directions(obs: &Observer, n: usize) -> Vec<(i32, i32)> {
    (0..n)
        .map(|j| {
            let a = obs.column_angle(j, n) as f64 / 1_000_000.0;
            ((a.cos() * SUB_CELL as f64).round() as i32, (a.sin() * SUB_CELL as f64).round() as i32)
        })
        .collect()
}

/// A 16 × 16 ring of walls, open inside but for the wall cell (13, 8) at the end of
/// the corridor along row 8.
fn corridor_map() -> TileMap {
    let mut codes = Vec::new();
    for y in 0..16 {
        for x in 0..16 {
            let ring = x == 0 || y == 0 || x == 15 || y == 15;
            codes.push(if ring { b'1' } else if x == 13 && y == 8 { b'2' } else { b' ' });
        }
    }
    TileMap::parse(&codes, 16, 16, 4).unwrap()
}

fn corridor_config(columns: usize) -> RenderConfig {
    RenderConfig {
        cell_w: 4,
        cell_h: 4,
        steps_per_unit: 100,
        max_steps: 1100,
        cone_color: GREY,
        cone_on_hit: false,
        view: Viewport { x: 64, y: 0, w: columns, h: 500 },
    }
}

#[test]
fn top_down_paints_walls_and_skips_open_cells() {
    let map = TileMap::parse(&b"0 \n 1".iter().filter(|&&c| c != b'\n').cloned().collect(), 2, 2, 2).unwrap();
    let palette = vec![10, 20];
    let mut fb = Framebuffer::new(5, 5, 7);
    draw_top_down(&mut fb, &map, &palette, 2, 2);
    for y in 0..5 {
        for x in 0..5 {
            let expected = match (x / 2, y / 2) {
                (0, 0) => 10,
                (1, 1) => 20,
                _ => 7,
            };
            assert_eq!(fb.get_pixel(x, y), expected, "pixel ({}, {})", x, y);
        }
    }
}

#[test]
fn top_down_with_zero_cell_size_paints_nothing() {
    let map = TileMap::parse(&b"00".to_vec(), 2, 1, 1).unwrap();
    let mut fb = Framebuffer::new(4, 4, 7);
    draw_top_down(&mut fb, &map, &vec![1], 0, 3);
    assert!(fb.pixels.iter().all(|&p| p == 7));
}

#[test]
fn march_stops_on_the_first_wall() {
    let map = TileMap::parse(&b"  23".to_vec(), 4, 1, 4).unwrap();
    let ray = Ray { x: fixed(0.5), y: fixed(0.5), dx: SUB_CELL as i32, dy: 0 };
    assert_eq!(march_ray(&map, ray, 10, 100), RayEnd::Hit { steps: 15, color: 2 });
}

#[test]
fn march_stops_at_the_step_bound() {
    let map = TileMap::parse(&b"  23".to_vec(), 4, 1, 4).unwrap();
    let ray = Ray { x: fixed(0.5), y: fixed(0.5), dx: SUB_CELL as i32, dy: 0 };
    assert_eq!(march_ray(&map, ray, 10, 15), RayEnd::Escaped { steps: 15 });
    assert_eq!(march_ray(&map, ray, 10, 16), RayEnd::Hit { steps: 15, color: 2 });
}

#[test]
fn march_ends_on_leaving_the_map() {
    let map = TileMap::parse(&b"   3".to_vec(), 4, 1, 4).unwrap();
    let ray = Ray { x: fixed(1.5), y: fixed(0.5), dx: -(SUB_CELL as i32), dy: 0 };
    assert_eq!(march_ray(&map, ray, 10, 100), RayEnd::Escaped { steps: 16 });
    assert_eq!(cell_at_step(&map, ray, 10, 15), Some((0, 0)));
    assert_eq!(cell_at_step(&map, ray, 10, 16), None);
}

#[test]
fn march_from_inside_a_wall_hits_at_once() {
    let map = TileMap::parse(&b"5".to_vec(), 1, 1, 6).unwrap();
    let ray = Ray { x: fixed(0.5), y: fixed(0.5), dx: 0, dy: SUB_CELL as i32 };
    assert_eq!(march_ray(&map, ray, 100, 2000), RayEnd::Hit { steps: 0, color: 5 });
}

#[test]
fn projected_height_values() {
    assert_eq!(projected_height(512, 100, 100), 512);
    assert_eq!(projected_height(512, 1000, 100), 51);
    assert_eq!(projected_height(500, 1000, 100), 50);
    assert_eq!(projected_height(512, 0, 100), 51200);
}

#[test]
fn closer_walls_project_taller() {
    let mut last = u128::MAX;
    for steps in 1..=200u32 {
        let h = projected_height(512, steps, 100);
        assert!(h < last || steps == 1);
        last = h;
    }
    assert!(projected_height(512, 1999, 100) >= projected_height(512, 2000, 100));
}

#[test]
fn column_angles_sweep_the_field_of_view() {
    let obs = Observer { x: 0, y: 0, angle: 1_000_000, fov: 400_000 };
    assert_eq!(obs.column_angle(0, 40), 800_000);
    assert_eq!(obs.column_angle(20, 40), 1_000_000);
    assert_eq!(obs.column_angle(39, 40), 1_190_000);
    assert_eq!(obs.column_angle(40, 40), 1_200_000);
}

#[test]
fn turn_changes_only_the_angle() {
    let mut obs = Observer { x: 3, y: 4, angle: 100, fov: 9 };
    obs.turn(-250);
    assert_eq!(obs, Observer { x: 3, y: 4, angle: -150, fov: 9 });
}

#[test]
fn cone_marks_each_step() {
    let mut fb = Framebuffer::new(8, 2, 0);
    let cfg = RenderConfig { cell_w: 2, cell_h: 2, steps_per_unit: 2, max_steps: 10, cone_color: 3, cone_on_hit: true, view: Viewport { x: 0, y: 0, w: 1, h: 2 } };
    let ray = Ray { x: 0, y: fixed(0.25), dx: SUB_CELL as i32, dy: 0 };
    draw_cone(&mut fb, ray, &cfg, 3);
    assert_eq!(fb.pixels, vec![3, 3, 3, 0, 0, 0, 0, 0, 0, 0, 0, 0, 0, 0, 0, 0]);
}

#[test]
fn cast_ray_draws_a_centered_column() {
    let map = TileMap::parse(&b"  1".to_vec(), 3, 1, 2).unwrap();
    let palette = vec![10, 20];
    let mut fb = Framebuffer::new(8, 10, 0);
    let cfg = RenderConfig { cell_w: 1, cell_h: 1, steps_per_unit: 1, max_steps: 10, cone_color: 3, cone_on_hit: false, view: Viewport { x: 4, y: 0, w: 4, h: 10 } };
    let ray = Ray { x: 0, y: fixed(0.5), dx: SUB_CELL as i32, dy: 0 };
    cast_ray(&mut fb, &map, &palette, ray, &cfg, 1);
    // the wall is 2 steps away: 10 / 2 = 5 pixels, from row (10 - 5) / 2 = 2
    for y in 0..10 {
        assert_eq!(fb.get_pixel(5, y), if (2..7).contains(&y) { 20 } else { 0 });
    }
    assert_eq!(fb.get_pixel(0, 0), 3);
    assert_eq!(fb.get_pixel(1, 0), 3);
    assert_eq!(fb.get_pixel(2, 0), 0);
}

#[test]
fn corridor_center_column_height_is_frame_height_over_length() {
    let map = corridor_map();
    let palette = vec![1, 2, 3, 4];
    let obs = Observer { x: fixed(3.0), y: fixed(8.5), angle: 0, fov: 400_000 };
    let cfg = corridor_config(40);
    let dirs = directions(&obs, 40);
    assert_eq!(dirs[20], (SUB_CELL as i32, 0));
    let center = march_ray(&map, obs.ray(dirs[20].0, dirs[20].1), 100, 1100);
    assert_eq!(center, RayEnd::Hit { steps: 1000, color: 2 });
    assert_eq!(projected_height(500, 1000, 100), 50);

    let mut fb = Framebuffer::new(64 + 40, 500, 0);
    render_frame(&mut fb, &map, &palette, &obs, &dirs, &cfg, WHITE);
    let column: Vec<u32> = (0..500).map(|y| fb.get_pixel(64 + 20, y)).collect();
    let painted = column.iter().filter(|&&p| p == 3).count();
    assert_eq!(painted, 50);
    assert_eq!(column[225], 3);
    assert_eq!(column[224], WHITE);
    assert_eq!(column[275], WHITE);

    for j in 0..40usize {
        let end = march_ray(&map, obs.ray(dirs[j].0, dirs[j].1), 100, 1100);
        let off = (j as i64 - 20).abs();
        if off >= 6 {
            assert!(matches!(end, RayEnd::Escaped { .. }), "column {}", j);
            assert!((0..500).all(|y| fb.get_pixel(64 + j, y) == WHITE), "column {}", j);
        } else if off <= 4 {
            assert!(matches!(end, RayEnd::Hit { color: 2, .. }), "column {}", j);
        }
    }
}

fn original_scene() -> (TileMap, Vec<u32>) {
    let map = "0000222222220000\
1              0\
1      1111111 0\
1     0        0\
0     0  1110000\
0     3        0\
0   10000      0\
0   0   11100  0\
0   0   0      0\
0   0   1  00000\
0       1      0\
2       1      0\
0       0      0\
0 0000000      0\
0              0\
0002222222200000";
    let rgb = |red, green, blue| pack_color(ColorChannel { red, green, blue, alpha: 0 });
    let palette = vec![rgb(0, 48, 73), rgb(214, 40, 40), rgb(247, 127, 0), rgb(252, 191, 73)];
    (TileMap::parse(&map.as_bytes().to_vec(), 16, 16, 4).unwrap(), palette)
}

fn original_config() -> RenderConfig {
    RenderConfig {
        cell_w: 16,
        cell_h: 16,
        steps_per_unit: 100,
        max_steps: 2000,
        cone_color: GREY,
        cone_on_hit: true,
        view: Viewport { x: 256, y: 0, w: 256, h: 256 },
    }
}

#[test]
fn every_wall_pixel_is_a_palette_color() {
    let (map, palette) = original_scene();
    let obs = Observer { x: fixed(3.456), y: fixed(2.345), angle: 1_523_000, fov: 1_047_198 };
    let cfg = original_config();
    let dirs = directions(&obs, 256);
    let mut fb = Framebuffer::new(512, 256, 0);
    render_frame(&mut fb, &map, &palette, &obs, &dirs, &cfg, WHITE);
    let mut walls = 0;
    for y in 0..256 {
        for x in 256..512 {
            let p = fb.get_pixel(x, y);
            if p != WHITE {
                assert_eq!(palette.iter().filter(|&&c| c == p).count(), 1);
                walls += 1;
            }
        }
        for x in 0..256 {
            let p = fb.get_pixel(x, y);
            assert!(p == WHITE || p == GREY || palette.contains(&p));
        }
    }
    assert!(walls > 0);
}

#[test]
fn a_new_frame_shows_nothing_of_the_last() {
    let (map, palette) = original_scene();
    let mut obs = Observer { x: fixed(3.456), y: fixed(2.345), angle: 1_523_000, fov: 1_047_198 };
    let cfg = original_config();
    let mut fb = Framebuffer::new(512, 256, 0);
    render_frame(&mut fb, &map, &palette, &obs, &directions(&obs, 256), &cfg, WHITE);
    obs.turn(17_453 * 90);
    let dirs = directions(&obs, 256);
    render_frame(&mut fb, &map, &palette, &obs, &dirs, &cfg, WHITE);
    let mut fresh = Framebuffer::new(512, 256, 0x1234_5678);
    render_frame(&mut fresh, &map, &palette, &obs, &dirs, &cfg, WHITE);
    assert_eq!(fb.pixels, fresh.pixels);
}
