use vstd::prelude::*;

use crate::framebuffer::{Framebuffer, rect_filled, in_rect};
use crate::tilemap::{Tile, TileMap, tile_fits};

verus! {

/// Whether pixel `(px, py)` of the top-down view falls in a cell of the map that
/// is painted: a wall cell among the first `n` cells in row-major order, with
/// cells of `cw × ch` pixels.
pub open spec fn painted_by(map: TileMap, cw: int, ch: int, px: int, py: int, n: int) -> bool {
    &&& cw > 0
    &&& ch > 0
    &&& px / cw < map.width
    &&& py / ch < map.height
    &&& px / cw + (py / ch) * map.width < n
    &&& map.tile(px / cw, py / ch) is Wall
}

/// The pixels of a `bw`-wide buffer after the first `n` cells of `map` are drawn
/// top-down: each pixel of a painted wall cell takes the cell's palette color, every
/// other pixel keeps its color.
pub open spec fn top_down_partial(
    pixels: Seq<u32>,
    bw: int,
    map: TileMap,
    palette: Seq<u32>,
    cw: int,
    ch: int,
    n: int,
) -> Seq<u32> {
    Seq::new(
        pixels.len(),
        |k: int|
            if painted_by(map, cw, ch, k % bw, k / bw, n) {
                palette[map.tile((k % bw) / cw, (k / bw) / ch)->Wall_0 as int]
            } else {
                pixels[k]
            },
    )
}

/// The pixels of a `bw`-wide buffer after the whole map is drawn top-down.
pub open spec fn top_down(
    pixels: Seq<u32>,
    bw: int,
    map: TileMap,
    palette: Seq<u32>,
    cw: int,
    ch: int,
) -> Seq<u32> {
    top_down_partial(pixels, bw, map, palette, cw, ch, map.width * map.height)
}

proof fn lemma_cell_of(p: int, c: int, i: int)
    requires
        p >= 0,
        c > 0,
        i >= 0,
    ensures
        (i * c <= p < i * c + c) == (p / c == i),
{
    vstd::arithmetic::div_mod::lemma_fundamental_div_mod(p, c);
    if i * c <= p < i * c + c {
        vstd::arithmetic::div_mod::lemma_fundamental_div_mod_converse(p, c, i, p - i * c);
    }
    if p / c == i {
        assert(i * c == c * (p / c)) by (nonlinear_arith)
            requires p / c == i;
    }
}

proof fn lemma_row_major(a: int, b: int, i: int, j: int, w: int)
    requires
        0 <= a < w,
        0 <= i < w,
        0 <= b,
        0 <= j,
    ensures
        (a + b * w < i + j * w + 1) == (a + b * w < i + j * w || (a == i && b == j)),
{
    if b < j {
        assert(a + b * w < i + j * w) by (nonlinear_arith)
            requires 0 <= a < w, 0 <= i, b < j;
    } else if b > j {
        assert(a + b * w > i + j * w) by (nonlinear_arith)
            requires 0 <= i < w, 0 <= a, b > j;
    }
}

/// Draws `map` top-down into `buf`: the wall cell `(i, j)` becomes the
/// `cell_w × cell_h` rectangle at pixel `(i * cell_w, j * cell_h)` in the color its
/// digit names in `palette`. Open cells, and pixels that no cell covers, keep
/// their color.
pub fn draw_top_down(
    buf: &mut Framebuffer,
    map: &TileMap,
    palette: &Vec<u32>,
    cell_w: usize,
    cell_h: usize,
)
    requires
        old(buf).wf(),
        map.wf(),
        map.fits_palette(palette.len() as nat),
    ensures
        final(buf).wf(),
        final(buf).width == old(buf).width,
        final(buf).height == old(buf).height,
        final(buf).pixels@ == top_down(
            old(buf).pixels@,
            old(buf).width as int,
            *map,
            palette@,
            cell_w as int,
            cell_h as int,
        ),
{
    let ghost start = buf.pixels@;
    let ghost bw = buf.width as int;
    let ghost mw = map.width as int;
    if cell_w == 0 || cell_h == 0 {
        assert(buf.pixels@ =~= top_down(start, bw, *map, palette@, cell_w as int, cell_h as int));
        return;
    }
    let mut j: usize = 0;
    while j < map.height
        invariant
            j <= map.height,
            cell_w > 0,
            cell_h > 0,
            buf.wf(),
            map.wf(),
            map.fits_palette(palette.len() as nat),
            buf.width == old(buf).width,
            buf.height == old(buf).height,
            start == old(buf).pixels@,
            bw == buf.width,
            mw == map.width,
            buf.pixels@ == top_down_partial(start, bw, *map, palette@, cell_w as int, cell_h as int, j * mw),
        decreases map.height - j,
    {
        let mut i: usize = 0;
        while i < map.width
            invariant
                i <= map.width,
                j < map.height,
                cell_w > 0,
                cell_h > 0,
                buf.wf(),
                map.wf(),
                map.fits_palette(palette.len() as nat),
                buf.width == old(buf).width,
                buf.height == old(buf).height,
                start == old(buf).pixels@,
                bw == buf.width,
                mw == map.width,
                buf.pixels@ == top_down_partial(start, bw, *map, palette@, cell_w as int, cell_h as int, i + j * mw),
            decreases map.width - i,
        {
            let ghost before = buf.pixels@;
            let ghost n = i + j * mw;
            let tile = map.tile_at(i, j);
            assert(i + j * mw < map.width * map.height) by (nonlinear_arith)
                requires i < map.width, j < map.height, mw == map.width;
            assert(i as int * cell_w as int <= u128::MAX && j as int * cell_h as int <= u128::MAX) by (nonlinear_arith)
                requires i <= u64::MAX, cell_w <= u64::MAX, j <= u64::MAX, cell_h <= u64::MAX;
            let x: u128 = i as u128 * cell_w as u128;
            let y: u128 = j as u128 * cell_h as u128;
            match tile {
                Tile::Wall(d) => {
                    proof {
                        assert(tile_fits(map.tiles@[i + j * mw], palette.len() as nat));
                    }
                    let color = palette[d as usize];
                    if x <= usize::MAX as u128 && y <= usize::MAX as u128 {
                        buf.fill_rect(x as usize, y as usize, cell_w, cell_h, color);
                    }
                    proof {
                        assert forall|k: int| 0 <= k < buf.pixels.len() implies #[trigger] buf.pixels@[k]
                            == top_down_partial(start, bw, *map, palette@, cell_w as int, cell_h as int, n + 1)[k] by {
                            let px = k % bw;
                            let py = k / bw;
                            vstd::arithmetic::div_mod::lemma_mod_pos_bound(k, bw);
                            vstd::arithmetic::div_mod::lemma_div_pos_is_pos(k, bw);
                            lemma_cell_of(px, cell_w as int, i as int);
                            lemma_cell_of(py, cell_h as int, j as int);
                            vstd::arithmetic::div_mod::lemma_div_pos_is_pos(px, cell_w as int);
                            vstd::arithmetic::div_mod::lemma_div_pos_is_pos(py, cell_h as int);
                            if px / (cell_w as int) < mw {
                                lemma_row_major(px / (cell_w as int), py / (cell_h as int), i as int, j as int, mw);
                            }
                            if !(x <= usize::MAX as u128 && y <= usize::MAX as u128) {
                                vstd::arithmetic::div_mod::lemma_fundamental_div_mod(k, bw);
                                assert(px < bw);
                                if py / (cell_h as int) == j && px / (cell_w as int) == i {
                                    assert(px >= x && py >= y);
                                    assert(bw * py <= k) by (nonlinear_arith)
                                        requires py >= 0, k == bw * py + px, px >= 0;
                                }
                            }
                        }
                        assert(buf.pixels@ =~= top_down_partial(start, bw, *map, palette@, cell_w as int, cell_h as int, n + 1));
                    }
                },
                Tile::Passable => {
                    proof {
                        assert forall|k: int| 0 <= k < buf.pixels.len() implies #[trigger] buf.pixels@[k]
                            == top_down_partial(start, bw, *map, palette@, cell_w as int, cell_h as int, n + 1)[k] by {
                            let px = k % bw;
                            let py = k / bw;
                            vstd::arithmetic::div_mod::lemma_mod_pos_bound(k, bw);
                            vstd::arithmetic::div_mod::lemma_div_pos_is_pos(k, bw);
                            vstd::arithmetic::div_mod::lemma_div_pos_is_pos(px, cell_w as int);
                            vstd::arithmetic::div_mod::lemma_div_pos_is_pos(py, cell_h as int);
                            if px / (cell_w as int) < mw {
                                lemma_row_major(px / (cell_w as int), py / (cell_h as int), i as int, j as int, mw);
                            }
                        }
                        assert(buf.pixels@ =~= top_down_partial(start, bw, *map, palette@, cell_w as int, cell_h as int, n + 1));
                    }
                },
            }
            i = i + 1;
        }
        assert((j + 1) * mw == map.width + j * mw) by (nonlinear_arith)
            requires mw == map.width;
        j = j + 1;
    }
    assert(j * mw == map.width * map.height) by (nonlinear_arith)
        requires j == map.height, mw == map.width;
}

} // verus!

verus! {

/// Drawing the map top-down never paints a pixel that falls in an open cell: such a
/// pixel keeps the color it had.
pub proof fn lemma_open_cells_keep_color(
    pixels: Seq<u32>,
    bw: int,
    map: TileMap,
    palette: Seq<u32>,
    cw: int,
    ch: int,
    k: int,
)
    requires
        0 <= k < pixels.len(),
        bw > 0,
        cw > 0,
        ch > 0,
        (k % bw) / cw < map.width,
        (k / bw) / ch < map.height,
        map.tile((k % bw) / cw, (k / bw) / ch) == Tile::Passable,
    ensures
        top_down(pixels, bw, map, palette, cw, ch)[k] == pixels[k],
{
}

} // verus!
