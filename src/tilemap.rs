use vstd::prelude::*;

verus! {

/// One cell of the map: open floor, or a wall drawn in a palette color.
#[derive(Clone, Copy, Debug, PartialEq, Eq, Structural)]
pub enum Tile {
    Passable,
    Wall(u8),
}

/// Why a string of tile codes does not make a map.
#[derive(Clone, Copy, Debug, PartialEq, Eq, Structural)]
pub enum MapError {
    /// The string does not hold exactly one code per cell.
    WrongLength,
    /// The code at `index` is neither a space nor a decimal digit.
    UnknownCode { index: usize },
    /// The digit at `index` has no entry in the palette.
    MissingColor { index: usize },
}

pub const SPACE: u8 = 32;

pub const DIGIT_ZERO: u8 = 48;

pub const DIGIT_NINE: u8 = 57;

/// The tile a code stands for: a space is passable, a digit is a wall of the
/// palette color it names.
pub open spec fn tile_of_code(c: u8) -> Option<Tile> {
    if c == SPACE {
        Some(Tile::Passable)
    } else if DIGIT_ZERO <= c <= DIGIT_NINE {
        Some(Tile::Wall((c - DIGIT_ZERO) as u8))
    } else {
        None
    }
}

/// Whether `t` can be drawn with a palette of `palette_len` colors.
pub open spec fn tile_fits(t: Tile, palette_len: nat) -> bool {
    match t {
        Tile::Passable => true,
        Tile::Wall(i) => i < palette_len,
    }
}

/// Whether code `c` stands for a tile that a palette of `palette_len` colors can draw.
pub open spec fn code_ok(c: u8, palette_len: nat) -> bool {
    tile_of_code(c) is Some && tile_fits(tile_of_code(c).unwrap(), palette_len)
}

/// A `width × height` grid of tiles, row-major; cell `(x, y)` is `tiles[x + y * width]`.
#[derive(Debug)]
pub struct TileMap {
    pub width: usize,
    pub height: usize,
    pub tiles: Vec<Tile>,
}

impl Tile {
    /// Whether the tile blocks a ray.
    pub fn is_wall(&self) -> (r: bool)
        ensures
            r == (*self is Wall),
    {
        match self {
            Tile::Passable => false,
            Tile::Wall(_) => true,
        }
    }

    /// The palette index of a wall.
    pub fn color_index(&self) -> (r: usize)
        requires
            *self is Wall,
        ensures
            r == self->Wall_0,
    {
        match self {
            Tile::Wall(i) => *i as usize,
            Tile::Passable => 0,
        }
    }
}

impl TileMap {
    /// One tile per cell.
    pub open spec fn wf(&self) -> bool {
        self.tiles.len() == self.width as int * self.height as int
    }

    /// The tile of cell `(x, y)`.
    pub open spec fn tile(&self, x: int, y: int) -> Tile {
        self.tiles@[x + y * self.width]
    }

    /// Every wall of the map has a color in a palette of `palette_len` colors.
    pub open spec fn fits_palette(&self, palette_len: nat) -> bool {
        forall|k: int| 0 <= k < self.tiles.len() ==> tile_fits(#[trigger] self.tiles@[k], palette_len)
    }

    /// Reads a `width × height` map from its codes, one per cell, rows concatenated:
    /// a space is open floor, a digit a wall of that palette color. Fails on a
    /// string of another length, and else at the first code that is neither a
    /// space nor a digit with an entry in a palette of `palette_len` colors.
    pub fn parse(codes: &Vec<u8>, width: usize, height: usize, palette_len: usize) -> (r: Result<
        TileMap,
        MapError,
    >)
        ensures
            (codes.len() != width as int * height as int) <==> r == Err::<TileMap, MapError>(
                MapError::WrongLength,
            ),
            r matches Ok(m) ==> {
                &&& m.wf()
                &&& m.width == width
                &&& m.height == height
                &&& m.fits_palette(palette_len as nat)
                &&& m.tiles@ == codes@.map_values(|c: u8| tile_of_code(c).unwrap())
            },
            r is Ok <==> (codes.len() == width as int * height as int && forall|k: int|
                0 <= k < codes.len() ==> code_ok(#[trigger] codes@[k], palette_len as nat)),
            r matches Err(MapError::UnknownCode { index }) ==> {
                &&& index < codes.len()
                &&& tile_of_code(codes@[index as int]) is None
                &&& forall|k: int| 0 <= k < index ==> code_ok(#[trigger] codes@[k], palette_len as nat)
            },
            r matches Err(MapError::MissingColor { index }) ==> {
                &&& index < codes.len()
                &&& tile_of_code(codes@[index as int]) is Some
                &&& !code_ok(codes@[index as int], palette_len as nat)
                &&& forall|k: int| 0 <= k < index ==> code_ok(#[trigger] codes@[k], palette_len as nat)
            },
    {
        assert(width as int * height as int <= u128::MAX) by (nonlinear_arith)
            requires width <= usize::MAX, height <= usize::MAX, usize::MAX <= u64::MAX;
        if codes.len() as u128 != width as u128 * height as u128 {
            return Err(MapError::WrongLength);
        }
        let mut tiles: Vec<Tile> = Vec::new();
        let mut k: usize = 0;
        while k < codes.len()
            invariant
                k <= codes.len(),
                codes.len() == width as int * height as int,
                tiles.len() == k,
                forall|i: int| 0 <= i < k ==> code_ok(#[trigger] codes@[i], palette_len as nat),
                forall|i: int| 0 <= i < k ==> #[trigger] tiles@[i] == tile_of_code(codes@[i]).unwrap(),
            decreases codes.len() - k,
        {
            let c = codes[k];
            let t = if c == SPACE {
                Tile::Passable
            } else if DIGIT_ZERO <= c && c <= DIGIT_NINE {
                let d = c - DIGIT_ZERO;
                if d as usize >= palette_len {
                    return Err(MapError::MissingColor { index: k });
                }
                Tile::Wall(d)
            } else {
                return Err(MapError::UnknownCode { index: k });
            };
            tiles.push(t);
            k = k + 1;
        }
        let m = TileMap { width, height, tiles };
        assert(m.tiles@ =~= codes@.map_values(|c: u8| tile_of_code(c).unwrap()));
        assert(m.fits_palette(palette_len as nat)) by {
            assert forall|i: int| 0 <= i < m.tiles.len() implies tile_fits(#[trigger] m.tiles@[i], palette_len as nat) by {
                assert(code_ok(codes@[i], palette_len as nat));
            }
        }
        Ok(m)
    }

    /// The tile of cell `(x, y)`.
    pub fn tile_at(&self, x: usize, y: usize) -> (r: Tile)
        requires
            self.wf(),
            x < self.width,
            y < self.height,
        ensures
            r == self.tile(x as int, y as int),
    {
        assert(x + y * self.width < self.width * self.height) by (nonlinear_arith)
            requires x < self.width, y < self.height;
        self.tiles[x + y * self.width]
    }
}

} // verus!
