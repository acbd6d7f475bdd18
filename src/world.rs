//! The world map: a grid of cell codes with parallel grids of texture ids,
//! and the table of door openings.
//!
//! A cell code holds its kind in the low 4 bits (0 open, 1 wall, 2 door) and,
//! for a door, the index of its opening in bits 8 to 15.
use vstd::prelude::*;
use crate::tables::TILE;

verus! {

/// Number of doors a map can hold.
pub const MAX_DOORS: usize = 64;
/// Largest number of cells along a side of a map.
pub const MAX_SIDE: usize = 256;

/// A cell with this code stops rays and the player (a wall or a door).
pub open spec fn solid(c: u32) -> bool {
    c & 0xf != 0
}

/// A cell with this code is a door.
pub open spec fn door(c: u32) -> bool {
    c & 0x2 == 0x2
}

/// The index of a door's opening.
pub open spec fn door_index(c: u32) -> u32 {
    (c >> 8u32) & 0xff
}

pub fn is_solid(c: u32) -> (r: bool)
    ensures
        r == solid(c),
{
    c & 0xf != 0
}

pub fn is_door(c: u32) -> (r: bool)
    ensures
        r == door(c),
{
    c & 0x2 == 0x2
}

pub fn door_index_of(c: u32) -> (r: usize)
    ensures
        r == door_index(c),
{
    ((c >> 8u32) & 0xff) as usize
}

/// A rectangular grid of cells, row by row, with one wall, floor and ceiling
/// texture id per cell.
pub struct TileMap {
    pub width: usize,
    pub height: usize,
    pub cells: Vec<u32>,
    pub wall_img: Vec<u32>,
    pub floor_img: Vec<u32>,
    pub ceiling_img: Vec<u32>,
}

impl TileMap {
    /// The code of cell `(x, y)`.
    pub open spec fn code(&self, x: int, y: int) -> u32 {
        self.cells@[y * self.width + x]
    }

    pub open spec fn in_map(&self, x: int, y: int) -> bool {
        0 <= x < self.width && 0 <= y < self.height
    }

    pub open spec fn on_border(&self, x: int, y: int) -> bool {
        x == 0 || y == 0 || x == self.width - 1 || y == self.height - 1
    }

    /// The grids have the map's shape, the outer ring is solid, and every
    /// door's index fits the door table.
    pub open spec fn wf(&self) -> bool {
        &&& 1 <= self.width <= MAX_SIDE
        &&& 1 <= self.height <= MAX_SIDE
        &&& self.cells@.len() == self.width * self.height
        &&& self.wall_img@.len() == self.width * self.height
        &&& self.floor_img@.len() == self.width * self.height
        &&& self.ceiling_img@.len() == self.width * self.height
        &&& forall|x: int, y: int|
            self.in_map(x, y) && #[trigger] self.on_border(x, y) ==> solid(self.code(x, y))
        &&& forall|i: int|
            0 <= i < self.cells@.len() && door(#[trigger] self.cells@[i]) ==> door_index(
                self.cells@[i],
            ) < MAX_DOORS
    }

    /// Builds a map of `width` by `height` cells; `None` where a grid does
    /// not have that shape, a side is 0 or over `MAX_SIDE`, a border cell is
    /// open, or a door's index is not below `MAX_DOORS`.
    pub fn new(
        width: usize,
        height: usize,
        cells: Vec<u32>,
        wall_img: Vec<u32>,
        floor_img: Vec<u32>,
        ceiling_img: Vec<u32>,
    ) -> (r: Option<TileMap>)
        ensures
            r matches Some(m) ==> m.wf() && m.width == width && m.height == height && m.cells@
                == cells@ && m.wall_img@ == wall_img@ && m.floor_img@ == floor_img@
                && m.ceiling_img@ == ceiling_img@,
            r is None ==> !(TileMap { width, height, cells, wall_img, floor_img, ceiling_img }).wf(),
    {
        let ghost whole = TileMap { width, height, cells, wall_img, floor_img, ceiling_img };
        if width < 1 || width > MAX_SIDE || height < 1 || height > MAX_SIDE {
            return None;
        }
        proof {
            lemma_cell_index(width as int, height as int, 0, 0);
        }
        let n = width * height;
        if cells.len() != n || wall_img.len() != n || floor_img.len() != n || ceiling_img.len()
            != n {
            return None;
        }
        let mut i: usize = 0;
        while i < n
            invariant
                0 <= i <= n,
                n == width * height,
                cells@.len() == n,
                whole == (TileMap { width, height, cells, wall_img, floor_img, ceiling_img }),
                1 <= width <= MAX_SIDE,
                forall|j: int|
                    0 <= j < i && door(#[trigger] cells@[j]) ==> door_index(cells@[j]) < MAX_DOORS,
            decreases n - i,
        {
            if is_door(cells[i]) && door_index_of(cells[i]) >= MAX_DOORS {
                return None;
            }
            i = i + 1;
        }
        let mut y: usize = 0;
        while y < height
            invariant
                0 <= y <= height,
                n == width * height,
                cells@.len() == n,
                whole == (TileMap { width, height, cells, wall_img, floor_img, ceiling_img }),
                1 <= width <= MAX_SIDE,
                1 <= height <= MAX_SIDE,
                forall|a: int, b: int|
                    0 <= a < width && 0 <= b < y && (a == 0 || b == 0 || a == width - 1 || b
                        == height - 1) ==> #[trigger] solid(cells@[b * width + a]),
            decreases height - y,
        {
            let mut x: usize = 0;
            while x < width
                invariant
                    0 <= x <= width,
                    0 <= y < height,
                    n == width * height,
                    cells@.len() == n,
                    whole == (TileMap { width, height, cells, wall_img, floor_img, ceiling_img }),
                    1 <= width <= MAX_SIDE,
                    1 <= height <= MAX_SIDE,
                    forall|a: int, b: int|
                        0 <= a < width && 0 <= b < y && (a == 0 || b == 0 || a == width - 1 || b
                            == height - 1) ==> #[trigger] solid(cells@[b * width + a]),
                    forall|a: int|
                        0 <= a < x && (a == 0 || y == 0 || a == width - 1 || y == height - 1)
                            ==> #[trigger] solid(cells@[y * width + a]),
                decreases width - x,
            {
                assert(y * width + x < width * height) by (nonlinear_arith)
                    requires
                        x < width,
                        y < height,
                ;
                if (x == 0 || y == 0 || x == width - 1 || y == height - 1) && !is_solid(
                    cells[y * width + x],
                ) {
                    proof {
                        assert(whole.in_map(x as int, y as int) && whole.on_border(
                            x as int,
                            y as int,
                        ));
                        assert(!solid(whole.code(x as int, y as int)));
                        assert(!whole.wf());
                    }
                    return None;
                }
                x = x + 1;
            }
            y = y + 1;
        }
        Some(TileMap { width, height, cells, wall_img, floor_img, ceiling_img })
    }

    /// The code of cell `(x, y)`.
    pub fn code_at(&self, x: usize, y: usize) -> (r: u32)
        requires
            self.wf(),
            x < self.width,
            y < self.height,
        ensures
            r == self.code(x as int, y as int),
    {
        proof {
            lemma_cell_index(self.width as int, self.height as int, x as int, y as int);
        }
        self.cells[y * self.width + x]
    }

    /// The index of cell `(x, y)` in the grids.
    pub fn index_of(&self, x: usize, y: usize) -> (r: usize)
        requires
            self.wf(),
            x < self.width,
            y < self.height,
        ensures
            r == y * self.width + x,
            r < self.cells@.len(),
    {
        proof {
            lemma_cell_index(self.width as int, self.height as int, x as int, y as int);
        }
        y * self.width + x
    }
}

pub proof fn lemma_cell_index(w: int, h: int, x: int, y: int)
    requires
        0 <= x < w <= MAX_SIDE,
        0 <= y < h <= MAX_SIDE,
    ensures
        0 <= y * w + x < w * h <= MAX_SIDE * MAX_SIDE,
{
    assert(0 <= y * w + x < w * h) by (nonlinear_arith)
        requires
            0 <= x < w,
            0 <= y < h,
    ;
    assert(w * h <= MAX_SIDE * MAX_SIDE) by (nonlinear_arith)
        requires
            0 <= w <= MAX_SIDE,
            0 <= h <= MAX_SIDE,
    ;
}

/// The opening of each door, from 0 (closed) to `TILE` (open), and the way
/// the demonstration animation moves the first one.
pub struct Doors {
    pub positions: Vec<u8>,
    pub opening: bool,
}

impl Doors {
    pub open spec fn wf(&self) -> bool {
        &&& self.positions@.len() == MAX_DOORS
        &&& forall|i: int| 0 <= i < MAX_DOORS ==> #[trigger] self.positions@[i] <= TILE
    }

    /// All doors closed, the first about to open.
    pub fn new() -> (r: Doors)
        ensures
            r.wf(),
            r.opening,
            forall|i: int| 0 <= i < MAX_DOORS ==> #[trigger] r.positions@[i] == 0,
    {
        let mut positions: Vec<u8> = Vec::new();
        let mut i: usize = 0;
        while i < MAX_DOORS
            invariant
                0 <= i <= MAX_DOORS,
                positions@.len() == i,
                forall|j: int| 0 <= j < i ==> #[trigger] positions@[j] == 0,
            decreases MAX_DOORS - i,
        {
            positions.push(0);
            i = i + 1;
        }
        Doors { positions, opening: true }
    }

    /// Moves the first door one pixel toward open or closed, and turns
    /// around when it is fully open or closed.
    pub fn animate(&mut self)
        requires
            old(self).wf(),
        ensures
            final(self).wf(),
            forall|i: int|
                1 <= i < MAX_DOORS ==> #[trigger] final(self).positions@[i] == old(
                    self,
                ).positions@[i],
            ({
                let p = old(self).positions@[0];
                let q = if old(self).opening {
                    if p < TILE {
                        p + 1
                    } else {
                        p as int
                    }
                } else {
                    if p > 0 {
                        p - 1
                    } else {
                        p as int
                    }
                };
                &&& final(self).positions@[0] == q
                &&& final(self).opening == (if q == TILE {
                    false
                } else if q == 0 {
                    true
                } else {
                    old(self).opening
                })
            }),
    {
        let p = self.positions[0];
        let q: u8 = if self.opening {
            if (p as i64) < TILE {
                p + 1
            } else {
                p
            }
        } else {
            if p > 0 {
                p - 1
            } else {
                p
            }
        };
        self.positions.set(0, q);
        if q as i64 == TILE {
            self.opening = false;
        } else if q == 0 {
            self.opening = true;
        }
    }

    /// Sets the opening of door `index`, kept within 0 to `TILE`.
    pub fn set(&mut self, index: usize, position: u8)
        requires
            old(self).wf(),
            index < MAX_DOORS,
        ensures
            final(self).wf(),
            final(self).opening == old(self).opening,
            final(self).positions@ == old(self).positions@.update(
                index as int,
                if position as int > TILE {
                    TILE as u8
                } else {
                    position
                },
            ),
    {
        let v: u8 = if position as i64 > TILE {
            TILE as u8
        } else {
            position
        };
        self.positions.set(index, v);
    }
}

} // verus!
