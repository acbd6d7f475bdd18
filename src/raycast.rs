//! The search along one ray for the nearest wall or closed door, on the
//! horizontal grid lines (constant y) and on the vertical ones (constant x).
use vstd::prelude::*;
use crate::fixed::{FIX, BIG, tdiv, abs, div_trunc};
use crate::tables::{Tables, TILE, ANGLE90, ANGLE180, ANGLE270, ARCS};
use crate::world::{TileMap, Doors, MAX_SIDE, solid, door, door_index, is_solid, is_door, door_index_of};

verus! {

/// A tile side in fixed point.
pub const TILE_FIX: i64 = 4194304;

/// The distance reported for a ray that meets no wall.
pub const FAR: i64 = 0x7fff_ffff_ffff_ffff;

/// Bound on the coordinate along a ray while it is searched.
pub const ALONG_BOUND: i64 = 0x100_0000_0000;

/// Number of grid lines across the axis that a search steps over: rows for
/// horizontal lines, columns for vertical ones.
pub open spec fn lines(m: TileMap, vertical: bool) -> int {
    if vertical {
        m.width as int
    } else {
        m.height as int
    }
}

/// Number of cells along the axis that a search slides on.
pub open spec fn cells_along(m: TileMap, vertical: bool) -> int {
    if vertical {
        m.height as int
    } else {
        m.width as int
    }
}

/// The code of the cell at `along_idx` along the ray's axis and `grid_idx`
/// across it.
pub open spec fn code_on(m: TileMap, vertical: bool, along_idx: int, grid_idx: int) -> u32 {
    if vertical {
        m.code(grid_idx, along_idx)
    } else {
        m.code(along_idx, grid_idx)
    }
}

pub open spec fn march_measure(m: TileMap, vertical: bool, grid: int, dgrid: int) -> int {
    if dgrid > 0 {
        lines(m, vertical) * TILE - grid + TILE
    } else {
        grid + TILE + 1
    }
}

/// The first grid crossing on a ray that is blocked, starting from the
/// crossing at `along` (fixed point, along the axis the ray slides on) on the
/// grid line `grid` (pixels, `grid - 1` for a ray going toward smaller
/// coordinates), and stepping `step` along and `dgrid` across at each line.
/// A wall blocks at the crossing. A door blocks where the crossing plus half a
/// step, within the tile, is at or past its opening; it then reports the
/// crossing moved half a step, at the door's plane. `None` once the ray
/// leaves the map.
pub open spec fn march(
    m: TileMap,
    doors: Seq<u8>,
    vertical: bool,
    along: int,
    grid: int,
    step: int,
    dgrid: int,
) -> Option<(int, int, int)>
    decreases march_measure(m, vertical, grid, dgrid),
{
    if along < 0 || grid < 0 || along >= cells_along(m, vertical) * TILE_FIX || grid >= lines(
        m,
        vertical,
    ) * TILE || !(dgrid == TILE || dgrid == -TILE) {
        None
    } else {
        let c = code_on(m, vertical, along / (TILE_FIX as int), grid / (TILE as int));
        if solid(c) && !door(c) {
            Some((along, grid, along))
        } else if solid(c) && 2 * (along % (TILE_FIX as int)) + step >= 2 * (doors[door_index(
            c,
        ) as int] as int) * FIX {
            Some((along, grid, along + tdiv(step, 2)))
        } else {
            march(m, doors, vertical, along + step, grid + dgrid, step, dgrid)
        }
    }
}

proof fn lemma_div_below(a: int, n: int, d: int)
    requires
        0 <= a < n * d,
        d > 0,
    ensures
        0 <= a / d < n,
{
    assert(0 <= a / d < n) by (nonlinear_arith)
        requires
            0 <= a < n * d,
            d > 0,
    {
        vstd::arithmetic::div_mod::lemma_fundamental_div_mod(a, d);
        assert(a / d >= 0) by (nonlinear_arith)
            requires
                a >= 0,
                d > 0,
        ;
        if a / d >= n {
            assert(d * (a / d) >= d * n) by (nonlinear_arith)
                requires
                    a / d >= n,
                    d > 0,
            ;
        }
    }
}

/// The exact search of `march`.
pub fn march_exec(
    m: &TileMap,
    doors: &Doors,
    vertical: bool,
    along: i64,
    grid: i64,
    step: i64,
    dgrid: i64,
) -> (r: Option<(i64, i64, i64)>)
    requires
        m.wf(),
        doors.wf(),
        -ALONG_BOUND <= along <= ALONG_BOUND,
        -TILE - 1 <= grid <= (MAX_SIDE + 1) * TILE,
        -TILE * BIG <= step <= TILE * BIG,
        dgrid == TILE || dgrid == -TILE,
    ensures
        match r {
            None => march(*m, doors.positions@, vertical, along as int, grid as int, step as int, dgrid as int) is None,
            Some((a, g, h)) => march(*m, doors.positions@, vertical, along as int, grid as int, step as int, dgrid as int) == Some((a as int, g as int, h as int)),
        },
        r matches Some((a, g, h)) ==> 0 <= a <= ALONG_BOUND && -ALONG_BOUND - TILE * BIG <= h
            <= ALONG_BOUND + TILE * BIG,
{
    let n_along: i64 = if vertical {
        m.height as i64
    } else {
        m.width as i64
    };
    let n_lines: i64 = if vertical {
        m.width as i64
    } else {
        m.height as i64
    };
    let mut a = along;
    let mut g = grid;
    loop
        invariant
            m.wf(),
            doors.wf(),
            n_along == cells_along(*m, vertical),
            n_lines == lines(*m, vertical),
            -ALONG_BOUND <= a <= ALONG_BOUND,
            -TILE - 1 <= g <= (MAX_SIDE + 1) * TILE,
            -TILE * BIG <= step <= TILE * BIG,
            dgrid == TILE || dgrid == -TILE,
            march(*m, doors.positions@, vertical, a as int, g as int, step as int, dgrid as int)
                == march(*m, doors.positions@, vertical, along as int, grid as int, step as int, dgrid as int),
        decreases march_measure(*m, vertical, g as int, dgrid as int),
    {
        if a < 0 || g < 0 || a >= n_along * TILE_FIX || g >= n_lines * TILE {
            return None;
        }
        proof {
            lemma_div_below(a as int, n_along as int, TILE_FIX as int);
            lemma_div_below(g as int, n_lines as int, TILE as int);
        }
        let ai = (a / TILE_FIX) as usize;
        let gi = (g / TILE) as usize;
        let c = if vertical {
            m.code_at(gi, ai)
        } else {
            m.code_at(ai, gi)
        };
        let is_wall = is_solid(c);
        if is_wall && !is_door(c) {
            return Some((a, g, a));
        }
        if is_wall {
            let idx = door_index_of(c);
            proof {
                let i = if vertical {
                    ai as int * m.width + gi
                } else {
                    gi as int * m.width + ai
                };
                crate::world::lemma_cell_index(
                    m.width as int,
                    m.height as int,
                    if vertical { gi as int } else { ai as int },
                    if vertical { ai as int } else { gi as int },
                );
                assert(m.cells@[i] == c);
            }
            let pos = doors.positions[idx];
            if 2 * (a % TILE_FIX) + step >= 2 * (pos as i64) * FIX {
                let half = div_trunc(step as i128, 2) as i64;
                return Some((a, g, a + half));
            }
        }
        a = a + step;
        g = g + dgrid;
    }
}

/// The player stands within the map.
pub open spec fn inside(m: TileMap, px: int, py: int) -> bool {
    0 <= px < m.width * TILE && 0 <= py < m.height * TILE
}

/// The blocked crossing of a ray at `arc` with the horizontal grid lines;
/// `None` for a ray along the x axis.
pub open spec fn h_hit(m: TileMap, doors: Seq<u8>, t: Tables, px: int, py: int, arc: int) -> Option<
    (int, int, int),
> {
    if arc == 0 || arc == ANGLE180 {
        None
    } else if 0 < arc < ANGLE180 {
        let g = (py / (TILE as int)) * TILE + TILE;
        march(m, doors, false, px * FIX + t.itan@[arc] * (g - py), g, t.xstep@[arc] as int, TILE as int)
    } else {
        let g = (py / (TILE as int)) * TILE;
        march(m, doors, false, px * FIX + t.itan@[arc] * (g - py), g - 1, t.xstep@[arc] as int, -TILE)
    }
}

/// The blocked crossing of a ray at `arc` with the vertical grid lines;
/// `None` for a ray along the y axis.
pub open spec fn v_hit(m: TileMap, doors: Seq<u8>, t: Tables, px: int, py: int, arc: int) -> Option<
    (int, int, int),
> {
    if arc == ANGLE90 || arc == ANGLE270 {
        None
    } else if arc < ANGLE90 || arc > ANGLE270 {
        let g = (px / (TILE as int)) * TILE + TILE;
        march(m, doors, true, py * FIX + t.tan@[arc] * (g - px), g, t.ystep@[arc] as int, TILE as int)
    } else {
        let g = (px / (TILE as int)) * TILE;
        march(m, doors, true, py * FIX + t.tan@[arc] * (g - px), g - 1, t.ystep@[arc] as int, -TILE)
    }
}

/// The length of the ray to a blocked crossing, from the distance along its
/// axis and the reciprocal of the cosine (or sine) of its angle; `FAR` for
/// none.
pub open spec fn hit_distance(hit: Option<(int, int, int)>, p: int, inv: int) -> int {
    match hit {
        None => FAR as int,
        Some((_, _, h)) => tdiv((h - p * FIX) * inv, FIX as int),
    }
}

/// Where a ray stopped.
#[derive(Clone, Copy, Debug, PartialEq, Eq)]
pub struct RayHit {
    /// Length of the ray, fixed point.
    pub distance: i64,
    /// It stopped on a vertical grid line (constant x).
    pub vertical: bool,
    /// The crossing, fixed point, along the axis the ray slid on.
    pub along: i64,
    /// The grid line crossed, in pixels.
    pub grid: i64,
}

pub open spec fn first(h: Option<(int, int, int)>) -> int {
    match h {
        Some((a, _, _)) => a,
        None => 0,
    }
}

pub open spec fn second(h: Option<(int, int, int)>) -> int {
    match h {
        Some((_, g, _)) => g,
        None => 0,
    }
}

/// The nearer of the two blocked crossings of a ray, by ray length, the
/// horizontal one where they tie at `FAR`.
pub open spec fn nearest(m: TileMap, doors: Seq<u8>, t: Tables, px: int, py: int, arc: int) -> Option<RayHit> {
    let h = h_hit(m, doors, t, px, py, arc);
    let v = v_hit(m, doors, t, px, py, arc);
    let hd = hit_distance(h, px, t.icos@[arc] as int);
    let vd = hit_distance(v, py, t.isin@[arc] as int);
    if h is None && v is None {
        None
    } else if hd < vd {
        Some(RayHit { distance: hd as i64, vertical: false, along: first(h) as i64, grid: second(h) as i64 })
    } else {
        Some(RayHit { distance: vd as i64, vertical: true, along: first(v) as i64, grid: second(v) as i64 })
    }
}

proof fn lemma_start_bounds(p: int, q: int, k: int)
    requires
        0 <= p < MAX_SIDE * TILE,
        -BIG <= k <= BIG,
    ensures
        0 <= (p / (TILE as int)) * TILE <= p,
        p < (p / (TILE as int)) * TILE + TILE,
        -TILE * BIG <= k * ((p / (TILE as int)) * TILE - p) <= TILE * BIG,
        -TILE * BIG <= k * ((p / (TILE as int)) * TILE + TILE - p) <= TILE * BIG,
{
    let g = (p / (TILE as int)) * TILE;
    vstd::arithmetic::div_mod::lemma_fundamental_div_mod(p, TILE as int);
    assert(0 <= p / (TILE as int)) by (nonlinear_arith)
        requires
            p >= 0,
    ;
    assert(0 <= g);
    assert(-TILE * BIG <= k * (g - p) <= TILE * BIG) by (nonlinear_arith)
        requires
            -TILE <= g - p <= 0,
            -BIG <= k <= BIG,
    ;
    assert(-TILE * BIG <= k * (g + TILE - p) <= TILE * BIG) by (nonlinear_arith)
        requires
            0 <= g + TILE - p <= TILE,
            -BIG <= k <= BIG,
    ;
}

fn distance_of(hit: i64, p: i64, inv: i64) -> (r: i64)
    requires
        -ALONG_BOUND - TILE * BIG <= hit <= ALONG_BOUND + TILE * BIG,
        0 <= p < MAX_SIDE * TILE,
        -BIG <= inv <= BIG,
    ensures
        r == tdiv((hit - p * FIX) * inv, FIX as int),
        -0x800_0000_0000_0000 < r < 0x800_0000_0000_0000,
{
    let d: i128 = (hit as i128) - (p as i128) * (FIX as i128);
    assert(-0x400_0000_0000_0000_0000 <= d * inv <= 0x400_0000_0000_0000_0000) by (nonlinear_arith)
        requires
            -0x400_0000_0000 <= d <= 0x400_0000_0000,
            -BIG <= inv <= BIG,
    ;
    let r = div_trunc(d * (inv as i128), FIX as i128);
    assert(abs(r as int) < 0x800_0000_0000_0000) by (nonlinear_arith)
        requires
            abs(r as int) * FIX <= abs(d * inv),
            abs(d * inv) <= 0x400_0000_0000_0000_0000,
    ;
    r as i64
}

/// Casts the ray at `arc` from the player at `(px, py)`, in pixels, and
/// returns where it stopped: the nearer of its blocked crossings with the
/// horizontal and the vertical grid lines, or `None` where it leaves the map
/// on both.
pub fn cast_ray(m: &TileMap, doors: &Doors, t: &Tables, px: i64, py: i64, arc: i64) -> (r: Option<RayHit>)
    requires
        m.wf(),
        doors.wf(),
        t.wf(),
        inside(*m, px as int, py as int),
        0 <= arc < ARCS,
    ensures
        r == nearest(*m, doors.positions@, *t, px as int, py as int, arc as int),
        r matches Some(h) ==> -0x800_0000_0000_0000 < h.distance < 0x800_0000_0000_0000,
{
    let ai = arc as usize;
    proof {
        assert(-FIX <= t.sin@[arc as int] <= FIX);
        lemma_start_bounds(py as int, px as int, t.itan@[arc as int] as int);
        lemma_start_bounds(px as int, py as int, t.tan@[arc as int] as int);
        assert(m.width * TILE <= MAX_SIDE * TILE);
        assert(m.height * TILE <= MAX_SIDE * TILE);
    }
    let h = if arc == 0 || arc == ANGLE180 {
        None
    } else if 0 < arc && arc < ANGLE180 {
        let g = (py / TILE) * TILE + TILE;
        march_exec(m, doors, false, px * FIX + t.itan[ai] * (g - py), g, t.xstep[ai], TILE)
    } else {
        let g = (py / TILE) * TILE;
        march_exec(m, doors, false, px * FIX + t.itan[ai] * (g - py), g - 1, t.xstep[ai], -TILE)
    };
    let v = if arc == ANGLE90 || arc == ANGLE270 {
        None
    } else if arc < ANGLE90 || arc > ANGLE270 {
        let g = (px / TILE) * TILE + TILE;
        march_exec(m, doors, true, py * FIX + t.tan[ai] * (g - px), g, t.ystep[ai], TILE)
    } else {
        let g = (px / TILE) * TILE;
        march_exec(m, doors, true, py * FIX + t.tan[ai] * (g - px), g - 1, t.ystep[ai], -TILE)
    };
    let hd = match h {
        None => FAR,
        Some((_, _, x)) => distance_of(x, px, t.icos[ai]),
    };
    let vd = match v {
        None => FAR,
        Some((_, _, y)) => distance_of(y, py, t.isin[ai]),
    };
    match (h, v) {
        (None, None) => None,
        _ => {
            if hd < vd {
                let (a, g, _) = h.unwrap();
                Some(RayHit { distance: hd, vertical: false, along: a, grid: g })
            } else {
                let (a, g, _) = v.unwrap();
                Some(RayHit { distance: vd, vertical: true, along: a, grid: g })
            }
        }
    }
}

/// A closed door stops a ray that meets it going toward larger coordinates
/// along the ray's axis, at the door's plane half a step on; a fully open
/// door lets through a ray whose crossing plus half a step stays within the
/// door's tile, and the search goes on to the next grid line.
pub proof fn lemma_door_occlusion(
    m: TileMap,
    doors: Seq<u8>,
    vertical: bool,
    along: int,
    grid: int,
    step: int,
    dgrid: int,
)
    requires
        0 <= along < cells_along(m, vertical) * TILE_FIX,
        0 <= grid < lines(m, vertical) * TILE,
        dgrid == TILE || dgrid == -TILE,
        door(code_on(m, vertical, along / (TILE_FIX as int), grid / (TILE as int))),
    ensures
        ({
            let c = code_on(m, vertical, along / (TILE_FIX as int), grid / (TILE as int));
            let k = door_index(c) as int;
            &&& doors[k] == 0 && step >= 0 ==> march(m, doors, vertical, along, grid, step, dgrid)
                == Some((along, grid, along + tdiv(step, 2)))
            &&& doors[k] == TILE && 2 * (along % (TILE_FIX as int)) + step < 2 * TILE * FIX ==> march(
                m,
                doors,
                vertical,
                along,
                grid,
                step,
                dgrid,
            ) == march(m, doors, vertical, along + step, grid + dgrid, step, dgrid)
        }),
{
    let c = code_on(m, vertical, along / (TILE_FIX as int), grid / (TILE as int));
    assert(solid(c)) by {
        assert(c & 0x2 == 0x2 ==> c & 0xf != 0) by (bit_vector);
    }
}

/// A ray along the x axis never crosses a horizontal grid line, and one
/// along the y axis never crosses a vertical one: their searches report the
/// distance `FAR`.
pub proof fn lemma_axis_rays(m: TileMap, doors: Seq<u8>, t: Tables, px: int, py: int, arc: int)
    ensures
        arc == 0 || arc == ANGLE180 ==> hit_distance(h_hit(m, doors, t, px, py, arc), px, t.icos@[arc] as int) == FAR,
        arc == ANGLE90 || arc == ANGLE270 ==> hit_distance(v_hit(m, doors, t, px, py, arc), py, t.isin@[arc] as int) == FAR,
{
}

} // verus!
