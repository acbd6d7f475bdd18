//! One frame of the view: for each screen column, the ray's wall slice,
//! the floor below it and the ceiling above it, and the perpendicular
//! distance recorded for the column.
use vstd::prelude::*;
use std::collections::HashMap;
use crate::fixed::{FIX, BIG, tdiv, abs, div_trunc, div_floor};
use crate::tables::{Tables, TILE, WALL_HEIGHT, PLANE_WIDTH, PLANE_HEIGHT, DIST_TO_PLANE, ANGLE30, ANGLE360, ARCS};
use crate::world::{TileMap, Doors, MAX_SIDE};
use crate::raycast::{FAR, TILE_FIX, RayHit, cast_ray, nearest};
use crate::movement::{Player, player_ok};
use crate::canvas::{Canvas, MAX_CANVAS_SIDE, line_of, slice_byte, slice_rows};
use crate::texture::Texture;

verus! {

/// Light of a wall slice met on a vertical grid line, over its distance.
pub const LIGHT_VERTICAL: i64 = 180;
/// Light of a wall slice met on a horizontal grid line, over its distance.
pub const LIGHT_HORIZONTAL: i64 = 130;
/// Light of the floor, over its distance.
pub const LIGHT_FLOOR: i64 = 150;
/// Light of the ceiling, over its distance.
pub const LIGHT_CEILING: i64 = 100;
/// Side of a map cell on the overhead map, in pixels.
pub const MINIMAP_CELL: i64 = 5;

/// The arc of the ray cast for screen column `column`: the leftmost ray is
/// 30 degrees left of the heading, and each column adds one arc unit.
pub open spec fn column_arc(heading: int, column: int) -> int {
    (heading - ANGLE30 + column) % (ANGLE360 as int)
}

/// The perpendicular distance for a column: the ray's length over the
/// fisheye factor of the column, `FAR` where the ray meets no wall.
pub open spec fn column_distance(
    m: TileMap,
    doors: Seq<u8>,
    t: Tables,
    px: int,
    py: int,
    arc: int,
    column: int,
) -> int {
    match nearest(m, doors, t, px, py, arc) {
        None => FAR as int,
        Some(h) => tdiv(h.distance * FIX, t.fish@[column] as int),
    }
}

/// The rows of the bottom and the top of a wall slice at perpendicular
/// distance `dist` (fixed point): the bottom is the eye height projected
/// below the view centre, the top is the wall height above the bottom.
pub open spec fn wall_rows(dist: int, eye: int, ycenter: int) -> (int, int) {
    let bottom = tdiv(DIST_TO_PLANE * eye * FIX, dist) + ycenter;
    let top = bottom - tdiv(DIST_TO_PLANE * WALL_HEIGHT * FIX, dist);
    (bottom, top)
}

pub fn wall_rows_exec(dist: i64, eye: i64, ycenter: i64) -> (r: (i64, i64))
    requires
        1 <= dist,
        -5 <= eye <= WALL_HEIGHT,
        -PLANE_HEIGHT <= ycenter <= 2 * PLANE_HEIGHT,
    ensures
        r.0 == wall_rows(dist as int, eye as int, ycenter as int).0,
        r.1 == wall_rows(dist as int, eye as int, ycenter as int).1,
        -0x8000_0000 <= r.0 <= 0x8000_0000,
        -0x8000_0000 <= r.1 <= 0x8000_0000,
        0 <= r.0 - r.1 <= DIST_TO_PLANE * WALL_HEIGHT * FIX,
{
    let b = div_trunc((DIST_TO_PLANE * eye * FIX) as i128, dist as i128);
    let h = div_trunc((DIST_TO_PLANE * WALL_HEIGHT * FIX) as i128, dist as i128);
    assert(tdiv(DIST_TO_PLANE * WALL_HEIGHT * FIX, dist as int) >= 0);
    let bottom = b as i64 + ycenter;
    (bottom, bottom - h as i64)
}

/// The floor (or ceiling) point seen along the ray at `arc` at distance
/// `d` (fixed point) from the player, in pixels, rounded down.
pub open spec fn ground_point(t: Tables, px: int, py: int, arc: int, d: int) -> (int, int) {
    (
        (d * t.cos@[arc]) / (FIX * FIX) + px,
        (d * t.sin@[arc]) / (FIX * FIX) + py,
    )
}

fn ground_point_exec(t: &Tables, px: i64, py: i64, arc: usize, d: i64) -> (r: (i64, i64))
    requires
        t.wf(),
        arc < ARCS,
        0 <= px < MAX_SIDE * TILE,
        0 <= py < MAX_SIDE * TILE,
        0 <= d <= 0x1_0000_0000_0000,
    ensures
        r.0 == ground_point(*t, px as int, py as int, arc as int, d as int).0,
        r.1 == ground_point(*t, px as int, py as int, arc as int, d as int).1,
{
    proof {
        assert(-FIX <= t.sin@[arc as int] <= FIX);
    }
    assert(-0x1_0000_0000_0000 * FIX <= (d as int) * t.cos@[arc as int]
        <= 0x1_0000_0000_0000 * FIX) by (nonlinear_arith)
        requires
            0 <= d <= 0x1_0000_0000_0000,
            -FIX <= t.cos@[arc as int] <= FIX,
    ;
    assert(-0x1_0000_0000_0000 * FIX <= (d as int) * t.sin@[arc as int]
        <= 0x1_0000_0000_0000 * FIX) by (nonlinear_arith)
        requires
            0 <= d <= 0x1_0000_0000_0000,
            -FIX <= t.sin@[arc as int] <= FIX,
    ;
    let gx = div_floor((d as i128) * (t.cos[arc] as i128), (FIX as i128) * (FIX as i128));
    let gy = div_floor((d as i128) * (t.sin[arc] as i128), (FIX as i128) * (FIX as i128));
    assert(abs(gx as int) <= 0x1_0000_0000_0000) by (nonlinear_arith)
        requires
            gx == ((d as int) * t.cos@[arc as int]) / (FIX * FIX),
            -0x1_0000_0000_0000 * FIX <= (d as int) * t.cos@[arc as int] <= 0x1_0000_0000_0000 * FIX,
    {
        vstd::arithmetic::div_mod::lemma_fundamental_div_mod((d as int) * t.cos@[arc as int], FIX * FIX);
    }
    assert(abs(gy as int) <= 0x1_0000_0000_0000) by (nonlinear_arith)
        requires
            gy == ((d as int) * t.sin@[arc as int]) / (FIX * FIX),
            -0x1_0000_0000_0000 * FIX <= (d as int) * t.sin@[arc as int] <= 0x1_0000_0000_0000 * FIX,
    {
        vstd::arithmetic::div_mod::lemma_fundamental_div_mod((d as int) * t.sin@[arc as int], FIX * FIX);
    }
    (gx as i64 + px, gy as i64 + py)
}

/// The texel of `tex` at `(col, row)`, as the byte index of its first
/// channel, where all four of its bytes are in the texture.
fn texel(tex: &Texture, col: i64, row: i64) -> (r: Option<usize>)
    requires
        0 <= col < TILE,
        0 <= row < TILE,
    ensures
        r matches Some(i) ==> i + 4 <= tex.data@.len() && i == (row * tex.width + col) * 4,
        r is None ==> (row * tex.width + col) * 4 + 4 > tex.data@.len(),
{
    assert((row as u64) * (tex.width as u64) <= 0x40_0000_0000) by (nonlinear_arith)
        requires
            0 <= row < TILE,
            tex.width <= 0xffff_ffff,
    ;
    let i: u64 = ((row as u64) * (tex.width as u64) + col as u64) * 4;
    if i + 4 <= tex.data.len() as u64 {
        Some(i as usize)
    } else {
        None
    }
}

/// The map cell under the pixel `(gx, gy)`, where it is in the map.
fn cell_under(m: &TileMap, gx: i64, gy: i64) -> (r: Option<usize>)
    requires
        m.wf(),
    ensures
        r matches Some(i) ==> gx >= 0 && gy >= 0 && gx / TILE < m.width && gy / TILE < m.height
            && i == (gy / TILE) * m.width + gx / TILE && i < m.cells@.len(),
        r is None ==> !(gx >= 0 && gy >= 0 && gx / TILE < m.width && gy / TILE < m.height),
{
    if gx < 0 || gy < 0 || gx / TILE >= m.width as i64 || gy / TILE >= m.height as i64 {
        None
    } else {
        Some(m.index_of((gx / TILE) as usize, (gy / TILE) as usize))
    }
}

/// A pixel written at `target`, in row `row` and column `column`, leaves
/// every byte of other rows or columns as it was.
proof fn lemma_column_write(before: Canvas, after: Canvas, orig: Canvas, target: int, w: int, column: int, row: int)
    requires
        before.same_shape(&orig),
        after.same_shape(&orig),
        orig.width == w,
        w >= 1,
        0 <= column < w,
        target == 4 * (w * row + column),
        target > 0,
        forall|k: int|
            0 <= k < after.pixels@.len() && !(target <= k < target + 4) ==> #[trigger] after.pixels@[k]
                == before.pixels@[k],
    ensures
        forall|k: int|
            0 <= k < after.pixels@.len() && (orig.column_of(k) != column || orig.row_of(k) != row)
                ==> #[trigger] after.pixels@[k] == before.pixels@[k],
{
    assert(row >= 0) by (nonlinear_arith)
        requires
            target == 4 * (w * row + column),
            target > 0,
            0 <= column < w,
    ;
    assert forall|k: int|
        0 <= k < after.pixels@.len() && (orig.column_of(k) != column || orig.row_of(k) != row)
            implies #[trigger] after.pixels@[k] == before.pixels@[k] by {
        if target <= k < target + 4 {
            crate::canvas::lemma_pixel_bytes(w, column, row, k - target);
            assert(k == 4 * (row * w + column) + (k - target)) by (nonlinear_arith)
                requires
                    target == 4 * (w * row + column),
            ;
        }
    }
}

/// The first screen row the floor is cast from, below a wall slice whose
/// bottom is at row `bottom`: rows at or above the view centre see no floor.
pub open spec fn floor_start(bottom: int, ycenter: int) -> int {
    if bottom > ycenter {
        bottom
    } else {
        ycenter + 1
    }
}

/// The distance, fixed point, of the floor seen through screen row `row`
/// of column `column`: the eye height projected through the row, corrected
/// for the fisheye.
pub open spec fn floor_dist(t: Tables, p: Player, column: int, row: int) -> int {
    tdiv(p.height * DIST_TO_PLANE * t.fish@[column], row - p.ycenter)
}

/// The floor point seen through screen row `row`, in pixels.
pub open spec fn floor_point(t: Tables, p: Player, arc: int, column: int, row: int) -> (int, int) {
    ground_point(t, p.x as int, p.y as int, arc, floor_dist(t, p, column, row))
}

/// Screen row `row` sees the floor of a cell of the map.
pub open spec fn floor_hit(m: TileMap, t: Tables, p: Player, arc: int, column: int, row: int) -> bool {
    let g = floor_point(t, p, arc, column, row);
    floor_dist(t, p, column, row) >= FIX && g.0 >= 0 && g.1 >= 0 && g.0 / (TILE as int) < m.width
        && g.1 / (TILE as int) < m.height
}

/// How many screen rows from `start` up to `row` see the floor of the map:
/// the drawn floor moves one pixel down for each of them.
pub open spec fn floor_rows_before(
    m: TileMap,
    t: Tables,
    p: Player,
    arc: int,
    column: int,
    start: int,
    row: int,
) -> int
    decreases row - start,
{
    if row <= start {
        0
    } else {
        floor_rows_before(m, t, p, arc, column, start, row - 1) + if floor_hit(m, t, p, arc, column, row - 1) {
            1int
        } else {
            0int
        }
    }
}

/// The byte offset where screen row `row`'s floor pixel is drawn.
pub open spec fn floor_target(
    w: int,
    m: TileMap,
    t: Tables,
    p: Player,
    arc: int,
    column: int,
    start: int,
    row: int,
) -> int {
    4 * (w * (start + floor_rows_before(m, t, p, arc, column, start, row)) + column)
}

/// The bytes of the floor pixel of screen row `row`: the texel under the
/// floor point in its cell's floor texture, dimmed with distance; `None`
/// where that texture is not loaded or too small.
pub open spec fn floor_color(
    tex: Map<u32, Texture>,
    order: crate::color::ChannelOrder,
    m: TileMap,
    t: Tables,
    p: Player,
    arc: int,
    column: int,
    row: int,
) -> Option<Seq<u8>> {
    let d = floor_dist(t, p, column, row);
    let g = floor_point(t, p, arc, column, row);
    let tid = m.floor_img@[(g.1 / (TILE as int)) * m.width + g.0 / (TILE as int)];
    if tex.contains_key(tid) {
        let tx = tex[tid];
        let si = ((g.1 % (TILE as int)) * tx.width + g.0 % (TILE as int)) * 4;
        if si + 4 <= tx.data@.len() {
            Some(
                crate::color::pixel_bytes(
                    order,
                    tx.data@[si + 3],
                    crate::color::shaded(tx.data@[si], LIGHT_FLOOR as int, d / (FIX as int)) as u8,
                    crate::color::shaded(tx.data@[si + 1], LIGHT_FLOOR as int, d / (FIX as int)) as u8,
                    crate::color::shaded(tx.data@[si + 2], LIGHT_FLOOR as int, d / (FIX as int)) as u8,
                ),
            )
        } else {
            None
        }
    } else {
        None
    }
}

proof fn lemma_floor_rows_nonneg(
    m: TileMap,
    t: Tables,
    p: Player,
    arc: int,
    column: int,
    start: int,
    row: int,
)
    ensures
        floor_rows_before(m, t, p, arc, column, start, row) >= 0,
    decreases row - start,
{
    if row > start {
        lemma_floor_rows_nonneg(m, t, p, arc, column, start, row - 1);
    }
}

proof fn lemma_floor_rows_grow(
    m: TileMap,
    t: Tables,
    p: Player,
    arc: int,
    column: int,
    start: int,
    r: int,
    n: int,
)
    requires
        start <= r < n,
    ensures
        floor_rows_before(m, t, p, arc, column, start, n) >= floor_rows_before(m, t, p, arc, column, start, r)
            + if floor_hit(m, t, p, arc, column, r) {
            1int
        } else {
            0int
        },
    decreases n - r,
{
    if n > r + 1 {
        lemma_floor_rows_grow(m, t, p, arc, column, start, r, n - 1);
    }
}

/// Casts the floor of column `column` below the row `bottom`: for each row
/// below the view centre, the floor point at the distance that the eye
/// height projects to through the row, textured from its cell's floor
/// texture and dimmed with distance. Rows whose point is off the map are
/// skipped and do not move the target pixel down.
#[verifier::rlimit(60)]
pub fn draw_floor(
    canvas: &mut Canvas,
    textures: &HashMap<u32, Texture>,
    m: &TileMap,
    t: &Tables,
    p: &Player,
    column: i64,
    arc: usize,
    bottom: i64,
)
    requires
        old(canvas).wf(),
        old(canvas).width >= PLANE_WIDTH,
        m.wf(),
        t.wf(),
        player_ok(*m, *p),
        0 <= column < PLANE_WIDTH,
        arc < ARCS,
        -0x8000_0000 <= bottom <= 0x8000_0000,
    ensures
        final(canvas).wf(),
        final(canvas).same_shape(old(canvas)),
        final(canvas).same_outside_column(old(canvas), column as int),
        forall|k: int|
            0 <= k < final(canvas).pixels@.len() && old(canvas).row_of(k) < bottom ==> #[trigger] final(canvas).pixels@[k] == old(canvas).pixels@[k],
        forall|row: int, j: int|
            floor_start(bottom as int, p.ycenter as int) <= row < PLANE_HEIGHT && floor_hit(*m, *t, *p, arc as int, column as int, row)
                && 0 <= j < 4 && 0 < floor_target(old(canvas).width as int, *m, *t, *p, arc as int, column as int, floor_start(bottom as int, p.ycenter as int), row)
                && floor_target(old(canvas).width as int, *m, *t, *p, arc as int, column as int, floor_start(bottom as int, p.ycenter as int), row) + 4
                <= old(canvas).pixels@.len() ==> #[trigger] final(canvas).pixels@[floor_target(old(canvas).width as int, *m, *t, *p, arc as int, column as int, floor_start(bottom as int, p.ycenter as int), row) + j]
                == match floor_color(textures@, old(canvas).order, *m, *t, *p, arc as int, column as int, row) {
                    Some(cb) => cb[j],
                    None => old(canvas).pixels@[floor_target(old(canvas).width as int, *m, *t, *p, arc as int, column as int, floor_start(bottom as int, p.ycenter as int), row) + j],
                },
{
    proof {
        broadcast use vstd::std_specs::hash::group_hash_axioms;
    }
    let start = if bottom > p.ycenter {
        bottom
    } else {
        p.ycenter + 1
    };
    if start >= PLANE_HEIGHT {
        return ;
    }
    let w = canvas.width as i64;
    assert(-0x1000_0000 <= start * 4 * w <= 0x1000_0000) by (nonlinear_arith)
        requires
            -PLANE_HEIGHT <= start <= PLANE_HEIGHT,
            1 <= w <= MAX_CANVAS_SIDE,
    ;
    let mut target: i64 = start * 4 * w + 4 * column;
    let fish = t.fish[column as usize];
    let mut row = start;
    let ghost mut adv: int = 0;
    proof {
        assert(m.width * TILE <= MAX_SIDE * TILE);
        assert(target == 4 * (w * (start + adv) + column)) by (nonlinear_arith)
            requires
                target == start * 4 * w + 4 * column,
                adv == 0,
        ;
    }
    while row < PLANE_HEIGHT
        invariant
            canvas.wf(),
            canvas.same_shape(old(canvas)),
            m.wf(),
            t.wf(),
            player_ok(*m, *p),
            arc < ARCS,
            w == canvas.width,
            1 <= w <= MAX_CANVAS_SIDE,
            p.ycenter < row,
            start <= row <= PLANE_HEIGHT,
            FIX <= fish <= BIG,
            -0x1_0000_0000 <= target <= 0x1_0000_0000 + (row - start) * 4 * MAX_CANVAS_SIDE,
            -PLANE_HEIGHT <= start < PLANE_HEIGHT,
            0 <= column < PLANE_WIDTH,
            column < w,
            bottom <= start,
            0 <= adv <= row - start,
            target == 4 * (w * (start + adv) + column),
            canvas.same_outside_column(old(canvas), column as int),
            forall|k: int|
                0 <= k < canvas.pixels@.len() && old(canvas).row_of(k) < start ==> #[trigger] canvas.pixels@[k]
                    == old(canvas).pixels@[k],
            start == floor_start(bottom as int, p.ycenter as int),
            fish == t.fish@[column as int],
            adv == floor_rows_before(*m, *t, *p, arc as int, column as int, start as int, row as int),
            forall|k: int|
                0 <= k < canvas.pixels@.len() && old(canvas).row_of(k) >= start + adv ==> #[trigger] canvas.pixels@[k]
                    == old(canvas).pixels@[k],
            forall|r: int, j: int|
                start <= r < row && floor_hit(*m, *t, *p, arc as int, column as int, r)
                    && 0 <= j < 4 && 0 < floor_target(w as int, *m, *t, *p, arc as int, column as int, start as int, r)
                    && floor_target(w as int, *m, *t, *p, arc as int, column as int, start as int, r) + 4
                    <= canvas.pixels@.len() ==> #[trigger] canvas.pixels@[floor_target(w as int, *m, *t, *p, arc as int, column as int, start as int, r) + j]
                    == match floor_color(textures@, old(canvas).order, *m, *t, *p, arc as int, column as int, r) {
                        Some(cb) => cb[j],
                        None => old(canvas).pixels@[floor_target(w as int, *m, *t, *p, arc as int, column as int, start as int, r) + j],
                    },
        decreases PLANE_HEIGHT - row,
    {
        let ghost before_row = *canvas;
        let ghost t0 = target as int;
        let ghost adv0 = adv;
        assert(-0x1_0000_0000_0000 <= (p.height * DIST_TO_PLANE) * fish <= 0x1_0000_0000_0000)
            by (nonlinear_arith)
            requires
                -5 <= p.height <= WALL_HEIGHT,
                FIX <= fish <= BIG,
        ;
        let num: i128 = (p.height as i128) * (DIST_TO_PLANE as i128) * (fish as i128);
        let actual = div_trunc(num, (row - p.ycenter) as i128) as i64;
        let mut hit = false;
        let ghost mut wrote = false;
        let ghost mut written: Seq<u8> = Seq::empty();
        if actual >= FIX {
            let (gx, gy) = ground_point_exec(t, p.x, p.y, arc, actual);
            match cell_under(m, gx, gy) {
                Some(ci) => {
                    hit = true;
                    if target > 0 {
                        let tid = m.floor_img[ci];
                        match textures.get(&tid) {
                            Some(tex) => {
                                match texel(tex, gx % TILE, gy % TILE) {
                                    Some(si) => {
                                        let d = actual / FIX;
                                        let red = crate::color::shade(tex.data[si], LIGHT_FLOOR, d);
                                        let green = crate::color::shade(tex.data[si + 1], LIGHT_FLOOR, d);
                                        let blue = crate::color::shade(tex.data[si + 2], LIGHT_FLOOR, d);
                                        let alpha = tex.data[si + 3];
                                        let ghost before = *canvas;
                                        canvas.put_if_inside(target, alpha, red, green, blue);
                                        proof {
                                            wrote = true;
                                            written = crate::color::pixel_bytes(old(canvas).order, alpha, red, green, blue);
                                            assert(floor_color(textures@, old(canvas).order, *m, *t, *p, arc as int, column as int, row as int) == Some(written));
                                            lemma_column_write(before, *canvas, *old(canvas), target as int, w as int, column as int, start + adv);
                                            assert forall|k: int| 0 <= k < canvas.pixels@.len() && #[trigger] canvas.column_of(k) != column
                                                implies canvas.pixels@[k] == old(canvas).pixels@[k] by {
                                                assert(canvas.column_of(k) == old(canvas).column_of(k));
                                                assert(before.column_of(k) == old(canvas).column_of(k));
                                            }
                                        }
                                    },
                                    None => {
                                        assert(floor_color(textures@, old(canvas).order, *m, *t, *p, arc as int, column as int, row as int) is None);
                                    },
                                }
                            },
                            None => {
                                assert(floor_color(textures@, old(canvas).order, *m, *t, *p, arc as int, column as int, row as int) is None);
                            },
                        }
                    }
                    proof {
                        assert(target + 4 * w == 4 * (w * (start + adv + 1) + column)) by (nonlinear_arith)
                            requires
                                target == 4 * (w * (start + adv) + column),
                        ;
                        adv = adv + 1;
                    }
                    target = target + 4 * w;
                },
                None => {},
            }
        }
        proof {
            assert(hit == floor_hit(*m, *t, *p, arc as int, column as int, row as int));
            assert(t0 == floor_target(w as int, *m, *t, *p, arc as int, column as int, start as int, row as int));
            assert(adv == floor_rows_before(*m, *t, *p, arc as int, column as int, start as int, row + 1));
            if t0 > 0 {
                assert(start + adv0 >= 0) by (nonlinear_arith)
                    requires
                        t0 == 4 * (w * (start + adv0) + column),
                        t0 > 0,
                        0 <= column < w,
                ;
            }
            // bytes away from the pixel written this row keep their value
            assert forall|k: int| 0 <= k < canvas.pixels@.len() && !(wrote && t0 <= k < t0 + 4)
                implies #[trigger] canvas.pixels@[k] == before_row.pixels@[k] by {}
            // the pixel of this row lies in screen row start + adv0
            assert forall|j: int| 0 <= j < 4 && t0 > 0 implies #[trigger] old(canvas).row_of(t0 + j) == start + adv0
                && old(canvas).column_of(t0 + j) == column by {
                crate::canvas::lemma_pixel_bytes(w as int, column as int, start + adv0, j);
                assert(t0 + j == 4 * ((start + adv0) * w + column) + j) by (nonlinear_arith)
                    requires
                        t0 == 4 * (w * (start + adv0) + column),
                ;
            }
            assert forall|k: int|
                0 <= k < canvas.pixels@.len() && old(canvas).row_of(k) >= start + adv implies #[trigger] canvas.pixels@[k]
                    == old(canvas).pixels@[k] by {
                if wrote && t0 <= k < t0 + 4 {
                    assert(old(canvas).row_of(t0 + (k - t0)) == start + adv0);
                }
            }
            assert forall|r: int, j: int|
                start <= r < row + 1 && floor_hit(*m, *t, *p, arc as int, column as int, r)
                    && 0 <= j < 4 && 0 < floor_target(w as int, *m, *t, *p, arc as int, column as int, start as int, r)
                    && floor_target(w as int, *m, *t, *p, arc as int, column as int, start as int, r) + 4
                    <= canvas.pixels@.len() implies #[trigger] canvas.pixels@[floor_target(w as int, *m, *t, *p, arc as int, column as int, start as int, r) + j]
                    == match floor_color(textures@, old(canvas).order, *m, *t, *p, arc as int, column as int, r) {
                        Some(cb) => cb[j],
                        None => old(canvas).pixels@[floor_target(w as int, *m, *t, *p, arc as int, column as int, start as int, r) + j],
                    } by {
                let tr = floor_target(w as int, *m, *t, *p, arc as int, column as int, start as int, r);
                if r < row {
                    lemma_floor_rows_grow(*m, *t, *p, arc as int, column as int, start as int, r, row as int);
                    let rb = floor_rows_before(*m, *t, *p, arc as int, column as int, start as int, r);
                    assert(tr + 4 <= t0) by (nonlinear_arith)
                        requires
                            tr == 4 * (w * (start + rb) + column),
                            t0 == 4 * (w * (start + adv0) + column),
                            adv0 >= rb + 1,
                            w >= 1,
                    ;
                    assert(canvas.pixels@[tr + j] == before_row.pixels@[tr + j]);
                } else {
                    assert(r == row);
                    assert(tr == t0);
                    assert(old(canvas).row_of(t0 + j) == start + adv0);
                    if !wrote {
                        assert(canvas.pixels@[t0 + j] == before_row.pixels@[t0 + j]);
                        assert(before_row.pixels@[t0 + j] == old(canvas).pixels@[t0 + j]);
                    }
                }
            }
        }
        row = row + 1;
    }
}

/// The first screen row the ceiling is cast from, upward, above a wall
/// slice whose top is at row `top`: rows at or below the view centre see no
/// ceiling.
pub open spec fn ceiling_start(top: int, ycenter: int) -> int {
    let s = if top < PLANE_HEIGHT - 1 {
        top
    } else {
        PLANE_HEIGHT - 1
    };
    if s >= ycenter {
        ycenter - 1
    } else {
        s
    }
}

/// The distance, fixed point and rounded down to whole pixels, of the
/// ceiling seen through screen row `row` of column `column`.
pub open spec fn ceiling_dist(t: Tables, p: Player, column: int, row: int) -> int {
    (tdiv((WALL_HEIGHT - p.height) * DIST_TO_PLANE * t.fish@[column], p.ycenter - row) / (FIX as int))
        * FIX
}

/// The ceiling point seen through screen row `row`, in pixels.
pub open spec fn ceiling_point(t: Tables, p: Player, arc: int, column: int, row: int) -> (int, int) {
    ground_point(t, p.x as int, p.y as int, arc, ceiling_dist(t, p, column, row))
}

/// Screen row `row` sees the ceiling of a cell of the map.
pub open spec fn ceiling_hit(m: TileMap, t: Tables, p: Player, arc: int, column: int, row: int) -> bool {
    let g = ceiling_point(t, p, arc, column, row);
    ceiling_dist(t, p, column, row) >= FIX && g.0 >= 0 && g.1 >= 0 && g.0 / (TILE as int) < m.width
        && g.1 / (TILE as int) < m.height
}

/// How many screen rows after `row` up to `start` see the ceiling of the
/// map: the drawn ceiling moves one pixel up for each of them.
pub open spec fn ceiling_rows_after(
    m: TileMap,
    t: Tables,
    p: Player,
    arc: int,
    column: int,
    start: int,
    row: int,
) -> int
    decreases start - row,
{
    if row >= start {
        0
    } else {
        ceiling_rows_after(m, t, p, arc, column, start, row + 1) + if ceiling_hit(m, t, p, arc, column, row + 1) {
            1int
        } else {
            0int
        }
    }
}

/// The byte offset where screen row `row`'s ceiling pixel is drawn.
pub open spec fn ceiling_target(
    w: int,
    m: TileMap,
    t: Tables,
    p: Player,
    arc: int,
    column: int,
    start: int,
    row: int,
) -> int {
    4 * (w * (start - ceiling_rows_after(m, t, p, arc, column, start, row)) + column)
}

/// The bytes of the ceiling pixel of screen row `row`: the texel over the
/// ceiling point in its cell's ceiling texture, dimmed with distance;
/// `None` where that texture is not loaded or too small.
pub open spec fn ceiling_color(
    tex: Map<u32, Texture>,
    order: crate::color::ChannelOrder,
    m: TileMap,
    t: Tables,
    p: Player,
    arc: int,
    column: int,
    row: int,
) -> Option<Seq<u8>> {
    let d = ceiling_dist(t, p, column, row);
    let g = ceiling_point(t, p, arc, column, row);
    let tid = m.ceiling_img@[(g.1 / (TILE as int)) * m.width + g.0 / (TILE as int)];
    if tex.contains_key(tid) {
        let tx = tex[tid];
        let si = ((g.1 % (TILE as int)) * tx.width + g.0 % (TILE as int)) * 4;
        if si + 4 <= tx.data@.len() {
            Some(
                crate::color::pixel_bytes(
                    order,
                    tx.data@[si + 3],
                    crate::color::shaded(tx.data@[si], LIGHT_CEILING as int, d / (FIX as int)) as u8,
                    crate::color::shaded(tx.data@[si + 1], LIGHT_CEILING as int, d / (FIX as int)) as u8,
                    crate::color::shaded(tx.data@[si + 2], LIGHT_CEILING as int, d / (FIX as int)) as u8,
                ),
            )
        } else {
            None
        }
    } else {
        None
    }
}

proof fn lemma_ceiling_rows_grow(
    m: TileMap,
    t: Tables,
    p: Player,
    arc: int,
    column: int,
    start: int,
    r: int,
    n: int,
)
    requires
        n < r <= start,
    ensures
        ceiling_rows_after(m, t, p, arc, column, start, n) >= ceiling_rows_after(m, t, p, arc, column, start, r)
            + if ceiling_hit(m, t, p, arc, column, r) {
            1int
        } else {
            0int
        },
    decreases r - n,
{
    if n < r - 1 {
        lemma_ceiling_rows_grow(m, t, p, arc, column, start, r, n + 1);
    }
}

/// Casts the ceiling of column `column` above the row `top`, from the
/// bottom up, as the floor is cast but with the height from the eye to the
/// top of the walls, the distance rounded down to whole pixels.
#[verifier::rlimit(60)]
pub fn draw_ceiling(
    canvas: &mut Canvas,
    textures: &HashMap<u32, Texture>,
    m: &TileMap,
    t: &Tables,
    p: &Player,
    column: i64,
    arc: usize,
    top: i64,
)
    requires
        old(canvas).wf(),
        old(canvas).width >= PLANE_WIDTH,
        m.wf(),
        t.wf(),
        player_ok(*m, *p),
        0 <= column < PLANE_WIDTH,
        arc < ARCS,
        -0x8000_0000 <= top <= 0x8000_0000,
    ensures
        final(canvas).wf(),
        final(canvas).same_shape(old(canvas)),
        final(canvas).same_outside_column(old(canvas), column as int),
        forall|k: int|
            0 <= k < final(canvas).pixels@.len() && old(canvas).row_of(k) > top ==> #[trigger] final(canvas).pixels@[k] == old(canvas).pixels@[k],
        forall|k: int|
            0 <= k < final(canvas).pixels@.len() && old(canvas).row_of(k) >= p.ycenter ==> #[trigger] final(canvas).pixels@[k] == old(canvas).pixels@[k],
        forall|row: int, j: int|
            0 <= row <= ceiling_start(top as int, p.ycenter as int) && ceiling_hit(*m, *t, *p, arc as int, column as int, row)
                && 0 <= j < 4 && 0 < ceiling_target(old(canvas).width as int, *m, *t, *p, arc as int, column as int, ceiling_start(top as int, p.ycenter as int), row)
                && ceiling_target(old(canvas).width as int, *m, *t, *p, arc as int, column as int, ceiling_start(top as int, p.ycenter as int), row) + 4
                <= old(canvas).pixels@.len() ==> #[trigger] final(canvas).pixels@[ceiling_target(old(canvas).width as int, *m, *t, *p, arc as int, column as int, ceiling_start(top as int, p.ycenter as int), row) + j]
                == match ceiling_color(textures@, old(canvas).order, *m, *t, *p, arc as int, column as int, row) {
                    Some(cb) => cb[j],
                    None => old(canvas).pixels@[ceiling_target(old(canvas).width as int, *m, *t, *p, arc as int, column as int, ceiling_start(top as int, p.ycenter as int), row) + j],
                },
{
    proof {
        broadcast use vstd::std_specs::hash::group_hash_axioms;
    }
    let mut start = if top < PLANE_HEIGHT - 1 {
        top
    } else {
        PLANE_HEIGHT - 1
    };
    if start >= p.ycenter {
        start = p.ycenter - 1;
    }
    if start < 0 {
        return ;
    }
    let w = canvas.width as i64;
    assert(-0x1000_0000 <= start * 4 * w <= 0x1000_0000) by (nonlinear_arith)
        requires
            -PLANE_HEIGHT <= start <= PLANE_HEIGHT,
            1 <= w <= MAX_CANVAS_SIDE,
    ;
    let mut target: i64 = start * 4 * w + 4 * column;
    let fish = t.fish[column as usize];
    let mut row = start;
    let ghost mut adv: int = 0;
    proof {
        assert(m.width * TILE <= MAX_SIDE * TILE);
        assert(target == 4 * (w * (start - adv) + column)) by (nonlinear_arith)
            requires
                target == start * 4 * w + 4 * column,
                adv == 0,
        ;
    }
    while row >= 0
        invariant
            canvas.wf(),
            canvas.same_shape(old(canvas)),
            m.wf(),
            t.wf(),
            player_ok(*m, *p),
            arc < ARCS,
            w == canvas.width,
            1 <= w <= MAX_CANVAS_SIDE,
            row < p.ycenter,
            -1 <= row <= start,
            0 <= start < PLANE_HEIGHT,
            FIX <= fish <= BIG,
            -0x1_0000_0000 - (start - row) * 4 * MAX_CANVAS_SIDE <= target <= 0x1_0000_0000,
            0 <= column < PLANE_WIDTH,
            column < w,
            start <= top,
            0 <= adv <= start - row,
            target == 4 * (w * (start - adv) + column),
            canvas.same_outside_column(old(canvas), column as int),
            forall|k: int|
                0 <= k < canvas.pixels@.len() && old(canvas).row_of(k) > start ==> #[trigger] canvas.pixels@[k]
                    == old(canvas).pixels@[k],
            start == ceiling_start(top as int, p.ycenter as int),
            fish == t.fish@[column as int],
            adv == ceiling_rows_after(*m, *t, *p, arc as int, column as int, start as int, row as int),
            forall|k: int|
                0 <= k < canvas.pixels@.len() && old(canvas).row_of(k) <= start - adv ==> #[trigger] canvas.pixels@[k]
                    == old(canvas).pixels@[k],
            forall|r: int, j: int|
                row < r <= start && ceiling_hit(*m, *t, *p, arc as int, column as int, r)
                    && 0 <= j < 4 && 0 < ceiling_target(w as int, *m, *t, *p, arc as int, column as int, start as int, r)
                    && ceiling_target(w as int, *m, *t, *p, arc as int, column as int, start as int, r) + 4
                    <= canvas.pixels@.len() ==> #[trigger] canvas.pixels@[ceiling_target(w as int, *m, *t, *p, arc as int, column as int, start as int, r) + j]
                    == match ceiling_color(textures@, old(canvas).order, *m, *t, *p, arc as int, column as int, r) {
                        Some(cb) => cb[j],
                        None => old(canvas).pixels@[ceiling_target(w as int, *m, *t, *p, arc as int, column as int, start as int, r) + j],
                    },
        decreases row + 1,
    {
        let ghost before_row = *canvas;
        let ghost t0 = target as int;
        let ghost adv0 = adv;
        assert(0 <= ((WALL_HEIGHT - p.height) * DIST_TO_PLANE) * fish <= 0x1_0000_0000_0000)
            by (nonlinear_arith)
            requires
                -5 <= p.height <= WALL_HEIGHT - 5,
                FIX <= fish <= BIG,
        ;
        let num: i128 = ((WALL_HEIGHT - p.height) as i128) * (DIST_TO_PLANE as i128) * (fish as i128);
        let d = div_trunc(num, (p.ycenter - row) as i128) as i64;
        let diagonal = (d / FIX) * FIX;
        let mut hit = false;
        let ghost mut wrote = false;
        if diagonal >= FIX {
            let (gx, gy) = ground_point_exec(t, p.x, p.y, arc, diagonal);
            match cell_under(m, gx, gy) {
                Some(ci) => {
                    hit = true;
                    let tid = m.ceiling_img[ci];
                    match textures.get(&tid) {
                        Some(tex) => {
                            match texel(tex, gx % TILE, gy % TILE) {
                                Some(si) => {
                                    let dd = diagonal / FIX;
                                    let red = crate::color::shade(tex.data[si], LIGHT_CEILING, dd);
                                    let green = crate::color::shade(tex.data[si + 1], LIGHT_CEILING, dd);
                                    let blue = crate::color::shade(tex.data[si + 2], LIGHT_CEILING, dd);
                                    let alpha = tex.data[si + 3];
                                    if target > 0 {
                                        let ghost before = *canvas;
                                        canvas.put_if_inside(target, alpha, red, green, blue);
                                        proof {
                                            wrote = true;
                                            assert(ceiling_color(textures@, old(canvas).order, *m, *t, *p, arc as int, column as int, row as int)
                                                == Some(crate::color::pixel_bytes(old(canvas).order, alpha, red, green, blue)));
                                            lemma_column_write(before, *canvas, *old(canvas), target as int, w as int, column as int, start - adv);
                                            assert forall|k: int| 0 <= k < canvas.pixels@.len() && #[trigger] canvas.column_of(k) != column
                                                implies canvas.pixels@[k] == old(canvas).pixels@[k] by {
                                                assert(canvas.column_of(k) == old(canvas).column_of(k));
                                                assert(before.column_of(k) == old(canvas).column_of(k));
                                            }
                                        }
                                    }
                                },
                                None => {
                                    assert(ceiling_color(textures@, old(canvas).order, *m, *t, *p, arc as int, column as int, row as int) is None);
                                },
                            }
                        },
                        None => {
                            assert(ceiling_color(textures@, old(canvas).order, *m, *t, *p, arc as int, column as int, row as int) is None);
                        },
                    }
                    proof {
                        assert(target - 4 * w == 4 * (w * (start - (adv + 1)) + column)) by (nonlinear_arith)
                            requires
                                target == 4 * (w * (start - adv) + column),
                        ;
                        adv = adv + 1;
                    }
                    target = target - 4 * w;
                },
                None => {},
            }
        }
        proof {
            assert(hit == ceiling_hit(*m, *t, *p, arc as int, column as int, row as int));
            assert(t0 == ceiling_target(w as int, *m, *t, *p, arc as int, column as int, start as int, row as int));
            assert(adv == ceiling_rows_after(*m, *t, *p, arc as int, column as int, start as int, row - 1));
            if t0 > 0 {
                assert(start - adv0 >= 0) by (nonlinear_arith)
                    requires
                        t0 == 4 * (w * (start - adv0) + column),
                        t0 > 0,
                        0 <= column < w,
                ;
            }
            assert forall|k: int| 0 <= k < canvas.pixels@.len() && !(wrote && t0 <= k < t0 + 4)
                implies #[trigger] canvas.pixels@[k] == before_row.pixels@[k] by {}
            assert forall|j: int| 0 <= j < 4 && t0 > 0 implies #[trigger] old(canvas).row_of(t0 + j) == start - adv0
                && old(canvas).column_of(t0 + j) == column by {
                crate::canvas::lemma_pixel_bytes(w as int, column as int, start - adv0, j);
                assert(t0 + j == 4 * ((start - adv0) * w + column) + j) by (nonlinear_arith)
                    requires
                        t0 == 4 * (w * (start - adv0) + column),
                ;
            }
            assert forall|k: int|
                0 <= k < canvas.pixels@.len() && old(canvas).row_of(k) <= start - adv implies #[trigger] canvas.pixels@[k]
                    == old(canvas).pixels@[k] by {
                if wrote && t0 <= k < t0 + 4 {
                    assert(old(canvas).row_of(t0 + (k - t0)) == start - adv0);
                }
            }
            assert forall|r: int, j: int|
                row - 1 < r <= start && ceiling_hit(*m, *t, *p, arc as int, column as int, r)
                    && 0 <= j < 4 && 0 < ceiling_target(w as int, *m, *t, *p, arc as int, column as int, start as int, r)
                    && ceiling_target(w as int, *m, *t, *p, arc as int, column as int, start as int, r) + 4
                    <= canvas.pixels@.len() implies #[trigger] canvas.pixels@[ceiling_target(w as int, *m, *t, *p, arc as int, column as int, start as int, r) + j]
                    == match ceiling_color(textures@, old(canvas).order, *m, *t, *p, arc as int, column as int, r) {
                        Some(cb) => cb[j],
                        None => old(canvas).pixels@[ceiling_target(w as int, *m, *t, *p, arc as int, column as int, start as int, r) + j],
                    } by {
                let tr = ceiling_target(w as int, *m, *t, *p, arc as int, column as int, start as int, r);
                if r > row {
                    lemma_ceiling_rows_grow(*m, *t, *p, arc as int, column as int, start as int, r, row as int);
                    let rb = ceiling_rows_after(*m, *t, *p, arc as int, column as int, start as int, r);
                    assert(t0 + 4 <= tr) by (nonlinear_arith)
                        requires
                            tr == 4 * (w * (start - rb) + column),
                            t0 == 4 * (w * (start - adv0) + column),
                            adv0 >= rb + 1,
                            w >= 1,
                    ;
                    assert(canvas.pixels@[tr + j] == before_row.pixels@[tr + j]);
                } else {
                    assert(r == row);
                    assert(tr == t0);
                    assert(old(canvas).row_of(t0 + j) == start - adv0);
                    if !wrote {
                        assert(canvas.pixels@[t0 + j] == before_row.pixels@[t0 + j]);
                        assert(before_row.pixels@[t0 + j] == old(canvas).pixels@[t0 + j]);
                    }
                }
            }
        }
        row = row - 1;
    }
}

/// The byte offsets of the overhead-map line from the player at `(px, py)`
/// to the point `(hx, hy)`, both in pixels of the world.
pub open spec fn minimap_line(w: int, px: int, py: int, hx: int, hy: int) -> Seq<int> {
    line_of(
        w,
        px * MINIMAP_CELL / (TILE as int),
        py * MINIMAP_CELL / (TILE as int),
        hx * MINIMAP_CELL / (TILE as int),
        hy * MINIMAP_CELL / (TILE as int),
    )
}

/// Byte `i` lies in a pixel of `line`.
pub open spec fn on_line(line: Seq<int>, i: int) -> bool {
    exists|q: int| 0 <= q < line.len() && #[trigger] line[q] <= i < line[q] + 4
}

/// The map cell where a ray stopped.
pub open spec fn hit_cell(h: RayHit) -> (int, int) {
    if h.vertical {
        ((h.grid as int) / (TILE as int), (h.along as int) / (TILE_FIX as int))
    } else {
        ((h.along as int) / (TILE_FIX as int), (h.grid as int) / (TILE as int))
    }
}

/// The point, in pixels, where a ray stopped.
pub open spec fn hit_point(h: RayHit) -> (int, int) {
    if h.vertical {
        (h.grid as int, (h.along as int) / (FIX as int))
    } else {
        ((h.along as int) / (FIX as int), h.grid as int)
    }
}

/// The perpendicular distance of a column whose ray stopped at `h`.
pub open spec fn perp_of(t: Tables, h: RayHit, column: int) -> int {
    tdiv((h.distance as int) * FIX, t.fish@[column] as int)
}

/// The ray stopped in a cell of the map, at a distance that projects.
pub open spec fn slice_drawn(m: TileMap, t: Tables, h: RayHit, column: int) -> bool {
    let (cx, cy) = hit_cell(h);
    perp_of(t, h, column) >= 1 && 0 <= cx < m.width && 0 <= cy < m.height && h.along >= 0
        && h.grid >= 0
}

/// What the wall slice of a column whose ray stopped at `h` writes into
/// byte `k`, if anything: nothing where the cell's wall texture is not
/// loaded.
pub open spec fn wall_byte(
    c0: Canvas,
    tex: Map<u32, Texture>,
    m: TileMap,
    t: Tables,
    p: Player,
    h: RayHit,
    column: int,
    k: int,
) -> Option<u8> {
    let perp = perp_of(t, h, column);
    let (bottom, top) = wall_rows(perp, p.height as int, p.ycenter as int);
    let (cx, cy) = hit_cell(h);
    let tid = m.wall_img@[cy * m.width + cx];
    let light = if h.vertical {
        LIGHT_VERTICAL
    } else {
        LIGHT_HORIZONTAL
    };
    let d = if perp / (FIX as int) >= 1 {
        perp / (FIX as int)
    } else {
        1
    };
    if slice_drawn(m, t, h, column) && tex.contains_key(tid) {
        slice_byte(
            c0,
            tex[tid],
            column,
            top,
            bottom - top + 1,
            ((h.along as int) % (TILE_FIX as int)) / (FIX as int),
            light as int,
            d,
            slice_rows(top, bottom - top + 1, c0.height as int),
            k,
        )
    } else {
        None
    }
}

/// Draws the overhead-map line of a ray, from the player to where the ray
/// stopped.
fn draw_ray_on_overhead_map(canvas: &mut Canvas, p: &Player, hx: i64, hy: i64, red: u8, green: u8, blue: u8)
    requires
        old(canvas).wf(),
        0 <= p.x < MAX_SIDE * TILE,
        0 <= p.y < MAX_SIDE * TILE,
        0 <= hx <= (MAX_SIDE + 1) * TILE,
        0 <= hy <= (MAX_SIDE + 1) * TILE,
    ensures
        final(canvas).wf(),
        final(canvas).same_shape(old(canvas)),
        ({
            let line = minimap_line(old(canvas).width as int, p.x as int, p.y as int, hx as int, hy as int);
            let color = crate::color::pixel_bytes(old(canvas).order, 255, red, green, blue);
            &&& forall|q: int, j: int|
                0 <= q < line.len() && 0 <= j < 4 && 0 <= line[q] <= old(canvas).pixels@.len() - 4
                    ==> #[trigger] final(canvas).pixels@[line[q] + j] == color[j]
            &&& forall|i: int|
                0 <= i < old(canvas).pixels@.len() && !on_line(line, i)
                    ==> #[trigger] final(canvas).pixels@[i] == old(canvas).pixels@[i]
        }),
{
    canvas.draw_line(
        p.x * MINIMAP_CELL / TILE,
        p.y * MINIMAP_CELL / TILE,
        hx * MINIMAP_CELL / TILE,
        hy * MINIMAP_CELL / TILE,
        red,
        green,
        blue,
        255,
    );
}

/// Renders screen column `column`, whose ray is at `arc`: the wall slice
/// where the ray stopped, textured with the cell's wall texture from the
/// offset of the crossing within its tile and dimmed with distance (walls
/// met on vertical grid lines lighter), then the floor below and, unless
/// `no_ceiling`, the ceiling above. Returns the column's perpendicular
/// distance.
#[verifier::rlimit(60)]
pub fn render_column(
    canvas: &mut Canvas,
    textures: &HashMap<u32, Texture>,
    m: &TileMap,
    doors: &Doors,
    t: &Tables,
    p: &Player,
    column: i64,
    arc: i64,
    no_ceiling: bool,
) -> (r: i64)
    requires
        old(canvas).wf(),
        old(canvas).width >= PLANE_WIDTH,
        m.wf(),
        doors.wf(),
        t.wf(),
        player_ok(*m, *p),
        0 <= column < PLANE_WIDTH,
        0 <= arc < ANGLE360,
    ensures
        final(canvas).wf(),
        final(canvas).same_shape(old(canvas)),
        r == column_distance(*m, doors.positions@, *t, p.x as int, p.y as int, arc as int, column as int),
        nearest(*m, doors.positions@, *t, p.x as int, p.y as int, arc as int) is None ==> final(canvas).pixels@
            == old(canvas).pixels@,
        nearest(*m, doors.positions@, *t, p.x as int, p.y as int, arc as int) matches Some(h) ==> {
            let perp = perp_of(*t, h, column as int);
            let (bottom, top) = wall_rows(perp, p.height as int, p.ycenter as int);
            let (hx, hy) = hit_point(h);
            let line = minimap_line(old(canvas).width as int, p.x as int, p.y as int, hx, hy);
            &&& !slice_drawn(*m, *t, h, column as int) ==> forall|k: int|
                0 <= k < old(canvas).pixels@.len() && old(canvas).column_of(k) == column && top
                    < old(canvas).row_of(k) < bottom ==> #[trigger] final(canvas).pixels@[k]
                    == old(canvas).pixels@[k]
            &&& slice_drawn(*m, *t, h, column as int) ==> forall|k: int|
                0 <= k < old(canvas).pixels@.len() && old(canvas).column_of(k) == column && top
                    < old(canvas).row_of(k) < bottom && !on_line(line, k) ==> #[trigger] final(canvas).pixels@[k] == match wall_byte(*old(canvas), textures@, *m, *t, *p, h, column as int, k) {
                    Some(b) => b,
                    None => old(canvas).pixels@[k],
                }
            &&& perp >= 1 ==> forall|row: int, j: int|
                floor_start(bottom, p.ycenter as int) <= row < PLANE_HEIGHT && floor_hit(*m, *t, *p, arc as int, column as int, row)
                    && 0 <= j < 4 && 0 < floor_target(old(canvas).width as int, *m, *t, *p, arc as int, column as int, floor_start(bottom, p.ycenter as int), row)
                    && floor_target(old(canvas).width as int, *m, *t, *p, arc as int, column as int, floor_start(bottom, p.ycenter as int), row) + 4
                    <= old(canvas).pixels@.len() && floor_color(textures@, old(canvas).order, *m, *t, *p, arc as int, column as int, row) is Some
                    ==> #[trigger] final(canvas).pixels@[floor_target(old(canvas).width as int, *m, *t, *p, arc as int, column as int, floor_start(bottom, p.ycenter as int), row) + j]
                    == floor_color(textures@, old(canvas).order, *m, *t, *p, arc as int, column as int, row)->Some_0[j]
            &&& perp >= 1 && !no_ceiling ==> forall|row: int, j: int|
                0 <= row <= ceiling_start(top, p.ycenter as int) && ceiling_hit(*m, *t, *p, arc as int, column as int, row)
                    && 0 <= j < 4 && 0 < ceiling_target(old(canvas).width as int, *m, *t, *p, arc as int, column as int, ceiling_start(top, p.ycenter as int), row)
                    && ceiling_target(old(canvas).width as int, *m, *t, *p, arc as int, column as int, ceiling_start(top, p.ycenter as int), row) + 4
                    <= old(canvas).pixels@.len() && ceiling_color(textures@, old(canvas).order, *m, *t, *p, arc as int, column as int, row) is Some
                    ==> #[trigger] final(canvas).pixels@[ceiling_target(old(canvas).width as int, *m, *t, *p, arc as int, column as int, ceiling_start(top, p.ycenter as int), row) + j]
                    == ceiling_color(textures@, old(canvas).order, *m, *t, *p, arc as int, column as int, row)->Some_0[j]
        },
{
    proof {
        assert(m.width * TILE <= MAX_SIDE * TILE);
        assert(m.height * TILE <= MAX_SIDE * TILE);
    }
    let hit = cast_ray(m, doors, t, p.x, p.y, arc);
    match hit {
        None => FAR,
        Some(h) => {
            let fish = t.fish[column as usize];
            assert(-0x800_0000_0000_0000_0000 <= (h.distance as int) * FIX <= 0x800_0000_0000_0000_0000) by (nonlinear_arith)
                requires
                    -0x800_0000_0000_0000 < h.distance < 0x800_0000_0000_0000,
            ;
            let perp = div_trunc((h.distance as i128) * (FIX as i128), fish as i128);
            assert(abs(perp as int) < 0x800_0000_0000_0000) by (nonlinear_arith)
                requires
                    abs(perp as int) * abs(fish as int) <= abs((h.distance as int) * FIX),
                    FIX <= fish,
                    -0x800_0000_0000_0000 < h.distance < 0x800_0000_0000_0000,
            ;
            let perp = perp as i64;
            if perp >= 1 {
                let (bottom, top) = wall_rows_exec(perp, p.height, p.ycenter);
                let ghost s0 = *canvas;
                let (cx, cy, hx, hy) = if h.vertical {
                    (h.grid / TILE, h.along / TILE_FIX, h.grid, h.along / FIX)
                } else {
                    (h.along / TILE_FIX, h.grid / TILE, h.along / FIX, h.grid)
                };
                if 0 <= cx && cx < m.width as i64 && 0 <= cy && cy < m.height as i64 && h.along >= 0
                    && h.grid >= 0 {
                    let ci = m.index_of(cx as usize, cy as usize);
                    let tid = m.wall_img[ci];
                    let x_offset = (h.along % TILE_FIX) / FIX;
                    let d = if perp / FIX >= 1 {
                        perp / FIX
                    } else {
                        1
                    };
                    let light = if h.vertical {
                        LIGHT_VERTICAL
                    } else {
                        LIGHT_HORIZONTAL
                    };
                    canvas.draw_texture_slice(textures, tid, column, top, bottom - top + 1, x_offset, light, d);
                    let ghost s1 = *canvas;
                    assert(0 <= hx <= (MAX_SIDE + 1) * TILE);
                    if h.vertical {
                        draw_ray_on_overhead_map(canvas, p, hx, hy, 0, 0, 255);
                    } else {
                        draw_ray_on_overhead_map(canvas, p, hx, hy, 0, 255, 0);
                    }
                    proof {
                        assert(slice_drawn(*m, *t, h, column as int));
                        assert(hit_cell(h) == (cx as int, cy as int));
                        assert(hit_point(h) == (hx as int, hy as int));
                        assert forall|k: int|
                            0 <= k < s0.pixels@.len() && s0.column_of(k) == column && !on_line(
                                minimap_line(s0.width as int, p.x as int, p.y as int, hx as int, hy as int),
                                k,
                            ) implies #[trigger] canvas.pixels@[k] == match wall_byte(s0, textures@, *m, *t, *p, h, column as int, k) {
                            Some(b) => b,
                            None => s0.pixels@[k],
                        } by {
                            assert(canvas.pixels@[k] == s1.pixels@[k]);
                            if !textures@.contains_key(tid) {
                                assert(s1.pixels@[k] == s0.pixels@[k]);
                            }
                        }
                    }
                }
                let ghost s2 = *canvas;
                draw_floor(canvas, textures, m, t, p, column, arc as usize, bottom);
                let ghost s3 = *canvas;
                if !no_ceiling {
                    draw_ceiling(canvas, textures, m, t, p, column, arc as usize, top);
                }
                proof {
                    let fs = floor_start(bottom as int, p.ycenter as int);
                    assert forall|row: int, j: int|
                        fs <= row < PLANE_HEIGHT && floor_hit(*m, *t, *p, arc as int, column as int, row)
                            && 0 <= j < 4 && 0 < floor_target(s0.width as int, *m, *t, *p, arc as int, column as int, fs, row)
                            && floor_target(s0.width as int, *m, *t, *p, arc as int, column as int, fs, row) + 4
                            <= s0.pixels@.len() && floor_color(textures@, s0.order, *m, *t, *p, arc as int, column as int, row) is Some
                            implies #[trigger] canvas.pixels@[floor_target(s0.width as int, *m, *t, *p, arc as int, column as int, fs, row) + j]
                            == floor_color(textures@, s0.order, *m, *t, *p, arc as int, column as int, row)->Some_0[j] by {
                        let ft = floor_target(s0.width as int, *m, *t, *p, arc as int, column as int, fs, row);
                        let rb = floor_rows_before(*m, *t, *p, arc as int, column as int, fs, row);
                        assert(rb >= 0) by {
                            lemma_floor_rows_nonneg(*m, *t, *p, arc as int, column as int, fs, row);
                        }
                        assert(fs + rb >= 0) by (nonlinear_arith)
                            requires
                                ft == 4 * (s0.width * (fs + rb) + column),
                                ft > 0,
                                0 <= column < s0.width,
                        ;
                        crate::canvas::lemma_pixel_bytes(s0.width as int, column as int, fs + rb, j);
                        assert(ft + j == 4 * ((fs + rb) * s0.width + column) + j) by (nonlinear_arith)
                            requires
                                ft == 4 * (s0.width * (fs + rb) + column),
                        ;
                        assert(s3.row_of(ft + j) == fs + rb);
                        assert(s3.pixels@[ft + j] == floor_color(textures@, s0.order, *m, *t, *p, arc as int, column as int, row)->Some_0[j]);
                    }
                    assert forall|k: int| 0 <= k < s0.pixels@.len() && top < s0.row_of(k) < bottom
                        implies #[trigger] canvas.pixels@[k] == s2.pixels@[k] by {
                        assert(s2.row_of(k) == s0.row_of(k));
                        assert(s3.row_of(k) == s0.row_of(k));
                        assert(s3.pixels@[k] == s2.pixels@[k]);
                    }
                }
            }
            perp
        },
    }
}

/// Renders the walls, floor and ceiling of every column, from the ray 30
/// degrees left of the heading rightward one arc unit per column, and
/// records each column's perpendicular distance in `distances`.
#[verifier::rlimit(60)]
pub fn render_walls(
    canvas: &mut Canvas,
    textures: &HashMap<u32, Texture>,
    m: &TileMap,
    doors: &Doors,
    t: &Tables,
    p: &Player,
    no_ceiling: bool,
    distances: &mut Vec<i64>,
)
    requires
        old(canvas).wf(),
        old(canvas).width >= PLANE_WIDTH,
        m.wf(),
        doors.wf(),
        t.wf(),
        player_ok(*m, *p),
        old(distances)@.len() == PLANE_WIDTH,
    ensures
        final(canvas).wf(),
        final(canvas).same_shape(old(canvas)),
        final(distances)@.len() == PLANE_WIDTH,
        forall|c: int|
            0 <= c < PLANE_WIDTH ==> #[trigger] final(distances)@[c] == column_distance(
                *m,
                doors.positions@,
                *t,
                p.x as int,
                p.y as int,
                column_arc(p.arc as int, c),
                c,
            ),
        (forall|c: int|
            0 <= c < PLANE_WIDTH ==> #[trigger] nearest(
                *m,
                doors.positions@,
                *t,
                p.x as int,
                p.y as int,
                column_arc(p.arc as int, c),
            ) is None) ==> final(canvas).pixels@ == old(canvas).pixels@,
{
    let mut arc = p.arc - ANGLE30;
    if arc < 0 {
        arc = arc + ANGLE360;
    }
    let mut column: i64 = 0;
    while column < PLANE_WIDTH
        invariant
            canvas.wf(),
            canvas.same_shape(old(canvas)),
            canvas.width >= PLANE_WIDTH,
            m.wf(),
            doors.wf(),
            t.wf(),
            player_ok(*m, *p),
            0 <= column <= PLANE_WIDTH,
            0 <= arc < ANGLE360,
            arc == column_arc(p.arc as int, column as int),
            distances@.len() == PLANE_WIDTH,
            forall|c: int|
                0 <= c < column ==> #[trigger] distances@[c] == column_distance(
                    *m,
                    doors.positions@,
                    *t,
                    p.x as int,
                    p.y as int,
                    column_arc(p.arc as int, c),
                    c,
                ),
            (forall|c: int|
                0 <= c < PLANE_WIDTH ==> #[trigger] nearest(
                    *m,
                    doors.positions@,
                    *t,
                    p.x as int,
                    p.y as int,
                    column_arc(p.arc as int, c),
                ) is None) ==> canvas.pixels@ == old(canvas).pixels@,
        decreases PLANE_WIDTH - column,
    {
        let d = render_column(canvas, textures, m, doors, t, p, column, arc, no_ceiling);
        distances.set(column as usize, d);
        arc = arc + 1;
        if arc >= ANGLE360 {
            arc = arc - ANGLE360;
        }
        column = column + 1;
    }
}

} // verus!
