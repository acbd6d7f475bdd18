//! The engine: the map, the doors, the player, the objects and the canvas,
//! and one frame of rendering and movement.
use vstd::prelude::*;
use crate::fixed::FIX;
use crate::tables::{Tables, TILE, PLANE_WIDTH, PLANE_HEIGHT, ANGLE60, ANGLE360};
use crate::world::{TileMap, Doors, MAX_DOORS, MAX_SIDE, solid, door, is_solid, is_door};
use crate::movement::{Player, Input, player_ok, stepped, step, MAX_SPEED};
use crate::canvas::{Canvas, MAX_CANVAS_SIDE};
use crate::color::{ChannelOrder, pixel_bytes};
use crate::loader::{Assets, FileLoader};
use crate::render::{render_walls, column_distance, column_arc, MINIMAP_CELL};
use crate::canvas::line_of;
use crate::sprites::{Drawable, draw_objects, OBJECT_BOUND};
use crate::raycast::FAR;
use crate::texture::Texture;
use std::collections::HashMap;

verus! {

/// Side of the demonstration map, in cells.
pub const DEMO_SIDE: usize = 20;
/// Texture of the sky drawn when the ceiling is off.
pub const BACKGROUND_TEXTURE: u32 = 110;

/// The cell codes of the demonstration map: a walled 20 by 20 room with
/// four pillars and a walled block in the middle entered by two doors.
pub open spec fn demo_code(x: int, y: int) -> u32 {
    if x == 0 || y == 0 || x == 19 || y == 19 {
        1
    } else if (y == 4 || y == 14) && (x == 3 || x == 15) {
        1
    } else if (y == 6 || y == 12) && 4 <= x <= 14 {
        1
    } else if 7 <= y <= 11 && x == 4 {
        if y == 9 {
            0x0002
        } else {
            1
        }
    } else if 7 <= y <= 11 && x == 12 {
        if y == 11 {
            0x0102
        } else {
            1
        }
    } else if 7 <= y <= 11 && x == 14 {
        1
    } else {
        0
    }
}

/// The wall textures of the demonstration map: texture 83 for walls, 74 for
/// doors.
pub open spec fn demo_wall(x: int, y: int) -> u32 {
    if demo_code(x, y) == 1 {
        83
    } else if demo_code(x, y) != 0 {
        74
    } else {
        0
    }
}

/// The floor textures of the demonstration map: texture 14 along a path,
/// 162 elsewhere.
pub open spec fn demo_floor(x: int, y: int) -> u32 {
    if (y == 2 && (x == 1 || x == 2)) || (3 <= y <= 17 && x == 2) || ((y == 9 || y == 17) && (x
        == 3 || x == 4)) {
        14
    } else {
        162
    }
}

fn demo_code_exec(x: usize, y: usize) -> (r: u32)
    ensures
        r == demo_code(x as int, y as int),
{
    if x == 0 || y == 0 || x == 19 || y == 19 {
        1
    } else if (y == 4 || y == 14) && (x == 3 || x == 15) {
        1
    } else if (y == 6 || y == 12) && 4 <= x && x <= 14 {
        1
    } else if 7 <= y && y <= 11 && x == 4 {
        if y == 9 {
            0x0002
        } else {
            1
        }
    } else if 7 <= y && y <= 11 && x == 12 {
        if y == 11 {
            0x0102
        } else {
            1
        }
    } else if 7 <= y && y <= 11 && x == 14 {
        1
    } else {
        0
    }
}

fn demo_floor_exec(x: usize, y: usize) -> (r: u32)
    ensures
        r == demo_floor(x as int, y as int),
{
    if (y == 2 && (x == 1 || x == 2)) || (3 <= y && y <= 17 && x == 2) || ((y == 9 || y == 17) && (
    x == 3 || x == 4)) {
        14
    } else {
        162
    }
}

/// The demonstration map.
pub fn demo_map() -> (r: TileMap)
    ensures
        r.wf(),
        r.width == DEMO_SIDE,
        r.height == DEMO_SIDE,
        forall|x: int, y: int|
            0 <= x < DEMO_SIDE && 0 <= y < DEMO_SIDE ==> {
                &&& #[trigger] r.code(x, y) == demo_code(x, y)
                &&& r.wall_img@[y * DEMO_SIDE + x] == demo_wall(x, y)
                &&& r.floor_img@[y * DEMO_SIDE + x] == demo_floor(x, y)
                &&& r.ceiling_img@[y * DEMO_SIDE + x] == 101
            },
{
    let mut cells: Vec<u32> = Vec::new();
    let mut wall: Vec<u32> = Vec::new();
    let mut floor: Vec<u32> = Vec::new();
    let mut ceiling: Vec<u32> = Vec::new();
    let mut i: usize = 0;
    while i < DEMO_SIDE * DEMO_SIDE
        invariant
            0 <= i <= DEMO_SIDE * DEMO_SIDE,
            cells@.len() == i,
            wall@.len() == i,
            floor@.len() == i,
            ceiling@.len() == i,
            forall|j: int|
                0 <= j < i ==> {
                    &&& #[trigger] cells@[j] == demo_code(j % 20, j / 20)
                    &&& wall@[j] == demo_wall(j % 20, j / 20)
                    &&& floor@[j] == demo_floor(j % 20, j / 20)
                    &&& ceiling@[j] == 101
                },
        decreases DEMO_SIDE * DEMO_SIDE - i,
    {
        let x = i % DEMO_SIDE;
        let y = i / DEMO_SIDE;
        let c = demo_code_exec(x, y);
        cells.push(c);
        wall.push(
            if c == 1 {
                83
            } else if c != 0 {
                74
            } else {
                0
            },
        );
        floor.push(demo_floor_exec(x, y));
        ceiling.push(101);
        i = i + 1;
    }
    let m = TileMap {
        width: DEMO_SIDE,
        height: DEMO_SIDE,
        cells,
        wall_img: wall,
        floor_img: floor,
        ceiling_img: ceiling,
    };
    assert forall|x: int, y: int| 0 <= x < DEMO_SIDE && 0 <= y < DEMO_SIDE implies {
        &&& #[trigger] m.code(x, y) == demo_code(x, y)
        &&& m.wall_img@[y * DEMO_SIDE + x] == demo_wall(x, y)
        &&& m.floor_img@[y * DEMO_SIDE + x] == demo_floor(x, y)
        &&& m.ceiling_img@[y * DEMO_SIDE + x] == 101
    } by {
        let j = y * 20 + x;
        assert(j % 20 == x && j / 20 == y) by {
            vstd::arithmetic::div_mod::lemma_fundamental_div_mod_converse(j, 20, y, x);
        }
    }
    assert forall|j: int| 0 <= j < m.cells@.len() && crate::world::door(#[trigger] m.cells@[j]) implies crate::world::door_index(m.cells@[j]) < MAX_DOORS by {
        let c = m.cells@[j];
        assert(c == 0 || c == 1 || c == 2 || c == 0x102);
        assert(crate::world::door_index(2u32) == 0) by (bit_vector);
        assert(crate::world::door_index(0x102u32) == 1) by (bit_vector);
        assert(!crate::world::door(0u32)) by (bit_vector);
        assert(!crate::world::door(1u32)) by (bit_vector);
    }
    assert forall|x: int, y: int| m.in_map(x, y) && #[trigger] m.on_border(x, y) implies solid(m.code(x, y)) by {
        assert(m.code(x, y) == 1);
        assert(solid(1u32)) by (bit_vector);
    }
    m
}

/// Whether the player stands in an open cell of the map with its state in
/// range.
pub fn player_fits(m: &TileMap, p: &Player) -> (r: bool)
    requires
        m.wf(),
    ensures
        r == player_ok(*m, *p),
{
    proof {
        assert(m.width * TILE <= MAX_SIDE * TILE);
        assert(m.height * TILE <= MAX_SIDE * TILE);
    }
    if p.x < 0 || p.y < 0 || p.x >= m.width as i64 * TILE || p.y >= m.height as i64 * TILE {
        return false;
    }
    if p.arc < 0 || p.arc >= ANGLE360 || p.ycenter < -PLANE_HEIGHT || p.ycenter >= PLANE_HEIGHT
        + PLANE_HEIGHT / 2 || p.height < -5 || p.height > crate::tables::WALL_HEIGHT - 5
        || p.speed < 0 || p.speed > MAX_SPEED {
        return false;
    }
    !is_solid(m.code_at((p.x / TILE) as usize, (p.y / TILE) as usize))
}

/// What the sky writes into byte `k` of a canvas, if anything: within the
/// projection plane and the texture's height, pixel `(x, y)` shows texel
/// `(arc + x, y)`, wrapped once around the texture's width, byte for byte.
pub open spec fn sky_byte(canvas: Canvas, tex: Texture, arc: int, k: int) -> Option<u8> {
    let x = canvas.column_of(k);
    let y = canvas.row_of(k);
    let col = if arc + x >= tex.width {
        arc + x - tex.width
    } else {
        arc + x
    };
    if tex.valid() && x < PLANE_WIDTH && y < PLANE_HEIGHT && y < tex.height && col < tex.width {
        Some(tex.data@[(y * tex.width + col) * 4 + k % 4])
    } else {
        None
    }
}

/// Draws the sky texture behind the view, scrolled with the heading, as
/// `sky_byte` says; where the sky texture is not loaded the canvas keeps
/// every byte.
#[verifier::rlimit(60)]
fn draw_background(canvas: &mut Canvas, textures: &HashMap<u32, Texture>, arc: i64)
    requires
        old(canvas).wf(),
        old(canvas).width >= PLANE_WIDTH,
        old(canvas).height >= PLANE_HEIGHT,
        0 <= arc < ANGLE360,
    ensures
        final(canvas).wf(),
        final(canvas).same_shape(old(canvas)),
        !textures@.contains_key(BACKGROUND_TEXTURE) ==> final(canvas).pixels@ == old(canvas).pixels@,
        textures@.contains_key(BACKGROUND_TEXTURE) ==> forall|k: int|
            0 <= k < final(canvas).pixels@.len() ==> #[trigger] final(canvas).pixels@[k] == match sky_byte(
                *old(canvas),
                textures@[BACKGROUND_TEXTURE],
                arc as int,
                k,
            ) {
                Some(b) => b,
                None => old(canvas).pixels@[k],
            },
{
    proof {
        broadcast use vstd::std_specs::hash::group_hash_axioms;
    }
    let tex = match textures.get(&BACKGROUND_TEXTURE) {
        Some(t) => t,
        None => return ,
    };
    if !tex.is_valid() {
        return ;
    }
    let tw = tex.width as i64;
    let th = tex.height as i64;
    let w = canvas.width as i64;
    let dl = tex.data.len();
    let mut y: i64 = 0;
    while y < PLANE_HEIGHT && y < th
        invariant
            dl == tex.data@.len(),
            canvas.wf(),
            canvas.same_shape(old(canvas)),
            canvas.width >= PLANE_WIDTH,
            canvas.height >= PLANE_HEIGHT,
            w == canvas.width,
            tex.valid(),
            *tex == textures@[BACKGROUND_TEXTURE],
            tw == tex.width,
            th == tex.height,
            0 <= arc < ANGLE360,
            0 <= y,
            y <= PLANE_HEIGHT,
            forall|k: int|
                0 <= k < canvas.pixels@.len() ==> #[trigger] canvas.pixels@[k] == if old(canvas).row_of(k) < y {
                    match sky_byte(*old(canvas), *tex, arc as int, k) {
                        Some(b) => b,
                        None => old(canvas).pixels@[k],
                    }
                } else {
                    old(canvas).pixels@[k]
                },
        decreases PLANE_HEIGHT - y,
    {
        let mut x: i64 = 0;
        while x < PLANE_WIDTH
            invariant
                dl == tex.data@.len(),
                canvas.wf(),
                canvas.same_shape(old(canvas)),
                canvas.width >= PLANE_WIDTH,
                canvas.height >= PLANE_HEIGHT,
                w == canvas.width,
                tex.valid(),
                tw == tex.width,
                th == tex.height,
                0 <= arc < ANGLE360,
                0 <= y < PLANE_HEIGHT,
                y < th,
                0 <= x <= PLANE_WIDTH,
                forall|k: int|
                    0 <= k < canvas.pixels@.len() ==> #[trigger] canvas.pixels@[k] == if old(canvas).row_of(k) < y
                        || (old(canvas).row_of(k) == y && old(canvas).column_of(k) < x) {
                        match sky_byte(*old(canvas), *tex, arc as int, k) {
                            Some(b) => b,
                            None => old(canvas).pixels@[k],
                        }
                    } else {
                        old(canvas).pixels@[k]
                    },
            decreases PLANE_WIDTH - x,
        {
            let mut col = arc + x;
            if col >= tw {
                col = col - tw;
            }
            let ghost before = canvas.pixels@;
            if col < tw {
                assert((y * tw + col) * 4 + 4 <= tw * th * 4) by (nonlinear_arith)
                    requires
                        0 <= y < th,
                        0 <= col < tw,
                ;
                assert((y * w + x) * 4 + 4 <= canvas.width * canvas.height * 4) by (nonlinear_arith)
                    requires
                        0 <= y < canvas.height,
                        0 <= x < canvas.width,
                        w == canvas.width,
                ;
                assert(tw * th * 4 <= 0x4_0000_0000) by (nonlinear_arith)
                    requires
                        1 <= tw <= 65536,
                        1 <= th <= 65536,
                ;
                proof {
                    canvas.lemma_len();
                }
                let si = ((y * tw + col) * 4) as usize;
                let di = ((y * w + x) * 4) as usize;
                canvas.put_raw(di, tex.data[si], tex.data[si + 1], tex.data[si + 2], tex.data[si + 3]);
            }
            proof {
                assert forall|k: int| 0 <= k < canvas.pixels@.len() implies #[trigger] canvas.pixels@[k]
                    == if old(canvas).row_of(k) < y || (old(canvas).row_of(k) == y && old(canvas).column_of(k) < x + 1) {
                    match sky_byte(*old(canvas), *tex, arc as int, k) {
                        Some(b) => b,
                        None => old(canvas).pixels@[k],
                    }
                } else {
                    old(canvas).pixels@[k]
                } by {
                    crate::canvas::lemma_pixel_of(w as int, k);
                    let di = (y * w + x) * 4;
                    if di <= k < di + 4 {
                        crate::canvas::lemma_pixel_bytes(w as int, x as int, y as int, k - di);
                        assert(k == 4 * (y * w + x) + (k - di)) by (nonlinear_arith)
                            requires
                                di == (y * w + x) * 4,
                        ;
                    } else {
                        let cx = old(canvas).column_of(k);
                        let ry = old(canvas).row_of(k);
                        if cx == x && ry == y {
                            assert(k / 4 == y * w + x) by (nonlinear_arith)
                                requires
                                    k / 4 == w * ry + cx,
                                    cx == x,
                                    ry == y,
                            ;
                        }
                    }
                }
            }
            x = x + 1;
        }
        proof {
            assert forall|k: int| 0 <= k < canvas.pixels@.len() implies #[trigger] canvas.pixels@[k]
                == if old(canvas).row_of(k) < y + 1 {
                match sky_byte(*old(canvas), *tex, arc as int, k) {
                    Some(b) => b,
                    None => old(canvas).pixels@[k],
                }
            } else {
                old(canvas).pixels@[k]
            } by {
                crate::canvas::lemma_pixel_of(w as int, k);
            }
        }
        y = y + 1;
    }
    proof {
        assert forall|k: int| 0 <= k < canvas.pixels@.len() implies #[trigger] canvas.pixels@[k]
            == match sky_byte(*old(canvas), *tex, arc as int, k) {
                Some(b) => b,
                None => old(canvas).pixels@[k],
            } by {
            crate::canvas::lemma_pixel_of(w as int, k);
        }
    }
}

/// The colour of the overhead-map square of a solid cell with code `c`: red
/// for a door, black for a wall.
pub open spec fn minimap_color(order: ChannelOrder, c: u32) -> Seq<u8> {
    if door(c) {
        pixel_bytes(order, 255, 200, 50, 50)
    } else {
        pixel_bytes(order, 255, 0, 0, 0)
    }
}

/// What the overhead map writes into byte `k` of a canvas: the colour of
/// the solid cell whose `MINIMAP_CELL`-wide square holds its pixel, if any.
pub open spec fn minimap_byte(canvas: Canvas, m: TileMap, k: int) -> Option<u8> {
    let mc = canvas.column_of(k) / MINIMAP_CELL as int;
    let mr = canvas.row_of(k) / MINIMAP_CELL as int;
    if mc < m.width && mr < m.height && solid(m.code(mc, mr)) {
        Some(minimap_color(canvas.order, m.code(mc, mr))[k % 4])
    } else {
        None
    }
}

proof fn lemma_square(v: int, c: int)
    requires
        v >= 0,
        c >= 0,
    ensures
        (c * 5 <= v < c * 5 + 5) <==> v / 5 == c,
{
    vstd::arithmetic::div_mod::lemma_fundamental_div_mod(v, 5);
}

/// Draws the overhead map: each solid cell's square of `MINIMAP_CELL`
/// pixels, red for doors and black for walls; every other pixel keeps its
/// bytes.
#[verifier::rlimit(60)]
fn draw_overhead_map(canvas: &mut Canvas, m: &TileMap)
    requires
        old(canvas).wf(),
        m.wf(),
    ensures
        final(canvas).wf(),
        final(canvas).same_shape(old(canvas)),
        forall|k: int|
            0 <= k < final(canvas).pixels@.len() ==> #[trigger] final(canvas).pixels@[k] == match minimap_byte(*old(canvas), *m, k) {
                Some(b) => b,
                None => old(canvas).pixels@[k],
            },
{
    let mut r: usize = 0;
    while r < m.height
        invariant
            canvas.wf(),
            canvas.same_shape(old(canvas)),
            m.wf(),
            0 <= r <= m.height,
            forall|k: int|
                0 <= k < canvas.pixels@.len() ==> #[trigger] canvas.pixels@[k] == if old(canvas).row_of(k) / 5 < r {
                    match minimap_byte(*old(canvas), *m, k) {
                        Some(b) => b,
                        None => old(canvas).pixels@[k],
                    }
                } else {
                    old(canvas).pixels@[k]
                },
        decreases m.height - r,
    {
        let mut c: usize = 0;
        while c < m.width
            invariant
                canvas.wf(),
                canvas.same_shape(old(canvas)),
                m.wf(),
                r < m.height,
                0 <= c <= m.width,
                forall|k: int|
                    0 <= k < canvas.pixels@.len() ==> #[trigger] canvas.pixels@[k] == if old(canvas).row_of(k) / 5 < r
                        || (old(canvas).row_of(k) / 5 == r && old(canvas).column_of(k) / 5 < c) {
                        match minimap_byte(*old(canvas), *m, k) {
                            Some(b) => b,
                            None => old(canvas).pixels@[k],
                        }
                    } else {
                        old(canvas).pixels@[k]
                    },
            decreases m.width - c,
        {
            let code = m.code_at(c, r);
            let cell = MINIMAP_CELL as u32;
            let ghost before = canvas.pixels@;
            if is_solid(code) {
                if is_door(code) {
                    canvas.fill_rectangle(c as u32 * cell, r as u32 * cell, cell, cell, 200, 50, 50, 255);
                } else {
                    canvas.fill_rectangle(c as u32 * cell, r as u32 * cell, cell, cell, 0, 0, 0, 255);
                }
            }
            proof {
                assert forall|k: int| 0 <= k < canvas.pixels@.len() implies #[trigger] canvas.pixels@[k]
                    == if old(canvas).row_of(k) / 5 < r || (old(canvas).row_of(k) / 5 == r && old(
                    canvas,
                ).column_of(k) / 5 < c + 1) {
                    match minimap_byte(*old(canvas), *m, k) {
                        Some(b) => b,
                        None => old(canvas).pixels@[k],
                    }
                } else {
                    old(canvas).pixels@[k]
                } by {
                    crate::canvas::lemma_pixel_of(old(canvas).width as int, k);
                    lemma_square(old(canvas).column_of(k), c as int);
                    lemma_square(old(canvas).row_of(k), r as int);
                    assert(canvas.column_of(k) == old(canvas).column_of(k));
                    assert(canvas.row_of(k) == old(canvas).row_of(k));
                }
            }
            c = c + 1;
        }
        proof {
            assert forall|k: int| 0 <= k < canvas.pixels@.len() implies #[trigger] canvas.pixels@[k]
                == if old(canvas).row_of(k) / 5 < r + 1 {
                match minimap_byte(*old(canvas), *m, k) {
                    Some(b) => b,
                    None => old(canvas).pixels@[k],
                }
            } else {
                old(canvas).pixels@[k]
            } by {
                crate::canvas::lemma_pixel_of(old(canvas).width as int, k);
                if old(canvas).row_of(k) / 5 == r && old(canvas).column_of(k) / 5 >= m.width {
                    assert(minimap_byte(*old(canvas), *m, k) is None);
                }
            }
        }
        r = r + 1;
    }
    proof {
        assert forall|k: int| 0 <= k < canvas.pixels@.len() implies #[trigger] canvas.pixels@[k]
            == match minimap_byte(*old(canvas), *m, k) {
                Some(b) => b,
                None => old(canvas).pixels@[k],
            } by {
            if old(canvas).row_of(k) / 5 >= m.height {
                assert(minimap_byte(*old(canvas), *m, k) is None);
            }
        }
    }
}

/// The byte offsets of the heading line on the overhead map: from the
/// player's square toward ten pixels along its heading.
pub open spec fn pov_line(w: int, t: Tables, p: Player) -> Seq<int> {
    let mx = p.x * MINIMAP_CELL / (TILE as int);
    let my = p.y * MINIMAP_CELL / (TILE as int);
    line_of(
        w,
        mx,
        my,
        mx + (t.cos@[p.arc as int] * 10) / (FIX as int),
        my + (t.sin@[p.arc as int] * 10) / (FIX as int),
    )
}

/// Draws the player's heading on the overhead map as a short red line.
fn draw_player_pov(canvas: &mut Canvas, t: &Tables, m: &TileMap, p: &Player)
    requires
        old(canvas).wf(),
        t.wf(),
        m.wf(),
        player_ok(*m, *p),
    ensures
        final(canvas).wf(),
        final(canvas).same_shape(old(canvas)),
        ({
            let line = pov_line(old(canvas).width as int, *t, *p);
            let color = pixel_bytes(old(canvas).order, 255, 255, 0, 0);
            &&& forall|q: int, j: int|
                0 <= q < line.len() && 0 <= j < 4 && 0 <= line[q] <= old(canvas).pixels@.len() - 4
                    ==> #[trigger] final(canvas).pixels@[line[q] + j] == color[j]
            &&& forall|i: int|
                0 <= i < old(canvas).pixels@.len() && !crate::render::on_line(line, i)
                    ==> #[trigger] final(canvas).pixels@[i] == old(canvas).pixels@[i]
        }),
{
    proof {
        assert(m.width * TILE <= MAX_SIDE * TILE);
        assert(m.height * TILE <= MAX_SIDE * TILE);
        assert(-FIX <= t.sin@[p.arc as int] <= FIX);
    }
    let mx = p.x * MINIMAP_CELL / TILE;
    let my = p.y * MINIMAP_CELL / TILE;
    let ai = p.arc as usize;
    let ex = mx + crate::fixed::div_floor((t.cos[ai] * 10) as i128, FIX as i128) as i64;
    let ey = my + crate::fixed::div_floor((t.sin[ai] * 10) as i128, FIX as i128) as i64;
    canvas.draw_line(mx, my, ex, ey, 255, 0, 0, 255);
}

/// The objects of `s` whose coordinates are within `OBJECT_BOUND`, in
/// order, with distance and direction reset to 0.
pub open spec fn kept_objects(s: Seq<Drawable>) -> Seq<Drawable>
    decreases s.len(),
{
    if s.len() == 0 {
        Seq::empty()
    } else {
        let o = s.last();
        let rest = kept_objects(s.drop_last());
        if -OBJECT_BOUND <= o.x <= OBJECT_BOUND && -OBJECT_BOUND <= o.y <= OBJECT_BOUND
            && -OBJECT_BOUND <= o.z <= OBJECT_BOUND {
            rest.push(Drawable { real_distance: 0, angle: 0, ..o })
        } else {
            rest
        }
    }
}

/// What the overhead map and the heading line on it leave in byte `k` of
/// a frame: the heading line's red where it passes, else the colour of a
/// solid cell's square; `None` elsewhere.
pub open spec fn overhead_byte(c: Canvas, m: TileMap, t: Tables, p: Player, k: int) -> Option<u8> {
    let line = pov_line(c.width as int, t, p);
    if 0 <= k <= c.pixels@.len() - 1 && exists|q: int|
        0 <= q < line.len() && #[trigger] line[q] <= k < line[q] + 4 && 0 <= line[q] <= c.pixels@.len() - 4 {
        let q = choose|q: int|
            0 <= q < line.len() && #[trigger] line[q] <= k < line[q] + 4 && 0 <= line[q] <= c.pixels@.len() - 4;
        Some(pixel_bytes(c.order, 255, 255, 0, 0)[k - line[q]])
    } else if !crate::render::on_line(line, k) {
        minimap_byte(c, m, k)
    } else {
        None
    }
}

/// The whole state of a running view.
pub struct GameWindow<L: FileLoader> {
    width: u32,
    height: u32,
    canvas: Canvas,
    pub assets: Assets<L>,
    tables: Option<Tables>,
    map: TileMap,
    doors: Doors,
    player: Player,
    objects: Vec<Drawable>,
    distances: Vec<i64>,
    no_ceiling: bool,
}

impl<L: FileLoader> GameWindow<L> {
    pub closed spec fn spec_player(&self) -> Player {
        self.player
    }

    pub closed spec fn spec_map(&self) -> TileMap {
        self.map
    }

    pub closed spec fn spec_doors(&self) -> Seq<u8> {
        self.doors.positions@
    }

    pub closed spec fn spec_opening(&self) -> bool {
        self.doors.opening
    }

    pub closed spec fn spec_tables(&self) -> Option<Tables> {
        self.tables
    }

    pub closed spec fn spec_distances(&self) -> Seq<i64> {
        self.distances@
    }

    pub closed spec fn spec_no_ceiling(&self) -> bool {
        self.no_ceiling
    }

    pub closed spec fn spec_size(&self) -> (u32, u32) {
        (self.width, self.height)
    }

    pub closed spec fn spec_order(&self) -> ChannelOrder {
        self.canvas.order
    }

    pub closed spec fn spec_objects(&self) -> Seq<Drawable> {
        self.objects@
    }

    pub closed spec fn spec_canvas(&self) -> Canvas {
        self.canvas
    }

    pub closed spec fn spec_pixels(&self) -> Seq<u8> {
        self.canvas.pixels@
    }

    /// The parts that every method keeps in shape.
    pub closed spec fn wf(&self) -> bool {
        &&& self.canvas.wf()
        &&& self.canvas.width == self.width
        &&& self.canvas.height == self.height
        &&& self.width >= PLANE_WIDTH
        &&& self.height >= PLANE_HEIGHT
        &&& self.map.wf()
        &&& self.doors.wf()
        &&& player_ok(self.map, self.player)
        &&& self.distances@.len() == PLANE_WIDTH
        &&& forall|i: int| 0 <= i < self.objects@.len() ==> #[trigger] self.objects@[i].wf()
        &&& self.tables matches Some(t) ==> t.wf()
    }

    /// Initialized: the tables are there.
    pub closed spec fn ready(&self) -> bool {
        self.wf() && self.tables is Some
    }

    /// A view of `width` by `height` pixels over the demonstration map, with
    /// the player at `(100, 160)` facing 60 degrees, three objects, all doors
    /// closed, the ceiling on, and no tables yet.
    pub fn new(width: u32, height: u32, assets: Assets<L>) -> (r: Self)
        requires
            PLANE_WIDTH <= width <= MAX_CANVAS_SIDE,
            PLANE_HEIGHT <= height <= MAX_CANVAS_SIDE,
        ensures
            r.wf(),
            r.spec_tables() is None,
            r.spec_size() == (width, height),
            r.spec_player() == (Player { x: 100, y: 160, arc: ANGLE60, ycenter: 100, height: 32, speed: 16 }),
            !r.spec_no_ceiling(),
            r.spec_map().width == DEMO_SIDE && r.spec_map().height == DEMO_SIDE,
            forall|x: int, y: int|
                0 <= x < DEMO_SIDE && 0 <= y < DEMO_SIDE ==> #[trigger] r.spec_map().code(x, y)
                    == demo_code(x, y),
            forall|i: int| 0 <= i < MAX_DOORS ==> #[trigger] r.spec_doors()[i] == 0,
            r.spec_doors().len() == MAX_DOORS,
            r.spec_opening(),
            r.spec_pixels().len() == width * height * 4,
            forall|i: int| 0 <= i < r.spec_pixels().len() ==> #[trigger] r.spec_pixels()[i] == 0,
            r.spec_distances().len() == PLANE_WIDTH,
            forall|c: int| 0 <= c < PLANE_WIDTH ==> #[trigger] r.spec_distances()[c] == FAR,
            r.spec_order() == ChannelOrder::Argb,
            r.spec_objects() == seq![
                Drawable { x: 620, y: 620, z: 25, texture_width: 32, width: 32, height: 50, texture_id: 163, real_distance: 0, angle: 0 },
                Drawable { x: 600, y: 690, z: 25, texture_width: 32, width: 60, height: 32, texture_id: 163, real_distance: 0, angle: 0 },
                Drawable { x: 300, y: 1120, z: 25, texture_width: 32, width: 60, height: 32, texture_id: 42, real_distance: 0, angle: 0 },
            ],
    {
        let canvas = Canvas::new(width, height, ChannelOrder::Argb);
        let map = demo_map();
        let mut objects: Vec<Drawable> = Vec::new();
        objects.push(Drawable { x: 620, y: 620, z: 25, texture_width: 32, width: 32, height: 50, texture_id: 163, real_distance: 0, angle: 0 });
        objects.push(Drawable { x: 600, y: 690, z: 25, texture_width: 32, width: 60, height: 32, texture_id: 163, real_distance: 0, angle: 0 });
        objects.push(Drawable { x: 300, y: 1120, z: 25, texture_width: 32, width: 60, height: 32, texture_id: 42, real_distance: 0, angle: 0 });
        let player = Player { x: 100, y: 160, arc: ANGLE60, ycenter: 100, height: 32, speed: 16 };
        proof {
            assert(map.code(1, 2) == demo_code(1, 2));
            assert(!solid(0u32)) by (bit_vector);
            assert(player_ok(map, player));
        }
        let distances = vec![FAR; PLANE_WIDTH as usize];
        assert(objects@ =~= seq![
            Drawable { x: 620, y: 620, z: 25, texture_width: 32, width: 32, height: 50, texture_id: 163, real_distance: 0, angle: 0 },
            Drawable { x: 600, y: 690, z: 25, texture_width: 32, width: 60, height: 32, texture_id: 163, real_distance: 0, angle: 0 },
            Drawable { x: 300, y: 1120, z: 25, texture_width: 32, width: 60, height: 32, texture_id: 42, real_distance: 0, angle: 0 },
        ]);
        GameWindow {
            width,
            height,
            canvas,
            assets,
            tables: None,
            map,
            doors: Doors::new(),
            player,
            objects,
            distances,
            no_ceiling: false,
        }
    }

    /// Installs the lookup tables; the view is then ready to run.
    pub fn init(&mut self, tables: Tables)
        requires
            old(self).wf(),
            tables.wf(),
        ensures
            final(self).ready(),
            final(self).spec_tables() == Some(tables),
            final(self).spec_player() == old(self).spec_player(),
            final(self).spec_map() == old(self).spec_map(),
            final(self).spec_doors() == old(self).spec_doors(),
    {
        self.tables = Some(tables);
    }

    /// The index of cell `(x, y)` in a grid whose rows are a tile size long.
    #[inline]
    pub fn map_index(&self, x: i32, y: i32) -> (r: u32)
        requires
            0 <= x,
            0 <= y <= 0x100_0000,
            x <= 0x100_0000,
        ensures
            r == y * TILE + x,
    {
        assert((y as u32) * (TILE as u32) <= 0x4000_0000) by (nonlinear_arith)
            requires
                0 <= y <= 0x100_0000,
        ;
        (y as u32) * (TILE as u32) + x as u32
    }

    /// Replaces the map where the player stands in one of its open cells;
    /// returns whether it did.
    pub fn set_map(&mut self, m: TileMap) -> (r: bool)
        requires
            old(self).wf(),
            m.wf(),
        ensures
            final(self).wf(),
            r == player_ok(m, old(self).spec_player()),
            final(self).spec_map() == (if r { m } else { old(self).spec_map() }),
            final(self).spec_player() == old(self).spec_player(),
            final(self).spec_tables() == old(self).spec_tables(),
            final(self).spec_doors() == old(self).spec_doors(),
            final(self).spec_no_ceiling() == old(self).spec_no_ceiling(),
    {
        if player_fits(&m, &self.player) {
            self.map = m;
            true
        } else {
            false
        }
    }

    /// Moves the player where it stands in an open cell of the map with its
    /// state in range; returns whether it did.
    pub fn set_player(&mut self, p: Player) -> (r: bool)
        requires
            old(self).wf(),
        ensures
            final(self).wf(),
            r == player_ok(old(self).spec_map(), p),
            final(self).spec_player() == (if r { p } else { old(self).spec_player() }),
            final(self).spec_map() == old(self).spec_map(),
            final(self).spec_tables() == old(self).spec_tables(),
            final(self).spec_doors() == old(self).spec_doors(),
            final(self).spec_no_ceiling() == old(self).spec_no_ceiling(),
    {
        if player_fits(&self.map, &p) {
            self.player = p;
            true
        } else {
            false
        }
    }

    /// Sets door `index` to `position`, at most fully open.
    pub fn set_door(&mut self, index: usize, position: u8)
        requires
            old(self).wf(),
            index < MAX_DOORS,
        ensures
            forall|i: int| 0 <= i < MAX_DOORS ==> #[trigger] final(self).spec_doors()[i] <= TILE,
            final(self).spec_doors().len() == MAX_DOORS,
            final(self).wf(),
            final(self).spec_doors() == old(self).spec_doors().update(
                index as int,
                if position as int > TILE {
                    TILE as u8
                } else {
                    position
                },
            ),
            final(self).spec_player() == old(self).spec_player(),
            final(self).spec_map() == old(self).spec_map(),
            final(self).spec_tables() == old(self).spec_tables(),
    {
        self.doors.set(index, position);
    }

    /// Replaces the objects, keeping, in order, those whose coordinates are
    /// in bounds, with their distance and direction yet to be computed.
    pub fn set_objects(&mut self, objects: Vec<Drawable>)
        requires
            old(self).wf(),
        ensures
            final(self).wf(),
            final(self).spec_objects() == kept_objects(objects@),
            final(self).spec_player() == old(self).spec_player(),
            final(self).spec_map() == old(self).spec_map(),
            final(self).spec_tables() == old(self).spec_tables(),
            final(self).spec_doors() == old(self).spec_doors(),
    {
        let mut kept: Vec<Drawable> = Vec::new();
        let mut i: usize = 0;
        while i < objects.len()
            invariant
                0 <= i <= objects@.len(),
                forall|k: int| 0 <= k < kept@.len() ==> #[trigger] kept@[k].wf(),
                kept@ == kept_objects(objects@.subrange(0, i as int)),
            decreases objects@.len() - i,
        {
            let o = objects[i];
            proof {
                assert(objects@.subrange(0, i + 1).drop_last() =~= objects@.subrange(0, i as int));
                assert(objects@.subrange(0, i + 1).last() == o);
            }
            match Drawable::new(o.x, o.y, o.z, o.texture_width, o.width, o.height, o.texture_id) {
                Some(d) => kept.push(d),
                None => {},
            }
            i = i + 1;
        }
        assert(objects@.subrange(0, objects@.len() as int) =~= objects@);
        self.objects = kept;
    }

    /// Renders one frame from the player's position: the sky where the
    /// ceiling is off, the walls, floor and ceiling of every column (recording
    /// each column's distance), the objects, then the overhead map and the
    /// heading on it.
    pub fn render_frame(&mut self)
        requires
            old(self).ready(),
        ensures
            forall|k: int|
                0 <= k < final(self).spec_pixels().len() && #[trigger] overhead_byte(
                    old(self).spec_canvas(),
                    old(self).spec_map(),
                    old(self).spec_tables()->Some_0,
                    old(self).spec_player(),
                    k,
                ) is Some ==> final(self).spec_pixels()[k] == overhead_byte(
                    old(self).spec_canvas(),
                    old(self).spec_map(),
                    old(self).spec_tables()->Some_0,
                    old(self).spec_player(),
                    k,
                )->Some_0,
            final(self).ready(),
            final(self).spec_player() == old(self).spec_player(),
            final(self).spec_map() == old(self).spec_map(),
            final(self).spec_doors() == old(self).spec_doors(),
            final(self).spec_opening() == old(self).spec_opening(),
            final(self).spec_tables() == old(self).spec_tables(),
            final(self).spec_no_ceiling() == old(self).spec_no_ceiling(),
            final(self).spec_size() == old(self).spec_size(),
            forall|c: int|
                0 <= c < PLANE_WIDTH ==> #[trigger] final(self).spec_distances()[c] == column_distance(
                    old(self).spec_map(),
                    old(self).spec_doors(),
                    old(self).spec_tables()->Some_0,
                    old(self).spec_player().x as int,
                    old(self).spec_player().y as int,
                    column_arc(old(self).spec_player().arc as int, c),
                    c,
                ),
    {
        match &self.tables {
            Some(t) => {
                if self.no_ceiling {
                    draw_background(&mut self.canvas, &self.assets.textures, self.player.arc);
                }
                render_walls(
                    &mut self.canvas,
                    &self.assets.textures,
                    &self.map,
                    &self.doors,
                    t,
                    &self.player,
                    self.no_ceiling,
                    &mut self.distances,
                );
                draw_objects(
                    &mut self.canvas,
                    &self.assets.textures,
                    &mut self.objects,
                    t,
                    &self.map,
                    &self.player,
                    &self.distances,
                );
                let ghost c1 = self.canvas;
                draw_overhead_map(&mut self.canvas, &self.map);
                let ghost c2 = self.canvas;
                draw_player_pov(&mut self.canvas, t, &self.map, &self.player);
                proof {
                    assert forall|k: int|
                        0 <= k < self.canvas.pixels@.len() && #[trigger] overhead_byte(
                            old(self).canvas,
                            self.map,
                            *t,
                            self.player,
                            k,
                        ) is Some implies self.canvas.pixels@[k] == overhead_byte(
                            old(self).canvas,
                            self.map,
                            *t,
                            self.player,
                            k,
                        )->Some_0 by {
                        let line = pov_line(old(self).canvas.width as int, *t, self.player);
                        assert(minimap_byte(old(self).canvas, self.map, k) == minimap_byte(c1, self.map, k));
                        if exists|q: int|
                            0 <= q < line.len() && #[trigger] line[q] <= k < line[q] + 4 && 0 <= line[q]
                                <= old(self).canvas.pixels@.len() - 4 {
                            let q = choose|q: int|
                                0 <= q < line.len() && #[trigger] line[q] <= k < line[q] + 4 && 0 <= line[q]
                                    <= old(self).canvas.pixels@.len() - 4;
                            assert(self.canvas.pixels@[line[q] + (k - line[q])] == pixel_bytes(c2.order, 255, 255, 0, 0)[k - line[q]]);
                        }
                    }
                }
            },
            None => {},
        }
    }

    /// One frame: renders the view, then moves the player by `input` and
    /// toggles the ceiling where it asks.
    pub fn game_step(&mut self, input: Input)
        requires
            old(self).ready(),
        ensures
            forall|k: int|
                0 <= k < final(self).spec_pixels().len() && #[trigger] overhead_byte(
                    old(self).spec_canvas(),
                    old(self).spec_map(),
                    old(self).spec_tables()->Some_0,
                    old(self).spec_player(),
                    k,
                ) is Some ==> final(self).spec_pixels()[k] == overhead_byte(
                    old(self).spec_canvas(),
                    old(self).spec_map(),
                    old(self).spec_tables()->Some_0,
                    old(self).spec_player(),
                    k,
                )->Some_0,
            final(self).ready(),
            final(self).spec_player() == stepped(
                old(self).spec_map(),
                old(self).spec_tables()->Some_0,
                old(self).spec_player(),
                input,
            ),
            final(self).spec_no_ceiling() == (old(self).spec_no_ceiling() != input.toggle_ceiling),
            final(self).spec_map() == old(self).spec_map(),
            final(self).spec_doors() == old(self).spec_doors(),
            final(self).spec_tables() == old(self).spec_tables(),
            forall|c: int|
                0 <= c < PLANE_WIDTH ==> #[trigger] final(self).spec_distances()[c] == column_distance(
                    old(self).spec_map(),
                    old(self).spec_doors(),
                    old(self).spec_tables()->Some_0,
                    old(self).spec_player().x as int,
                    old(self).spec_player().y as int,
                    column_arc(old(self).spec_player().arc as int, c),
                    c,
                ),
    {
        self.render_frame();
        let ghost mid = self.distances@;
        let ghost rendered = *self;
        match &self.tables {
            Some(t) => {
                self.player = step(&self.map, t, &self.player, &input);
            },
            None => {},
        }
        if input.toggle_ceiling {
            self.no_ceiling = !self.no_ceiling;
        }
        assert(self.distances@ == mid);
        assert forall|c: int| 0 <= c < PLANE_WIDTH implies #[trigger] self.spec_distances()[c]
            == rendered.spec_distances()[c] by {}
    }

    /// Sets the byte order of the pixels drawn from now on.
    pub fn set_channel_order(&mut self, order: ChannelOrder)
        requires
            old(self).wf(),
        ensures
            final(self).wf(),
            final(self).spec_order() == order,
            final(self).spec_player() == old(self).spec_player(),
            final(self).spec_map() == old(self).spec_map(),
            final(self).spec_tables() == old(self).spec_tables(),
            final(self).spec_doors() == old(self).spec_doors(),
            final(self).spec_no_ceiling() == old(self).spec_no_ceiling(),
    {
        self.canvas.order = order;
    }

    /// The player.
    pub fn player(&self) -> (r: Player)
        ensures
            r == self.spec_player(),
    {
        self.player
    }

    /// The perpendicular wall distance of each screen column in the last
    /// frame, fixed point; `FAR` where the ray met no wall.
    pub fn wall_distances(&self) -> (r: Vec<i64>)
        ensures
            r@ == self.spec_distances(),
    {
        let mut out: Vec<i64> = Vec::new();
        let mut i: usize = 0;
        while i < self.distances.len()
            invariant
                0 <= i <= self.distances@.len(),
                out@ == self.distances@.subrange(0, i as int),
            decreases self.distances@.len() - i,
        {
            out.push(self.distances[i]);
            i = i + 1;
            assert(out@ =~= self.distances@.subrange(0, i as int));
        }
        assert(self.distances@.subrange(0, self.distances@.len() as int) =~= self.distances@);
        out
    }

    /// Moves the first door one step along its demonstration animation.
    pub fn move_doors_demo(&mut self)
        requires
            old(self).wf(),
        ensures
            forall|i: int| 0 <= i < MAX_DOORS ==> #[trigger] final(self).spec_doors()[i] <= TILE,
            final(self).spec_doors().len() == MAX_DOORS,
            final(self).wf(),
            ({
                let p = old(self).spec_doors()[0];
                let q = if old(self).spec_opening() {
                    if p < TILE {
                        p + 1
                    } else {
                        p as int
                    }
                } else {
                    if p > 0 {
                        p - 1
                    } else {
                        p as int
                    }
                };
                &&& final(self).spec_doors()[0] == q
                &&& final(self).spec_opening() == (if q == TILE {
                    false
                } else if q == 0 {
                    true
                } else {
                    old(self).spec_opening()
                })
            }),
            forall|i: int|
                1 <= i < MAX_DOORS ==> #[trigger] final(self).spec_doors()[i] == old(
                    self,
                ).spec_doors()[i],
            final(self).spec_player() == old(self).spec_player(),
            final(self).spec_map() == old(self).spec_map(),
            final(self).spec_tables() == old(self).spec_tables(),
    {
        self.doors.animate();
    }

    /// The pixels of the last frame as little-endian words, row by row:
    /// `0xAARRGGBB` in the `Argb` order.
    pub fn get_buffer_to_print(&self) -> (r: Vec<u32>)
        requires
            self.wf(),
        ensures
            r@.len() == self.spec_size().0 * self.spec_size().1,
            forall|i: int|
                0 <= i < r@.len() ==> #[trigger] r@[i] == self.spec_pixels()[4 * i]
                    + self.spec_pixels()[4 * i + 1] * 0x100 + self.spec_pixels()[4 * i + 2]
                    * 0x1_0000 + self.spec_pixels()[4 * i + 3] * 0x100_0000,
    {
        self.canvas.words()
    }
}

} // verus!
