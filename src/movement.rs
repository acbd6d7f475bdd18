//! The player and how one frame's input moves it: turning, walking with
//! collision against the tile grid, looking up and down, rising and falling.
use vstd::prelude::*;
use crate::fixed::{FIX, rdiv, abs, div_round};
use crate::tables::{Tables, TILE, WALL_HEIGHT, PLANE_HEIGHT, ANGLE5, ANGLE360};
use crate::world::{TileMap, MAX_SIDE, solid, is_solid};
use crate::raycast::inside;

verus! {

/// How close the player may come to a wall, in pixels.
pub const MIN_CLEARANCE: i64 = 8;
/// How far the view centre moves per frame of looking up or down.
pub const LOOK_STEP: i64 = 15;
/// Largest walking speed, in pixels per frame.
pub const MAX_SPEED: i64 = 32;

/// One frame's input.
#[derive(Clone, Copy, Debug, PartialEq, Eq, Default)]
pub struct Input {
    pub forward: bool,
    pub backward: bool,
    pub turn_left: bool,
    pub turn_right: bool,
    pub look_up: bool,
    pub look_down: bool,
    pub rise: bool,
    pub fall: bool,
    pub toggle_ceiling: bool,
}

/// The player: position in pixels, heading in arc units, the row of the
/// view's vertical centre, eye height and walking speed.
#[derive(Clone, Copy, Debug, PartialEq, Eq)]
pub struct Player {
    pub x: i64,
    pub y: i64,
    pub arc: i64,
    pub ycenter: i64,
    pub height: i64,
    pub speed: i64,
}

/// The player stands in an open cell of the map, and its heading, view
/// centre, height and speed are in range.
pub open spec fn player_ok(m: TileMap, p: Player) -> bool {
    &&& inside(m, p.x as int, p.y as int)
    &&& !solid(m.code((p.x as int) / (TILE as int), (p.y as int) / (TILE as int)))
    &&& 0 <= p.arc < ANGLE360
    &&& -PLANE_HEIGHT <= p.ycenter < PLANE_HEIGHT + PLANE_HEIGHT / 2
    &&& -5 <= p.height <= WALL_HEIGHT - 5
    &&& 0 <= p.speed <= MAX_SPEED
}

/// The heading after turning.
pub open spec fn turned(arc: int, input: Input) -> int {
    if input.turn_left {
        if arc - ANGLE5 < 0 {
            arc - ANGLE5 + ANGLE360
        } else {
            arc - ANGLE5
        }
    } else if input.turn_right {
        if arc + ANGLE5 >= ANGLE360 {
            arc + ANGLE5 - ANGLE360
        } else {
            arc + ANGLE5
        }
    } else {
        arc
    }
}

/// The intended move: the heading's cosine and sine times the speed,
/// rounded, forward or backward.
pub open spec fn intent(t: Tables, arc: int, speed: int, input: Input) -> (int, int) {
    let dx = rdiv(t.cos@[arc] * speed, FIX as int);
    let dy = rdiv(t.sin@[arc] * speed, FIX as int);
    if input.forward {
        (dx, dy)
    } else if input.backward {
        (-dx, -dy)
    } else {
        (0, 0)
    }
}

/// An offset within a tile that is too close to one of its edges.
pub open spec fn too_close(offset: int) -> bool {
    offset < MIN_CLEARANCE || offset > TILE - MIN_CLEARANCE
}

/// The new x after the clearance rule: the move is cancelled where the
/// neighbour cell it goes toward is solid and the new offset within the tile
/// is too close to an edge. A move of 0 is held against the left neighbour.
pub open spec fn cleared_x(m: TileMap, x: int, y: int, dx: int) -> int {
    let cx = x / (TILE as int);
    let cy = y / (TILE as int);
    let nx = x + dx;
    let side = if dx >= 1 {
        cx + 1
    } else {
        cx - 1
    };
    if solid(m.code(side, cy)) && too_close(nx % (TILE as int)) {
        x
    } else {
        nx
    }
}

/// The new y after the clearance rule, as for x; none applies to a move of 0.
pub open spec fn cleared_y(m: TileMap, x: int, y: int, dy: int) -> int {
    let cx = x / (TILE as int);
    let cy = y / (TILE as int);
    let ny = y + dy;
    if dy == 0 {
        ny
    } else {
        let side = if dy >= 1 {
            cy + 1
        } else {
            cy - 1
        };
        if solid(m.code(cx, side)) && too_close(ny % (TILE as int)) {
            y
        } else {
            ny
        }
    }
}

/// The position after a move of `(dx, dy)`: the clearance rule on each
/// axis, then, where the cell reached is solid, each axis that moved to
/// another cell goes back.
pub open spec fn moved(m: TileMap, x: int, y: int, dx: int, dy: int) -> (int, int) {
    let nx = cleared_x(m, x, y, dx);
    let ny = cleared_y(m, x, y, dy);
    if solid(m.code(nx / (TILE as int), ny / (TILE as int))) {
        (
            if nx / (TILE as int) != x / (TILE as int) && dx != 0 {
                x
            } else {
                nx
            },
            if ny / (TILE as int) != y / (TILE as int) && dy != 0 {
                y
            } else {
                ny
            },
        )
    } else {
        (nx, ny)
    }
}

/// The view centre after looking up or down, within
/// `[-PLANE_HEIGHT, 1.5 * PLANE_HEIGHT)`.
pub open spec fn looked(ycenter: int, input: Input) -> int {
    let c = if input.look_up {
        ycenter + LOOK_STEP
    } else if input.look_down {
        ycenter - LOOK_STEP
    } else {
        ycenter
    };
    if c < -PLANE_HEIGHT {
        -PLANE_HEIGHT as int
    } else if c >= PLANE_HEIGHT + PLANE_HEIGHT / 2 {
        PLANE_HEIGHT + PLANE_HEIGHT / 2 - 1
    } else {
        c
    }
}

/// The eye height after rising or falling, within `[-5, WALL_HEIGHT - 5]`.
pub open spec fn lifted(height: int, input: Input) -> int {
    let h = if input.rise {
        height + 1
    } else if input.fall {
        height - 1
    } else {
        height
    };
    if h < -5 {
        -5
    } else if h > WALL_HEIGHT - 5 {
        WALL_HEIGHT - 5
    } else {
        h
    }
}

/// The player after one frame of `input`.
pub open spec fn stepped(m: TileMap, t: Tables, p: Player, input: Input) -> Player {
    let arc = turned(p.arc as int, input);
    let d = intent(t, arc, p.speed as int, input);
    let pos = moved(m, p.x as int, p.y as int, d.0, d.1);
    Player {
        x: pos.0 as i64,
        y: pos.1 as i64,
        arc: arc as i64,
        ycenter: looked(p.ycenter as int, input) as i64,
        height: lifted(p.height as int, input) as i64,
        speed: p.speed,
    }
}

/// An open cell is not on the border, so its four neighbours are in the map.
pub proof fn lemma_open_cell_interior(m: TileMap, x: int, y: int)
    requires
        m.wf(),
        m.in_map(x, y),
        !solid(m.code(x, y)),
    ensures
        1 <= x < m.width - 1,
        1 <= y < m.height - 1,
{
    if m.on_border(x, y) {
    }
}

proof fn lemma_cell_of(v: int, d: int)
    requires
        0 <= v,
        -MAX_SPEED <= d <= MAX_SPEED,
        v + d >= 0,
    ensures
        v / (TILE as int) - 1 <= (v + d) / (TILE as int) <= v / (TILE as int) + 1,
        0 <= (v + d) % (TILE as int) < TILE,
{
}

proof fn lemma_intent_bound(c: int, s: int)
    requires
        -FIX <= c <= FIX,
        0 <= s <= MAX_SPEED,
    ensures
        -MAX_SPEED <= rdiv(c * s, FIX as int) <= MAX_SPEED,
{
    let a = c * s;
    assert(-FIX * MAX_SPEED <= a <= FIX * MAX_SPEED) by (nonlinear_arith)
        requires
            -FIX <= c <= FIX,
            0 <= s <= MAX_SPEED,
            a == c * s,
    ;
    assert((2 * abs(a) + FIX) / (2 * FIX) <= MAX_SPEED) by (nonlinear_arith)
        requires
            0 <= abs(a) <= FIX * MAX_SPEED,
    ;
}

fn turn(arc: i64, input: &Input) -> (r: i64)
    requires
        0 <= arc < ANGLE360,
    ensures
        r == turned(arc as int, *input),
        0 <= r < ANGLE360,
{
    if input.turn_left {
        if arc - ANGLE5 < 0 {
            arc - ANGLE5 + ANGLE360
        } else {
            arc - ANGLE5
        }
    } else if input.turn_right {
        if arc + ANGLE5 >= ANGLE360 {
            arc + ANGLE5 - ANGLE360
        } else {
            arc + ANGLE5
        }
    } else {
        arc
    }
}

fn intended(t: &Tables, arc: i64, speed: i64, input: &Input) -> (r: (i64, i64))
    requires
        t.wf(),
        0 <= arc < ANGLE360,
        0 <= speed <= MAX_SPEED,
    ensures
        r.0 == intent(*t, arc as int, speed as int, *input).0,
        r.1 == intent(*t, arc as int, speed as int, *input).1,
        -MAX_SPEED <= r.0 <= MAX_SPEED,
        -MAX_SPEED <= r.1 <= MAX_SPEED,
{
    let ai = arc as usize;
    proof {
        assert(-FIX <= t.sin@[arc as int] <= FIX);
        lemma_intent_bound(t.cos@[arc as int] as int, speed as int);
        lemma_intent_bound(t.sin@[arc as int] as int, speed as int);
        assert(-FIX * MAX_SPEED <= t.cos@[arc as int] * speed <= FIX * MAX_SPEED) by (nonlinear_arith)
            requires
                -FIX <= t.cos@[arc as int] <= FIX,
                0 <= speed <= MAX_SPEED,
        ;
        assert(-FIX * MAX_SPEED <= t.sin@[arc as int] * speed <= FIX * MAX_SPEED) by (nonlinear_arith)
            requires
                -FIX <= t.sin@[arc as int] <= FIX,
                0 <= speed <= MAX_SPEED,
        ;
    }
    let fx = div_round((t.cos[ai] as i128) * (speed as i128), FIX as i128) as i64;
    let fy = div_round((t.sin[ai] as i128) * (speed as i128), FIX as i128) as i64;
    if input.forward {
        (fx, fy)
    } else if input.backward {
        (-fx, -fy)
    } else {
        (0, 0)
    }
}

fn move_in(m: &TileMap, x: i64, y: i64, dx: i64, dy: i64) -> (r: (i64, i64))
    requires
        m.wf(),
        inside(*m, x as int, y as int),
        !solid(m.code(x / TILE, y / TILE)),
        -MAX_SPEED <= dx <= MAX_SPEED,
        -MAX_SPEED <= dy <= MAX_SPEED,
    ensures
        r.0 == moved(*m, x as int, y as int, dx as int, dy as int).0,
        r.1 == moved(*m, x as int, y as int, dx as int, dy as int).1,
        inside(*m, r.0 as int, r.1 as int),
        !solid(m.code(r.0 / TILE, r.1 / TILE)),
{
    let cx = x / TILE;
    let cy = y / TILE;
    proof {
        lemma_open_cell_interior(*m, cx as int, cy as int);
        lemma_cell_of(x as int, dx as int);
        lemma_cell_of(y as int, dy as int);
    }
    let nx0 = x + dx;
    let ny0 = y + dy;
    let ox = nx0 % TILE;
    let oy = ny0 % TILE;
    let side_x: i64 = if dx >= 1 {
        cx + 1
    } else {
        cx - 1
    };
    let nx = if is_solid(m.code_at(side_x as usize, cy as usize)) && (ox < MIN_CLEARANCE || ox
        > TILE - MIN_CLEARANCE) {
        x
    } else {
        nx0
    };
    let ny = if dy == 0 {
        ny0
    } else {
        let side_y: i64 = if dy >= 1 {
            cy + 1
        } else {
            cy - 1
        };
        if is_solid(m.code_at(cx as usize, side_y as usize)) && (oy < MIN_CLEARANCE || oy > TILE
            - MIN_CLEARANCE) {
            y
        } else {
            ny0
        }
    };
    proof {
        lemma_cell_of(x as int, (nx - x) as int);
        lemma_cell_of(y as int, (ny - y) as int);
        assert(m.width * TILE <= MAX_SIDE * TILE);
    }
    if is_solid(m.code_at((nx / TILE) as usize, (ny / TILE) as usize)) {
        (
            if nx / TILE != cx && dx != 0 {
                x
            } else {
                nx
            },
            if ny / TILE != cy && dy != 0 {
                y
            } else {
                ny
            },
        )
    } else {
        (nx, ny)
    }
}

fn look(ycenter: i64, input: &Input) -> (r: i64)
    requires
        -PLANE_HEIGHT <= ycenter < PLANE_HEIGHT + PLANE_HEIGHT / 2,
    ensures
        r == looked(ycenter as int, *input),
        -PLANE_HEIGHT <= r < PLANE_HEIGHT + PLANE_HEIGHT / 2,
{
    let c0 = if input.look_up {
        ycenter + LOOK_STEP
    } else if input.look_down {
        ycenter - LOOK_STEP
    } else {
        ycenter
    };
    if c0 < -PLANE_HEIGHT {
        -PLANE_HEIGHT
    } else if c0 >= PLANE_HEIGHT + PLANE_HEIGHT / 2 {
        PLANE_HEIGHT + PLANE_HEIGHT / 2 - 1
    } else {
        c0
    }
}

fn lift(height: i64, input: &Input) -> (r: i64)
    requires
        -5 <= height <= WALL_HEIGHT - 5,
    ensures
        r == lifted(height as int, *input),
        -5 <= r <= WALL_HEIGHT - 5,
{
    let h0 = if input.rise {
        height + 1
    } else if input.fall {
        height - 1
    } else {
        height
    };
    if h0 < -5 {
        -5
    } else if h0 > WALL_HEIGHT - 5 {
        WALL_HEIGHT - 5
    } else {
        h0
    }
}

/// Moves the player by one frame of `input`.
pub fn step(m: &TileMap, t: &Tables, p: &Player, input: &Input) -> (r: Player)
    requires
        m.wf(),
        t.wf(),
        player_ok(*m, *p),
    ensures
        r == stepped(*m, *t, *p, *input),
        player_ok(*m, r),
{
    let arc = turn(p.arc, input);
    let (dx, dy) = intended(t, arc, p.speed, input);
    let (x, y) = move_in(m, p.x, p.y, dx, dy);
    Player {
        x,
        y,
        arc,
        ycenter: look(p.ycenter, input),
        height: lift(p.height, input),
        speed: p.speed,
    }
}

/// In an open stretch of the map (the player's cell and its eight
/// neighbours open), one step forward moves the player by exactly the
/// rounded cosine and sine of its heading times its speed.
pub proof fn lemma_open_forward_step(m: TileMap, t: Tables, p: Player, input: Input)
    requires
        m.wf(),
        t.wf(),
        player_ok(m, p),
        input.forward,
        !input.turn_left,
        !input.turn_right,
        forall|i: int, j: int|
            -1 <= i <= 1 && -1 <= j <= 1 ==> !solid(
                #[trigger] m.code((p.x as int) / (TILE as int) + i, (p.y as int) / (TILE as int) + j),
            ),
    ensures
        stepped(m, t, p, input).x == p.x + rdiv(t.cos@[p.arc as int] * p.speed, FIX as int),
        stepped(m, t, p, input).y == p.y + rdiv(t.sin@[p.arc as int] * p.speed, FIX as int),
{
    let dx = rdiv(t.cos@[p.arc as int] * p.speed, FIX as int);
    let dy = rdiv(t.sin@[p.arc as int] * p.speed, FIX as int);
    let cx = (p.x as int) / (TILE as int);
    let cy = (p.y as int) / (TILE as int);
    assert(-FIX <= t.sin@[p.arc as int] <= FIX);
    lemma_intent_bound(t.cos@[p.arc as int] as int, p.speed as int);
    lemma_intent_bound(t.sin@[p.arc as int] as int, p.speed as int);
    lemma_open_cell_interior(m, cx, cy);
    lemma_cell_of(p.x as int, dx);
    lemma_cell_of(p.y as int, dy);
    assert(!solid(m.code(cx + 1, cy + 0)));
    assert(!solid(m.code(cx + (-1), cy + 0)));
    assert(!solid(m.code(cx + 0, cy + 1)));
    assert(!solid(m.code(cx + 0, cy + (-1))));
    let nx = p.x + dx;
    let ny = p.y + dy;
    assert(cleared_x(m, p.x as int, p.y as int, dx) == nx);
    assert(cleared_y(m, p.x as int, p.y as int, dy) == ny);
    assert(!solid(m.code(cx + (nx / (TILE as int) - cx), cy + (ny / (TILE as int) - cy))));
}

/// Walking toward a solid neighbour to a spot too close to the edge of the
/// tile leaves the player where it was along that axis.
pub proof fn lemma_blocked_by_wall(m: TileMap, t: Tables, p: Player, input: Input)
    requires
        m.wf(),
        t.wf(),
        player_ok(m, p),
    ensures
        ({
            let q = stepped(m, t, p, input);
            let d = intent(t, turned(p.arc as int, input), p.speed as int, input);
            let cx = (p.x as int) / (TILE as int);
            let cy = (p.y as int) / (TILE as int);
            &&& d.0 >= 1 && solid(m.code(cx + 1, cy)) && too_close((p.x + d.0) % (TILE as int)) ==> q.x
                == p.x
            &&& d.0 <= -1 && solid(m.code(cx - 1, cy)) && too_close((p.x + d.0) % (TILE as int)) ==> q.x
                == p.x
            &&& d.1 >= 1 && solid(m.code(cx, cy + 1)) && too_close((p.y + d.1) % (TILE as int)) ==> q.y
                == p.y
            &&& d.1 <= -1 && solid(m.code(cx, cy - 1)) && too_close((p.y + d.1) % (TILE as int)) ==> q.y
                == p.y
        }),
{
}

} // verus!
