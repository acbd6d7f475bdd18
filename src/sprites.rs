//! Billboard objects: their distance and direction from the player, which of
//! them are in view, the order they are drawn in, and the columns where they
//! are in front of the walls.
use vstd::prelude::*;
use std::collections::HashMap;
use crate::fixed::{FIX, tdiv, abs, div_trunc};
use crate::tables::{Tables, PLANE_WIDTH, DIST_TO_PLANE, ANGLE30, ANGLE90, ANGLE270, ANGLE360};
use crate::movement::{Player, player_ok};
use crate::world::TileMap;
use crate::canvas::{Canvas, slice_byte, slice_rows};
use crate::texture::Texture;
use crate::render::LIGHT_VERTICAL;

verus! {

broadcast use vstd::seq_lib::group_to_multiset_ensures;

/// Bound on the coordinates of an object, in pixels.
pub const OBJECT_BOUND: i64 = 0x10_0000;

/// A billboard: its position (with `z` raising it above the floor), the
/// width of its texture, its size, its texture, and what was last computed
/// of it: its distance from the player (fixed point) and its direction (arc
/// units).
#[derive(Clone, Copy, Debug, PartialEq, Eq)]
pub struct Drawable {
    pub x: i64,
    pub y: i64,
    pub z: i64,
    pub texture_width: u8,
    pub width: u8,
    pub height: u8,
    pub texture_id: u32,
    pub real_distance: i64,
    pub angle: i64,
}

impl Drawable {
    pub open spec fn wf(&self) -> bool {
        &&& -OBJECT_BOUND <= self.x <= OBJECT_BOUND
        &&& -OBJECT_BOUND <= self.y <= OBJECT_BOUND
        &&& -OBJECT_BOUND <= self.z <= OBJECT_BOUND
        &&& 0 <= self.real_distance <= 0x100_0000_0000
        &&& 0 <= self.angle < ANGLE360
    }

    /// An object at `(x, y)` raised by `z`; `None` where a coordinate is
    /// beyond `OBJECT_BOUND`. Its distance and direction are computed at
    /// each frame.
    pub fn new(x: i64, y: i64, z: i64, texture_width: u8, width: u8, height: u8, texture_id: u32) -> (r: Option<Drawable>)
        ensures
            r is Some <==> (-OBJECT_BOUND <= x <= OBJECT_BOUND && -OBJECT_BOUND <= y <= OBJECT_BOUND
                && -OBJECT_BOUND <= z <= OBJECT_BOUND),
            r matches Some(d) ==> d.wf() && d.x == x && d.y == y && d.z == z && d.texture_width
                == texture_width && d.width == width && d.height == height && d.texture_id
                == texture_id && d.real_distance == 0 && d.angle == 0,
    {
        if x < -OBJECT_BOUND || x > OBJECT_BOUND || y < -OBJECT_BOUND || y > OBJECT_BOUND || z
            < -OBJECT_BOUND || z > OBJECT_BOUND {
            return None;
        }
        Some(Drawable { x, y, z, texture_width, width, height, texture_id, real_distance: 0, angle: 0 })
    }
}

/// The integer square root of `n`, rounded down.
fn isqrt(n: u128) -> (r: u128)
    requires
        n <= 0x1_0000_0000_0000_0000_0000,
    ensures
        r * r <= n < (r + 1) * (r + 1),
{
    let mut lo: u128 = 0;
    let mut hi: u128 = 0x100_0000_0001;
    assert(hi * hi > n) by (nonlinear_arith)
        requires
            hi == 0x100_0000_0001,
            n <= 0x1_0000_0000_0000_0000_0000,
    ;
    while hi - lo > 1
        invariant
            lo < hi <= 0x100_0000_0001,
            lo * lo <= n,
            n < hi * hi,
        decreases hi - lo,
    {
        let mid = lo + (hi - lo) / 2;
        assert(mid * mid <= 0x100_0000_0001 * 0x100_0000_0001) by (nonlinear_arith)
            requires
                mid <= 0x100_0000_0001,
        ;
        if mid * mid <= n {
            lo = mid;
        } else {
            hi = mid;
        }
    }
    lo
}

/// The Euclidean length of `(dx, dy)` pixels, in fixed point, rounded down:
/// its square is at most the squared length, and the next value's is more.
pub fn distance_to(dx: i64, dy: i64) -> (r: i64)
    requires
        -2 * OBJECT_BOUND <= dx <= 2 * OBJECT_BOUND,
        -2 * OBJECT_BOUND <= dy <= 2 * OBJECT_BOUND,
    ensures
        0 <= r <= 0x100_0000_0000,
        r * r <= (dx * FIX) * (dx * FIX) + (dy * FIX) * (dy * FIX) < (r + 1) * (r + 1),
{
    let ax: u128 = if dx < 0 {
        (-dx) as u128
    } else {
        dx as u128
    } * (FIX as u128);
    let ay: u128 = if dy < 0 {
        (-dy) as u128
    } else {
        dy as u128
    } * (FIX as u128);
    assert(ax * ax + ay * ay <= 0x1_0000_0000_0000_0000_0000) by (nonlinear_arith)
        requires
            ax <= 2 * OBJECT_BOUND * FIX,
            ay <= 2 * OBJECT_BOUND * FIX,
    ;
    assert(ax * ax == (dx * FIX) * (dx * FIX)) by (nonlinear_arith)
        requires
            ax == abs(dx as int) * FIX,
    ;
    assert(ay * ay == (dy * FIX) * (dy * FIX)) by (nonlinear_arith)
        requires
            ay == abs(dy as int) * FIX,
    ;
    let r = isqrt(ax * ax + ay * ay);
    assert(r <= 0x100_0000_0000) by (nonlinear_arith)
        requires
            r * r <= ax * ax + ay * ay,
            ax * ax + ay * ay <= 0x1_0000_0000_0000_0000_0000,
    {
        if r > 0x100_0000_0000 {
            assert(r * r > 0x100_0000_0000 * 0x100_0000_0000) by (nonlinear_arith)
                requires
                    r > 0x100_0000_0000,
            ;
        }
    }
    r as i64
}

/// How far the direction of arc `a` points toward `(dx, dy)`.
pub open spec fn toward(t: Tables, dx: int, dy: int, a: int) -> int {
    dx * t.cos@[a] + dy * t.sin@[a]
}

/// The arc unit that points most nearly toward `(dx, dy)`: the first arc
/// whose direction has the largest projection on it.
pub fn arc_toward(t: &Tables, dx: i64, dy: i64) -> (r: i64)
    requires
        t.wf(),
        -2 * OBJECT_BOUND <= dx <= 2 * OBJECT_BOUND,
        -2 * OBJECT_BOUND <= dy <= 2 * OBJECT_BOUND,
    ensures
        0 <= r < ANGLE360,
        forall|b: int| 0 <= b < ANGLE360 ==> toward(*t, dx as int, dy as int, b) <= toward(*t, dx as int, dy as int, r as int),
        forall|b: int| 0 <= b < r ==> toward(*t, dx as int, dy as int, b) < toward(*t, dx as int, dy as int, r as int),
{
    let mut best: i64 = 0;
    proof {
        assert(-FIX <= t.sin@[0] <= FIX);
    }
    let mut best_v: i64 = dot(t, dx, dy, 0);
    let mut a: i64 = 1;
    while a < ANGLE360
        invariant
            t.wf(),
            -2 * OBJECT_BOUND <= dx <= 2 * OBJECT_BOUND,
            -2 * OBJECT_BOUND <= dy <= 2 * OBJECT_BOUND,
            1 <= a <= ANGLE360,
            0 <= best < a,
            best_v == toward(*t, dx as int, dy as int, best as int),
            forall|b: int| 0 <= b < a ==> toward(*t, dx as int, dy as int, b) <= best_v,
            forall|b: int| 0 <= b < best ==> toward(*t, dx as int, dy as int, b) < best_v,
        decreases ANGLE360 - a,
    {
        let v = dot(t, dx, dy, a);
        if v > best_v {
            best = a;
            best_v = v;
        }
        a = a + 1;
    }
    best
}

fn dot(t: &Tables, dx: i64, dy: i64, a: i64) -> (r: i64)
    requires
        t.wf(),
        0 <= a < ANGLE360,
        -2 * OBJECT_BOUND <= dx <= 2 * OBJECT_BOUND,
        -2 * OBJECT_BOUND <= dy <= 2 * OBJECT_BOUND,
    ensures
        r == toward(*t, dx as int, dy as int, a as int),
{
    let ai = a as usize;
    proof {
        assert(-FIX <= t.sin@[a as int] <= FIX);
    }
    assert(-0x40_0000_0000 <= dx * t.cos@[a as int] <= 0x40_0000_0000) by (nonlinear_arith)
        requires
            -2 * OBJECT_BOUND <= dx <= 2 * OBJECT_BOUND,
            -FIX <= t.cos@[a as int] <= FIX,
    ;
    assert(-0x40_0000_0000 <= dy * t.sin@[a as int] <= 0x40_0000_0000) by (nonlinear_arith)
        requires
            -2 * OBJECT_BOUND <= dy <= 2 * OBJECT_BOUND,
            -FIX <= t.sin@[a as int] <= FIX,
    ;
    dx * t.cos[ai] + dy * t.sin[ai]
}

/// The direction `angle` is within 90 degrees of the heading, either way,
/// across the wrap at 360 degrees.
pub open spec fn in_view(heading: int, angle: int) -> bool {
    let lo = if heading < ANGLE90 {
        heading - ANGLE90 + ANGLE360
    } else {
        heading - ANGLE90
    };
    let hi = if heading > ANGLE270 {
        heading + ANGLE90 - ANGLE360
    } else {
        heading + ANGLE90
    };
    if lo <= hi {
        lo <= angle <= hi
    } else {
        angle >= lo || angle <= hi
    }
}

pub fn is_in_view(heading: i64, angle: i64) -> (r: bool)
    requires
        0 <= heading < ANGLE360,
    ensures
        r == in_view(heading as int, angle as int),
{
    let lo = if heading < ANGLE90 {
        heading - ANGLE90 + ANGLE360
    } else {
        heading - ANGLE90
    };
    let hi = if heading > ANGLE270 {
        heading + ANGLE90 - ANGLE360
    } else {
        heading + ANGLE90
    };
    if lo <= hi {
        lo <= angle && angle <= hi
    } else {
        angle >= lo || angle <= hi
    }
}

/// The order to draw the objects `visible` (indices into `objs`) in: by
/// distance, farthest first.
pub fn depth_order(objs: &Vec<Drawable>, visible: &Vec<usize>) -> (r: Vec<usize>)
    requires
        forall|k: int| 0 <= k < visible@.len() ==> #[trigger] visible@[k] < objs@.len(),
    ensures
        r@.to_multiset() == visible@.to_multiset(),
        forall|k: int| 0 <= k < r@.len() ==> #[trigger] r@[k] < objs@.len(),
        forall|i: int, j: int|
            0 <= i < j < r@.len() ==> objs@[r@[i] as int].real_distance >= objs@[r@[j] as int].real_distance,
{
    let mut out: Vec<usize> = Vec::new();
    let mut k: usize = 0;
    while k < visible.len()
        invariant
            0 <= k <= visible@.len(),
            forall|q: int| 0 <= q < visible@.len() ==> #[trigger] visible@[q] < objs@.len(),
            out@.to_multiset() == visible@.subrange(0, k as int).to_multiset(),
            forall|q: int| 0 <= q < out@.len() ==> #[trigger] out@[q] < objs@.len(),
            forall|i: int, j: int|
                0 <= i < j < out@.len() ==> objs@[out@[i] as int].real_distance >= objs@[out@[j] as int].real_distance,
        decreases visible@.len() - k,
    {
        let v = visible[k];
        let d = objs[v].real_distance;
        let mut pos: usize = 0;
        while pos < out.len() && objs[out[pos]].real_distance >= d
            invariant
                0 <= pos <= out@.len(),
                v < objs@.len(),
                d == objs@[v as int].real_distance,
                forall|q: int| 0 <= q < out@.len() ==> #[trigger] out@[q] < objs@.len(),
                forall|q: int| 0 <= q < pos ==> objs@[#[trigger] out@[q] as int].real_distance >= d,
            decreases out@.len() - pos,
        {
            pos = pos + 1;
        }
        proof {
            assert forall|q: int| pos <= q < out@.len() implies objs@[#[trigger] out@[q] as int].real_distance
                < d by {
                if objs@[out@[q] as int].real_distance >= d {
                    assert(objs@[out@[pos as int] as int].real_distance >= objs@[out@[q] as int].real_distance);
                }
            }
            vstd::seq_lib::to_multiset_insert(out@, pos as int, v);
            assert(visible@.subrange(0, k + 1) =~= visible@.subrange(0, k as int).push(v));
        }
        let ghost before = out@;
        out.insert(pos, v);
        proof {
            assert(out@ == before.insert(pos as int, v));
            assert forall|i: int, j: int|
                0 <= i < j < out@.len() implies objs@[out@[i] as int].real_distance >= objs@[out@[j] as int].real_distance by {
                if j < pos {
                    assert(out@[i] == before[i] && out@[j] == before[j]);
                } else if j == pos {
                    assert(out@[i] == before[i]);
                } else if i < pos {
                    assert(out@[i] == before[i] && out@[j] == before[j - 1]);
                } else if i == pos {
                    assert(out@[j] == before[j - 1]);
                } else {
                    assert(out@[i] == before[i - 1] && out@[j] == before[j - 1]);
                }
            }
        }
        k = k + 1;
    }
    assert(visible@.subrange(0, visible@.len() as int) =~= visible@);
    out
}

/// The columns in `[lo, hi)` where an object at `dist` is drawn: those whose
/// wall is farther than it. A wall nearer than the object, or at the same
/// distance, hides it there.
pub fn visible_columns(distances: &Vec<i64>, dist: i64, lo: i64, hi: i64) -> (r: Vec<i64>)
    requires
        0 <= lo,
        hi <= distances@.len(),
    ensures
        forall|k: int| 0 <= k < r@.len() ==> lo <= #[trigger] r@[k] < hi && distances@[r@[k] as int] > dist,
        forall|i: int, j: int| 0 <= i < j < r@.len() ==> r@[i] < r@[j],
        forall|c: int| lo <= c < hi && distances@[c] > dist ==> r@.contains(c as i64),
{
    let mut out: Vec<i64> = Vec::new();
    if lo >= hi {
        return out;
    }
    let n = distances.len();
    let mut c: i64 = lo;
    while c < hi
        invariant
            0 <= lo,
            n == distances@.len(),
            hi <= n,
            lo <= c <= hi,
            forall|k: int| 0 <= k < out@.len() ==> lo <= #[trigger] out@[k] < c && distances@[out@[k] as int] > dist,
            forall|i: int, j: int| 0 <= i < j < out@.len() ==> out@[i] < out@[j],
            forall|q: int| lo <= q < c && distances@[q] > dist ==> out@.contains(q as i64),
        decreases hi - c,
    {
        if distances[c as usize] > dist {
            let ghost before = out@;
            out.push(c);
            proof {
                assert forall|q: int| lo <= q < c + 1 && distances@[q] > dist implies out@.contains(q as i64) by {
                    if q < c {
                        assert(before.contains(q as i64));
                        let k = choose|k: int| 0 <= k < before.len() && before[k] == q as i64;
                        assert(out@[k] == q as i64);
                    } else {
                        assert(out@[before.len() as int] == q as i64);
                    }
                }
            }
        } else {
            let ghost before = out@;
            proof {
                assert forall|q: int| lo <= q < c + 1 && distances@[q] > dist implies out@.contains(q as i64) by {
                    assert(q < c);
                }
            }
        }
        c = c + 1;
    }
    out
}

/// `r` is the length of `(dx, dy)` pixels in fixed point, rounded down.
pub open spec fn is_distance(r: int, dx: int, dy: int) -> bool {
    0 <= r && r * r <= (dx * FIX) * (dx * FIX) + (dy * FIX) * (dy * FIX) < (r + 1) * (r + 1)
}

/// `a` is the first arc unit that points most nearly toward `(dx, dy)`.
pub open spec fn is_arc_toward(t: Tables, dx: int, dy: int, a: int) -> bool {
    &&& 0 <= a < ANGLE360
    &&& forall|b: int| 0 <= b < ANGLE360 ==> toward(t, dx, dy, b) <= toward(t, dx, dy, a)
    &&& forall|b: int| 0 <= b < a ==> toward(t, dx, dy, b) < toward(t, dx, dy, a)
}

/// Recomputes each object's distance and direction from the player at
/// `(px, py)`.
pub fn locate_objects(objs: &mut Vec<Drawable>, t: &Tables, px: i64, py: i64)
    requires
        t.wf(),
        -OBJECT_BOUND <= px <= OBJECT_BOUND,
        -OBJECT_BOUND <= py <= OBJECT_BOUND,
        forall|i: int| 0 <= i < old(objs)@.len() ==> #[trigger] old(objs)@[i].wf(),
    ensures
        final(objs)@.len() == old(objs)@.len(),
        forall|i: int|
            0 <= i < final(objs)@.len() ==> {
                let o = old(objs)@[i];
                let n = #[trigger] final(objs)@[i];
                &&& n.wf()
                &&& n == Drawable { real_distance: n.real_distance, angle: n.angle, ..o }
                &&& is_distance(n.real_distance as int, px - o.x, py - o.y)
                &&& is_arc_toward(*t, o.x - px, o.y - py, n.angle as int)
            },
{
    let ghost start = objs@;
    let mut i: usize = 0;
    while i < objs.len()
        invariant
            t.wf(),
            -OBJECT_BOUND <= px <= OBJECT_BOUND,
            -OBJECT_BOUND <= py <= OBJECT_BOUND,
            0 <= i <= objs@.len(),
            objs@.len() == start.len(),
            forall|k: int| 0 <= k < start.len() ==> #[trigger] start[k].wf(),
            forall|k: int| i <= k < objs@.len() ==> #[trigger] objs@[k] == start[k],
            forall|k: int|
                0 <= k < i ==> {
                    let o = start[k];
                    let n = #[trigger] objs@[k];
                    &&& n.wf()
                    &&& n == Drawable { real_distance: n.real_distance, angle: n.angle, ..o }
                    &&& is_distance(n.real_distance as int, px - o.x, py - o.y)
                    &&& is_arc_toward(*t, o.x - px, o.y - py, n.angle as int)
                },
        decreases objs@.len() - i,
    {
        let mut o = objs[i];
        assert(o.wf());
        o.real_distance = distance_to(px - o.x, py - o.y);
        o.angle = arc_toward(t, o.x - px, o.y - py);
        objs.set(i, o);
        i = i + 1;
    }
}

/// The indices of the objects in view from `heading`, in order: those
/// farther than one pixel whose direction is within 90 degrees of it.
pub fn visible_objects(objs: &Vec<Drawable>, heading: i64) -> (r: Vec<usize>)
    requires
        0 <= heading < ANGLE360,
    ensures
        forall|k: int|
            0 <= k < r@.len() ==> #[trigger] r@[k] < objs@.len() && objs@[r@[k] as int].real_distance > FIX
                && in_view(heading as int, objs@[r@[k] as int].angle as int),
        forall|i: int, j: int| 0 <= i < j < r@.len() ==> r@[i] < r@[j],
        forall|i: int|
            0 <= i < objs@.len() && objs@[i].real_distance > FIX && in_view(heading as int, objs@[i].angle as int)
                ==> r@.contains(i as usize),
{
    let mut out: Vec<usize> = Vec::new();
    let mut i: usize = 0;
    while i < objs.len()
        invariant
            0 <= heading < ANGLE360,
            0 <= i <= objs@.len(),
            forall|k: int|
                0 <= k < out@.len() ==> #[trigger] out@[k] < i && objs@[out@[k] as int].real_distance
                    > FIX && in_view(heading as int, objs@[out@[k] as int].angle as int),
            forall|a: int, b: int| 0 <= a < b < out@.len() ==> out@[a] < out@[b],
            forall|q: int|
                0 <= q < i && objs@[q].real_distance > FIX && in_view(heading as int, objs@[q].angle as int)
                    ==> out@.contains(q as usize),
        decreases objs@.len() - i,
    {
        if objs[i].real_distance > FIX && is_in_view(heading, objs[i].angle) {
            let ghost before = out@;
            out.push(i);
            proof {
                assert forall|q: int|
                    0 <= q < i + 1 && objs@[q].real_distance > FIX && in_view(heading as int, objs@[q].angle as int)
                        implies out@.contains(q as usize) by {
                    if q < i {
                        let k = choose|k: int| 0 <= k < before.len() && before[k] == q as usize;
                        assert(out@[k] == q as usize);
                    } else {
                        assert(out@[before.len() as int] == q as usize);
                    }
                }
            }
        }
        i = i + 1;
    }
    out
}

/// An object at `dist` is hidden in screen column `c`: the column is off the
/// view, or its wall is not farther than the object.
pub open spec fn hidden_at(distances: Seq<i64>, dist: int, c: int) -> bool {
    c < 0 || c >= PLANE_WIDTH || distances[c] <= dist
}

/// The row of the bottom of an object's billboard.
pub open spec fn sprite_bottom(o: Drawable, p: Player) -> int {
    tdiv(DIST_TO_PLANE * (2 * (p.height - o.z) + o.height) * FIX, 2 * o.real_distance) + p.ycenter
}

/// The row of the top of an object's billboard.
pub open spec fn sprite_top(o: Drawable, p: Player) -> int {
    sprite_bottom(o, p) - tdiv(DIST_TO_PLANE * o.height * FIX, o.real_distance as int)
}

/// How far, in arc units, the heading is to the left of the object's
/// direction, across the wrap at 360 degrees.
pub open spec fn sprite_delta(o: Drawable, p: Player) -> int {
    if p.arc > ANGLE270 && o.angle < ANGLE90 {
        -(o.angle + ANGLE360 - p.arc)
    } else if o.angle > ANGLE270 && p.arc < ANGLE90 {
        p.arc + ANGLE360 - o.angle
    } else {
        p.arc - o.angle
    }
}

/// The screen column of the object's centre, fixed point.
pub open spec fn sprite_center(o: Drawable, p: Player) -> int {
    (ANGLE30 - sprite_delta(o, p)) * FIX
}

/// The projected width of the object in columns, fixed point.
pub open spec fn sprite_total(o: Drawable) -> int {
    tdiv(o.width * DIST_TO_PLANE * FIX * FIX, o.real_distance as int)
}

/// The object's projection is wider than a column and reaches the screen.
pub open spec fn sprite_shown(o: Drawable, p: Player) -> bool {
    let total = sprite_total(o);
    let half = total / 2;
    let center = sprite_center(o, p);
    total > FIX && center < PLANE_WIDTH * FIX + half && (center > 0 || center > -half)
}

/// The first screen column the object covers.
pub open spec fn sprite_min_col(o: Drawable, p: Player) -> int {
    let lo = sprite_center(o, p) - sprite_total(o) / 2;
    if lo < 0 {
        0
    } else {
        lo / (FIX as int)
    }
}

/// The screen column past the last one the object covers.
pub open spec fn sprite_max_col(o: Drawable, p: Player) -> int {
    let hi = sprite_center(o, p) + sprite_total(o) / 2;
    if hi > PLANE_WIDTH * FIX {
        PLANE_WIDTH as int
    } else {
        hi / (FIX as int)
    }
}

/// Texture columns per screen column, fixed point.
pub open spec fn sprite_increment(o: Drawable) -> int {
    tdiv(o.texture_width * FIX * FIX, sprite_total(o))
}

/// The texture column, fixed point, at the object's first covered column.
pub open spec fn sprite_start(o: Drawable, p: Player) -> int {
    let lo = sprite_center(o, p) - sprite_total(o) / 2;
    if lo <= 0 {
        ((sprite_total(o) - lo) / (FIX as int)) * sprite_increment(o)
    } else {
        0
    }
}

/// The texture column that screen column `c` shows of the object.
pub open spec fn sprite_x_offset(o: Drawable, p: Player, c: int) -> int {
    (sprite_start(o, p) + (c - sprite_min_col(o, p)) * sprite_increment(o)) / (FIX as int)
}

/// What drawing object `o` writes into byte `i` of canvas `c0`, if anything:
/// where its texture is loaded, its projection reaches the screen, and the
/// byte's column is one it covers whose wall is farther than it, the byte
/// of its texture slice there.
pub open spec fn object_byte(
    c0: Canvas,
    tex: Map<u32, Texture>,
    o: Drawable,
    p: Player,
    d: Seq<i64>,
    i: int,
) -> Option<u8> {
    let col = c0.column_of(i);
    let top = sprite_top(o, p);
    let h = sprite_bottom(o, p) - top + 1;
    if o.real_distance > FIX && tex.contains_key(o.texture_id) && sprite_shown(o, p)
        && sprite_min_col(o, p) <= col < sprite_max_col(o, p) && d[col] > o.real_distance {
        slice_byte(
            c0,
            tex[o.texture_id],
            col,
            top,
            h,
            sprite_x_offset(o, p, col),
            LIGHT_VERTICAL as int,
            (o.real_distance as int) / (FIX as int),
            slice_rows(top, h, c0.height as int),
            i,
        )
    } else {
        None
    }
}

/// An object is in view: farther than one pixel, and within 90 degrees of
/// the heading.
pub open spec fn visible(o: Drawable, heading: int) -> bool {
    o.real_distance > FIX && in_view(heading, o.angle as int)
}

/// `ord` lists each object in view once, farthest first.
pub open spec fn draw_order(objs: Seq<Drawable>, heading: int, ord: Seq<usize>) -> bool {
    &&& ord.no_duplicates()
    &&& forall|q: int| 0 <= q < ord.len() ==> #[trigger] ord[q] < objs.len() && visible(objs[ord[q] as int], heading)
    &&& forall|i: int| 0 <= i < objs.len() && visible(#[trigger] objs[i], heading) ==> ord.contains(i as usize)
    &&& forall|a: int, b: int|
        0 <= a < b < ord.len() ==> objs[#[trigger] ord[a] as int].real_distance >= objs[#[trigger] ord[b] as int].real_distance
}

/// Byte `i` after drawing the first `n` objects of `ord` over canvas `c0`:
/// each later object overwrites what it draws.
pub open spec fn after_objects(
    c0: Canvas,
    tex: Map<u32, Texture>,
    objs: Seq<Drawable>,
    p: Player,
    d: Seq<i64>,
    ord: Seq<usize>,
    n: int,
    i: int,
) -> u8
    decreases n,
{
    if n <= 0 {
        c0.pixels@[i]
    } else {
        match object_byte(c0, tex, objs[ord[n - 1] as int], p, d, i) {
            Some(b) => b,
            None => after_objects(c0, tex, objs, p, d, ord, n - 1, i),
        }
    }
}

/// The canvas `c1` is `c0` with the objects drawn in the order `ord`.
pub open spec fn drawn_as(
    c0: Canvas,
    c1: Canvas,
    tex: Map<u32, Texture>,
    objs: Seq<Drawable>,
    p: Player,
    d: Seq<i64>,
    ord: Seq<usize>,
) -> bool {
    &&& draw_order(objs, p.arc as int, ord)
    &&& forall|i: int|
        0 <= i < c1.pixels@.len() ==> #[trigger] c1.pixels@[i] == after_objects(c0, tex, objs, p, d, ord, ord.len() as int, i)
}

/// Draws one object as a billboard: its size and its screen column come
/// from its distance and from its direction relative to the heading, and
/// each column it covers is drawn where the wall there is farther than it,
/// reading its texture at `texture_width` over its projected width per
/// column. Every other byte keeps its value.
#[verifier::rlimit(60)]
pub fn draw_object(
    canvas: &mut Canvas,
    textures: &HashMap<u32, Texture>,
    o: &Drawable,
    p: &Player,
    distances: &Vec<i64>,
)
    requires
        old(canvas).wf(),
        old(canvas).width >= PLANE_WIDTH,
        o.wf(),
        o.real_distance > FIX,
        0 <= p.arc < ANGLE360,
        -5 <= p.height <= 64,
        -PLANE_WIDTH <= p.ycenter <= PLANE_WIDTH,
        distances@.len() == PLANE_WIDTH,
    ensures
        final(canvas).wf(),
        final(canvas).same_shape(old(canvas)),
        forall|k: int|
            0 <= k < final(canvas).pixels@.len() ==> #[trigger] final(canvas).pixels@[k] == match object_byte(
                *old(canvas),
                textures@,
                *o,
                *p,
                distances@,
                k,
            ) {
                Some(b) => b,
                None => old(canvas).pixels@[k],
            },
        forall|k: int|
            0 <= k < final(canvas).pixels@.len() && hidden_at(distances@, o.real_distance as int, #[trigger] final(canvas).column_of(k))
                ==> final(canvas).pixels@[k] == old(canvas).pixels@[k],
{
    proof {
        broadcast use vstd::std_specs::hash::group_hash_axioms;
    }
    let tex = match textures.get(&o.texture_id) {
        Some(t) => t,
        None => {
            return ;
        },
    };
    assert(textures@.contains_key(o.texture_id) && textures@[o.texture_id] == *tex);
    let rd = o.real_distance;
    let lift: i64 = 2 * (p.height - o.z) + o.height as i64;
    assert(-0x10_0000_0000_0000 <= DIST_TO_PLANE * lift * FIX <= 0x10_0000_0000_0000) by (nonlinear_arith)
        requires
            -0x40_0000 <= lift <= 0x40_0000,
    ;
    let bq = div_trunc((DIST_TO_PLANE * lift * FIX) as i128, (2 * rd) as i128);
    assert(abs(bq as int) <= 0x4000_0000) by (nonlinear_arith)
        requires
            abs(bq as int) * abs(2 * rd) <= abs(DIST_TO_PLANE * lift * FIX),
            -0x40_0000 <= lift <= 0x40_0000,
            rd > FIX,
    ;
    let bottom = bq as i64 + p.ycenter;
    let real_h = div_trunc((DIST_TO_PLANE * (o.height as i64) * FIX) as i128, rd as i128) as i64;
    assert(0 <= real_h <= DIST_TO_PLANE * 255) by (nonlinear_arith)
        requires
            real_h == tdiv(DIST_TO_PLANE * (o.height as int) * FIX, rd as int),
            abs(real_h as int) * abs(rd as int) <= abs(DIST_TO_PLANE * (o.height as int) * FIX),
            rd > FIX,
            0 <= o.height <= 255,
    ;
    let top = bottom - real_h;
    assert(bottom == sprite_bottom(*o, *p));
    assert(top == sprite_top(*o, *p));
    let delta: i64 = if p.arc > ANGLE270 && o.angle < ANGLE90 {
        -(o.angle + ANGLE360 - p.arc)
    } else if o.angle > ANGLE270 && p.arc < ANGLE90 {
        p.arc + ANGLE360 - o.angle
    } else {
        p.arc - o.angle
    };
    let center = (ANGLE30 - delta) * FIX;
    assert(0 <= (o.width as i64) * DIST_TO_PLANE * FIX * FIX <= 0x100_0000_0000_0000) by (nonlinear_arith)
        requires
            0 <= o.width <= 255,
    ;
    let total = div_trunc(((o.width as i64) * DIST_TO_PLANE * FIX * FIX) as i128, rd as i128) as i64;
    assert(total <= 0x100_0000_0000) by (nonlinear_arith)
        requires
            0 <= total,
            total * rd <= 0x100_0000_0000_0000,
            rd > FIX,
    ;
    assert(total == sprite_total(*o));
    let half = total / 2;
    if total > FIX && center < PLANE_WIDTH * FIX + half && (center > 0 || center > -half) {
        let lo = center - half;
        let hi = center + half;
        let min_col: i64 = if lo < 0 {
            0
        } else {
            lo / FIX
        };
        let max_col: i64 = if hi > PLANE_WIDTH * FIX {
            PLANE_WIDTH
        } else {
            hi / FIX
        };
        assert(min_col == sprite_min_col(*o, *p));
        assert(max_col == sprite_max_col(*o, *p));
        assert(0 <= (o.texture_width as i64) * FIX * FIX <= 255 * FIX * FIX) by (nonlinear_arith)
            requires
                0 <= o.texture_width <= 255,
        ;
        let increment = div_trunc(((o.texture_width as i64) * FIX * FIX) as i128, total as i128) as i64;
        assert(increment <= 255 * FIX) by (nonlinear_arith)
            requires
                0 <= increment,
                increment * total <= 255 * FIX * FIX,
                total > FIX,
        ;
        assert(increment == sprite_increment(*o));
        let start: i64 = if lo <= 0 {
            assert(0 <= total - lo <= 0x200_0000_0000);
            assert(0 <= ((total - lo) / (FIX as int)) * increment <= 0x200_0000 * (255 * FIX)) by (nonlinear_arith)
                requires
                    0 <= total - lo <= 0x200_0000_0000,
                    0 <= increment <= 255 * FIX,
            ;
            ((total - lo) / FIX) * increment
        } else {
            0
        };
        assert(start == sprite_start(*o, *p));
        let cols = visible_columns(distances, rd, min_col, max_col);
        let mut k: usize = 0;
        while k < cols.len()
            invariant
                canvas.wf(),
                canvas.same_shape(old(canvas)),
                canvas.width >= PLANE_WIDTH,
                forall|q: int| 0 <= q < cols@.len() ==> min_col <= #[trigger] cols@[q] < max_col
                    && distances@[cols@[q] as int] > rd,
                forall|a: int, b: int| 0 <= a < b < cols@.len() ==> cols@[a] < cols@[b],
                0 <= k <= cols@.len(),
                distances@.len() == PLANE_WIDTH,
                rd == o.real_distance,
                0 <= min_col,
                max_col <= PLANE_WIDTH,
                min_col == sprite_min_col(*o, *p),
                max_col == sprite_max_col(*o, *p),
                sprite_shown(*o, *p),
                textures@.contains_key(o.texture_id) && textures@[o.texture_id] == *tex,
                top == sprite_top(*o, *p),
                bottom == sprite_bottom(*o, *p),
                start == sprite_start(*o, *p),
                increment == sprite_increment(*o),
                0 <= increment <= 255 * FIX,
                0 <= start <= 0x10_0000_0000_0000,
                -0x8000_0000 <= top <= 0x8000_0000,
                -0x8000_0000 <= bottom <= 0x8000_0000,
                rd > FIX,
                forall|j: int|
                    0 <= j < canvas.pixels@.len() ==> #[trigger] canvas.pixels@[j] == if cols@.subrange(0, k as int).contains(
                        old(canvas).column_of(j) as i64,
                    ) {
                        match object_byte(*old(canvas), textures@, *o, *p, distances@, j) {
                            Some(b) => b,
                            None => old(canvas).pixels@[j],
                        }
                    } else {
                        old(canvas).pixels@[j]
                    },
            decreases cols@.len() - k,
        {
            let c = cols[k];
            assert(0 <= (c - min_col) * increment <= PLANE_WIDTH * (255 * FIX)) by (nonlinear_arith)
                requires
                    0 <= c - min_col <= PLANE_WIDTH,
                    0 <= increment <= 255 * FIX,
            ;
            let x_image = start + (c - min_col) * increment;
            let ghost before = *canvas;
            canvas.draw_slice(tex, c, top, bottom - top + 1, x_image / FIX, LIGHT_VERTICAL, rd / FIX);
            proof {
                assert(x_image / FIX == sprite_x_offset(*o, *p, c as int));
                assert forall|j: int| 0 <= j < canvas.pixels@.len() implies #[trigger] canvas.pixels@[j] == if cols@.subrange(0, k + 1).contains(
                    old(canvas).column_of(j) as i64,
                ) {
                    match object_byte(*old(canvas), textures@, *o, *p, distances@, j) {
                        Some(b) => b,
                        None => old(canvas).pixels@[j],
                    }
                } else {
                    old(canvas).pixels@[j]
                } by {
                    let cj = old(canvas).column_of(j);
                    assert(before.column_of(j) == cj);
                    assert(before.pixels@.len() == canvas.pixels@.len());
                    assert(before.pixels@[j] == if cols@.subrange(0, k as int).contains(cj as i64) {
                        match object_byte(*old(canvas), textures@, *o, *p, distances@, j) {
                            Some(b) => b,
                            None => old(canvas).pixels@[j],
                        }
                    } else {
                        old(canvas).pixels@[j]
                    });
                    assert(canvas.pixels@[j] == match slice_byte(before, *tex, c as int, top as int, bottom - top + 1, x_image / FIX, LIGHT_VERTICAL as int, rd / FIX, slice_rows(top as int, bottom - top + 1, before.height as int), j) {
                        Some(b) => b,
                        None => before.pixels@[j],
                    });
                    crate::canvas::lemma_pixel_of(old(canvas).width as int, j);
                    assert(cols@.subrange(0, k + 1) =~= cols@.subrange(0, k as int).push(c));
                    if cj == c {
                        assert(cols@.subrange(0, k + 1)[k as int] == c);
                        assert(cols@.subrange(0, k + 1).contains(cj as i64));
                        assert(!cols@.subrange(0, k as int).contains(c)) by {
                            if cols@.subrange(0, k as int).contains(c) {
                                let q = choose|q: int| 0 <= q < k && cols@.subrange(0, k as int)[q] == c;
                                assert(cols@[q] < cols@[k as int]);
                            }
                        }
                        assert(slice_byte(before, *tex, c as int, top as int, bottom - top + 1, x_image / FIX, LIGHT_VERTICAL as int, rd / FIX, slice_rows(top as int, bottom - top + 1, before.height as int), j)
                            == object_byte(*old(canvas), textures@, *o, *p, distances@, j));
                    } else {
                        assert(cols@.subrange(0, k + 1).contains(cj as i64) == cols@.subrange(0, k as int).contains(cj as i64));
                        assert(slice_byte(before, *tex, c as int, top as int, bottom - top + 1, x_image / FIX, LIGHT_VERTICAL as int, rd / FIX, slice_rows(top as int, bottom - top + 1, before.height as int), j) is None);
                    }
                }
            }
            k = k + 1;
        }
        proof {
            assert forall|j: int| 0 <= j < canvas.pixels@.len() implies #[trigger] canvas.pixels@[j] == match object_byte(
                *old(canvas), textures@, *o, *p, distances@, j) {
                Some(b) => b,
                None => old(canvas).pixels@[j],
            } by {
                assert(cols@.subrange(0, cols@.len() as int) =~= cols@);
                let cj = old(canvas).column_of(j);
                crate::canvas::lemma_pixel_of(old(canvas).width as int, j);
                if !cols@.contains(cj as i64) {
                    if min_col <= cj < max_col && distances@[cj] > rd {
                        assert(cols@.contains(cj as i64));
                    }
                }
            }
            assert forall|j: int| 0 <= j < canvas.pixels@.len() && hidden_at(distances@, o.real_distance as int, #[trigger] canvas.column_of(j))
                implies canvas.pixels@[j] == old(canvas).pixels@[j] by {
                assert(canvas.column_of(j) == old(canvas).column_of(j));
            }
        }
    }
}

/// Draws the objects in view, farthest first, after recomputing where each
/// is from the player: the canvas is the old one with the objects drawn in
/// an order that lists each object in view once, farthest first, each
/// overwriting what it draws, and where every object is hidden in a column
/// that column keeps its bytes.
#[verifier::rlimit(60)]
pub fn draw_objects(
    canvas: &mut Canvas,
    textures: &HashMap<u32, Texture>,
    objs: &mut Vec<Drawable>,
    t: &Tables,
    m: &TileMap,
    p: &Player,
    distances: &Vec<i64>,
)
    requires
        old(canvas).wf(),
        old(canvas).width >= PLANE_WIDTH,
        t.wf(),
        m.wf(),
        player_ok(*m, *p),
        forall|i: int| 0 <= i < old(objs)@.len() ==> #[trigger] old(objs)@[i].wf(),
        distances@.len() == PLANE_WIDTH,
    ensures
        final(canvas).wf(),
        final(canvas).same_shape(old(canvas)),
        final(objs)@.len() == old(objs)@.len(),
        forall|i: int|
            0 <= i < final(objs)@.len() ==> {
                let o = old(objs)@[i];
                let n = #[trigger] final(objs)@[i];
                &&& n.wf()
                &&& n == Drawable { real_distance: n.real_distance, angle: n.angle, ..o }
                &&& is_distance(n.real_distance as int, p.x - o.x, p.y - o.y)
                &&& is_arc_toward(*t, o.x - p.x, o.y - p.y, n.angle as int)
            },
        exists|ord: Seq<usize>|
            #[trigger] drawn_as(*old(canvas), *final(canvas), textures@, final(objs)@, *p, distances@, ord),
        forall|k: int|
            0 <= k < final(canvas).pixels@.len() && (forall|i: int|
                0 <= i < final(objs)@.len() ==> hidden_at(
                    distances@,
                    #[trigger] final(objs)@[i].real_distance as int,
                    final(canvas).column_of(k),
                )) ==> #[trigger] final(canvas).pixels@[k] == old(canvas).pixels@[k],
{
    proof {
        assert(m.width * crate::tables::TILE <= crate::world::MAX_SIDE * crate::tables::TILE);
        assert(m.height * crate::tables::TILE <= crate::world::MAX_SIDE * crate::tables::TILE);
    }
    locate_objects(objs, t, p.x, p.y);
    let visible_idx = visible_objects(objs, p.arc);
    let order = depth_order(objs, &visible_idx);
    proof {
        assert(visible_idx@.no_duplicates()) by {
            assert forall|a: int, b: int| 0 <= a < visible_idx@.len() && 0 <= b < visible_idx@.len() && a != b
                implies visible_idx@[a] != visible_idx@[b] by {
                if a < b {
                    assert(visible_idx@[a] < visible_idx@[b]);
                } else {
                    assert(visible_idx@[b] < visible_idx@[a]);
                }
            }
        }
        visible_idx@.lemma_multiset_has_no_duplicates();
        order@.lemma_multiset_has_no_duplicates_conv();
        assert forall|q: int| 0 <= q < order@.len() implies #[trigger] order@[q] < objs@.len() && visible(objs@[order@[q] as int], p.arc as int) by {
            assert(order@.to_multiset().count(order@[q]) > 0);
            assert(visible_idx@.contains(order@[q]));
        }
        assert forall|i: int| 0 <= i < objs@.len() && visible(#[trigger] objs@[i], p.arc as int) implies order@.contains(i as usize) by {
            assert(visible_idx@.contains(i as usize));
            assert(visible_idx@.to_multiset().count(i as usize) > 0);
        }
    }
    let mut k: usize = 0;
    while k < order.len()
        invariant
            canvas.wf(),
            canvas.same_shape(old(canvas)),
            canvas.width >= PLANE_WIDTH,
            player_ok(*m, *p),
            distances@.len() == PLANE_WIDTH,
            0 <= k <= order@.len(),
            draw_order(objs@, p.arc as int, order@),
            forall|q: int| 0 <= q < objs@.len() ==> #[trigger] objs@[q].wf(),
            forall|j: int|
                0 <= j < canvas.pixels@.len() ==> #[trigger] canvas.pixels@[j] == after_objects(
                    *old(canvas),
                    textures@,
                    objs@,
                    *p,
                    distances@,
                    order@,
                    k as int,
                    j,
                ),
            forall|j: int|
                0 <= j < canvas.pixels@.len() && (forall|i: int|
                    0 <= i < objs@.len() ==> hidden_at(
                        distances@,
                        #[trigger] objs@[i].real_distance as int,
                        canvas.column_of(j),
                    )) ==> #[trigger] canvas.pixels@[j] == old(canvas).pixels@[j],
        decreases order@.len() - k,
    {
        let i = order[k];
        assert(order@[k as int] < objs@.len() && visible(objs@[i as int], p.arc as int));
        let ghost before = *canvas;
        draw_object(canvas, textures, &objs[i], p, distances);
        proof {
            assert forall|j: int| 0 <= j < canvas.pixels@.len() implies #[trigger] canvas.pixels@[j] == after_objects(
                *old(canvas), textures@, objs@, *p, distances@, order@, k + 1, j) by {
                assert(object_byte(before, textures@, objs@[i as int], *p, distances@, j)
                    == object_byte(*old(canvas), textures@, objs@[i as int], *p, distances@, j));
            }
            assert forall|j: int|
                0 <= j < canvas.pixels@.len() && (forall|q: int|
                    0 <= q < objs@.len() ==> hidden_at(
                        distances@,
                        #[trigger] objs@[q].real_distance as int,
                        canvas.column_of(j),
                    )) implies #[trigger] canvas.pixels@[j] == old(canvas).pixels@[j] by {
                assert(canvas.column_of(j) == before.column_of(j));
                assert(hidden_at(distances@, objs@[i as int].real_distance as int, canvas.column_of(j)));
            }
        }
        k = k + 1;
    }
    assert(drawn_as(*old(canvas), *canvas, textures@, objs@, *p, distances@, order@));
}

} // verus!
