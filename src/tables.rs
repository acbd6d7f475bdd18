//! The trigonometric table bank, indexed by arc units: one arc unit is the
//! angle between two neighbouring screen columns, so that the 60-degree field
//! of view spans the 320 columns of the projection plane.
use vstd::prelude::*;
use crate::fixed::{FIX, BIG, tdiv, abs, div_trunc};

verus! {

/// Width of the projection plane, in columns.
pub const PLANE_WIDTH: i64 = 320;
/// Height of the projection plane, in rows.
pub const PLANE_HEIGHT: i64 = 200;
/// Distance from the player to the projection plane, in pixels.
pub const DIST_TO_PLANE: i64 = 277;
/// Side of a map tile, in pixels.
pub const TILE: i64 = 64;
/// Height of a wall, in pixels.
pub const WALL_HEIGHT: i64 = 64;

pub const ANGLE5: i64 = 26;
pub const ANGLE30: i64 = 160;
pub const ANGLE60: i64 = 320;
pub const ANGLE90: i64 = 480;
pub const ANGLE180: i64 = 960;
pub const ANGLE270: i64 = 1440;
pub const ANGLE360: i64 = 1920;

/// Number of entries of the per-arc tables: arcs 0 to `ANGLE360`.
pub const ARCS: usize = 1921;
/// Number of entries of the fisheye table: relative arcs -30 to +30 degrees.
pub const FISH_ARCS: usize = 321;

/// Reciprocal in fixed point, `BIG` where `v` is zero.
pub open spec fn recip(v: int) -> int {
    if v == 0 {
        BIG as int
    } else {
        tdiv(BIG as int, v)
    }
}

/// Tangent from sine and cosine in fixed point.
pub open spec fn tan_of(s: int, c: int) -> int {
    if c == 0 {
        if s >= 0 {
            BIG as int
        } else {
            -BIG
        }
    } else {
        tdiv(s * FIX, c)
    }
}

/// A ray at arc `a` goes toward smaller x.
pub open spec fn faces_left(a: int) -> bool {
    ANGLE90 <= a < ANGLE270
}

/// A ray at arc `a` goes toward larger y (y grows down the screen).
pub open spec fn faces_down(a: int) -> bool {
    0 <= a < ANGLE180
}

/// `v` with the sign given by `negative`.
pub open spec fn signed(v: int, negative: bool) -> int {
    if negative {
        -abs(v)
    } else {
        abs(v)
    }
}

/// The x distance between two crossings of horizontal grid lines.
pub open spec fn xstep_of(s: int, c: int, a: int) -> int {
    signed(TILE * recip(tan_of(s, c)), faces_left(a))
}

/// The y distance between two crossings of vertical grid lines.
pub open spec fn ystep_of(s: int, c: int, a: int) -> int {
    signed(TILE * tan_of(s, c), !faces_down(a))
}

/// Sine and cosine in fixed point whose squares sum to one within the
/// rounding of the samples: `|s² + c² - FIX²| <= 4 FIX`.
pub open spec fn unit_pair(s: int, c: int) -> bool {
    -4 * FIX <= s * s + c * c - FIX * FIX <= 4 * FIX
}

pub open spec fn samples_ok(sin: Seq<i64>, cos: Seq<i64>, fish_cos: Seq<i64>) -> bool {
    &&& sin.len() == ARCS
    &&& cos.len() == ARCS
    &&& fish_cos.len() == FISH_ARCS
    &&& forall|i: int| 0 <= i < ARCS ==> -FIX <= #[trigger] sin[i] <= FIX
    &&& forall|i: int| 0 <= i < ARCS ==> -FIX <= #[trigger] cos[i] <= FIX
    &&& forall|i: int| 0 <= i < ARCS ==> unit_pair(#[trigger] sin[i] as int, cos[i] as int)
    &&& forall|i: int| 0 <= i < FISH_ARCS ==> 1 <= #[trigger] fish_cos[i] <= FIX
}

/// Lookup tables over arc units, in fixed point.
pub struct Tables {
    pub sin: Vec<i64>,
    pub cos: Vec<i64>,
    pub tan: Vec<i64>,
    pub isin: Vec<i64>,
    pub icos: Vec<i64>,
    pub itan: Vec<i64>,
    pub xstep: Vec<i64>,
    pub ystep: Vec<i64>,
    pub fish: Vec<i64>,
}

impl Tables {
    /// Each table is derived from the sampled sine and cosine as its spec
    /// function says.
    pub open spec fn wf(&self) -> bool {
        &&& self.sin@.len() == ARCS
        &&& self.cos@.len() == ARCS
        &&& self.tan@.len() == ARCS
        &&& self.isin@.len() == ARCS
        &&& self.icos@.len() == ARCS
        &&& self.itan@.len() == ARCS
        &&& self.xstep@.len() == ARCS
        &&& self.ystep@.len() == ARCS
        &&& self.fish@.len() == FISH_ARCS
        &&& forall|i: int|
            0 <= i < ARCS ==> {
                &&& -FIX <= #[trigger] self.sin@[i] <= FIX
                &&& -FIX <= self.cos@[i] <= FIX
                &&& unit_pair(self.sin@[i] as int, self.cos@[i] as int)
                &&& self.tan@[i] == tan_of(self.sin@[i] as int, self.cos@[i] as int)
                &&& self.isin@[i] == recip(self.sin@[i] as int)
                &&& self.icos@[i] == recip(self.cos@[i] as int)
                &&& self.itan@[i] == recip(self.tan@[i] as int)
                &&& self.xstep@[i] == xstep_of(self.sin@[i] as int, self.cos@[i] as int, i)
                &&& self.ystep@[i] == ystep_of(self.sin@[i] as int, self.cos@[i] as int, i)
                &&& -BIG <= self.tan@[i] <= BIG
                &&& -BIG <= self.isin@[i] <= BIG
                &&& -BIG <= self.icos@[i] <= BIG
                &&& -BIG <= self.itan@[i] <= BIG
                &&& -TILE * BIG <= self.xstep@[i] <= TILE * BIG
                &&& -TILE * BIG <= self.ystep@[i] <= TILE * BIG
            }
        &&& forall|i: int| 0 <= i < FISH_ARCS ==> FIX <= #[trigger] self.fish@[i] <= BIG
    }

    /// Builds the tables from the sine and cosine of each arc unit (taken
    /// with a small offset that keeps them off exact zeros) and the cosine
    /// of each relative arc of the field of view; `None` where a sample is
    /// out of range or a table has the wrong length.
    pub fn from_samples(sin: Vec<i64>, cos: Vec<i64>, fish_cos: Vec<i64>) -> (r: Option<Tables>)
        ensures
            r is Some <==> samples_ok(sin@, cos@, fish_cos@),
            r matches Some(t) ==> t.wf() && t.sin@ == sin@ && t.cos@ == cos@ && forall|i: int|
                0 <= i < FISH_ARCS ==> #[trigger] t.fish@[i] == tdiv(BIG as int, fish_cos@[i] as int),
    {
        if sin.len() != ARCS || cos.len() != ARCS || fish_cos.len() != FISH_ARCS {
            return None;
        }
        let mut k: usize = 0;
        while k < ARCS
            invariant
                0 <= k <= ARCS,
                sin@.len() == ARCS,
                cos@.len() == ARCS,
                forall|i: int| 0 <= i < k ==> -FIX <= #[trigger] sin@[i] <= FIX,
                forall|i: int| 0 <= i < k ==> -FIX <= #[trigger] cos@[i] <= FIX,
                forall|i: int| 0 <= i < k ==> unit_pair(#[trigger] sin@[i] as int, cos@[i] as int),
            decreases ARCS - k,
        {
            if sin[k] < -FIX || sin[k] > FIX || cos[k] < -FIX || cos[k] > FIX {
                return None;
            }
            let sk = sin[k];
            let ck = cos[k];
            assert(0 <= sk * sk <= FIX * FIX && 0 <= ck * ck <= FIX * FIX) by (nonlinear_arith)
                requires
                    -FIX <= sk <= FIX,
                    -FIX <= ck <= FIX,
            ;
            let sq = sk * sk + ck * ck - FIX * FIX;
            if sq < -4 * FIX || sq > 4 * FIX {
                return None;
            }
            k = k + 1;
        }
        let mut k: usize = 0;
        while k < FISH_ARCS
            invariant
                0 <= k <= FISH_ARCS,
                fish_cos@.len() == FISH_ARCS,
                forall|i: int| 0 <= i < k ==> 1 <= #[trigger] fish_cos@[i] <= FIX,
            decreases FISH_ARCS - k,
        {
            if fish_cos[k] < 1 || fish_cos[k] > FIX {
                return None;
            }
            k = k + 1;
        }
        let mut tan: Vec<i64> = Vec::new();
        let mut isin: Vec<i64> = Vec::new();
        let mut icos: Vec<i64> = Vec::new();
        let mut itan: Vec<i64> = Vec::new();
        let mut xstep: Vec<i64> = Vec::new();
        let mut ystep: Vec<i64> = Vec::new();
        let mut i: usize = 0;
        while i < ARCS
            invariant
                0 <= i <= ARCS,
                samples_ok(sin@, cos@, fish_cos@),
                tan@.len() == i,
                isin@.len() == i,
                icos@.len() == i,
                itan@.len() == i,
                xstep@.len() == i,
                ystep@.len() == i,
                forall|j: int|
                    0 <= j < i ==> {
                        &&& #[trigger] tan@[j] == tan_of(sin@[j] as int, cos@[j] as int)
                        &&& isin@[j] == recip(sin@[j] as int)
                        &&& icos@[j] == recip(cos@[j] as int)
                        &&& itan@[j] == recip(tan@[j] as int)
                        &&& xstep@[j] == xstep_of(sin@[j] as int, cos@[j] as int, j)
                        &&& ystep@[j] == ystep_of(sin@[j] as int, cos@[j] as int, j)
                        &&& -BIG <= tan@[j] <= BIG
                        &&& -BIG <= isin@[j] <= BIG
                        &&& -BIG <= icos@[j] <= BIG
                        &&& -BIG <= itan@[j] <= BIG
                        &&& -TILE * BIG <= xstep@[j] <= TILE * BIG
                        &&& -TILE * BIG <= ystep@[j] <= TILE * BIG
                    },
            decreases ARCS - i,
        {
            let s = sin[i];
            let c = cos[i];
            let t = tan_fix(s, c);
            let it = recip_fix(t);
            tan.push(t);
            isin.push(recip_fix(s));
            icos.push(recip_fix(c));
            itan.push(it);
            let xs = TILE * it;
            let ys = TILE * t;
            let xa = if xs < 0 {
                -xs
            } else {
                xs
            };
            let ya = if ys < 0 {
                -ys
            } else {
                ys
            };
            let left = ANGLE90 as usize <= i && i < ANGLE270 as usize;
            let down = i < ANGLE180 as usize;
            xstep.push(
                if left {
                    -xa
                } else {
                    xa
                },
            );
            ystep.push(
                if down {
                    ya
                } else {
                    -ya
                },
            );
            i = i + 1;
        }
        let mut fish: Vec<i64> = Vec::new();
        let mut j: usize = 0;
        while j < FISH_ARCS
            invariant
                0 <= j <= FISH_ARCS,
                samples_ok(sin@, cos@, fish_cos@),
                fish@.len() == j,
                forall|k: int|
                    0 <= k < j ==> #[trigger] fish@[k] == tdiv(BIG as int, fish_cos@[k] as int)
                        && FIX <= fish@[k] <= BIG,
            decreases FISH_ARCS - j,
        {
            let c = fish_cos[j];
            let f = div_trunc(BIG as i128, c as i128);
            assert(BIG as int / (c as int) >= FIX) by (nonlinear_arith)
                requires
                    1 <= c <= FIX,
            ;
            fish.push(f as i64);
            j = j + 1;
        }
        Some(Tables { sin, cos, tan, isin, icos, itan, xstep, ystep, fish })
    }
}

/// At every arc unit the tables' sine and cosine lie on the unit circle, up
/// to the rounding of the samples: `sin² + cos²` is `FIX²` within `4 FIX`.
pub proof fn lemma_unit_circle(t: Tables, a: int)
    requires
        t.wf(),
        0 <= a < ARCS,
    ensures
        -4 * FIX <= t.sin@[a] * t.sin@[a] + t.cos@[a] * t.cos@[a] - FIX * FIX <= 4 * FIX,
{
    assert(-FIX <= t.sin@[a] <= FIX);
}

/// Fixed-point reciprocal; `BIG` for zero.
fn recip_fix(v: i64) -> (r: i64)
    requires
        -BIG <= v <= BIG,
    ensures
        r == recip(v as int),
        -BIG <= r <= BIG,
{
    if v == 0 {
        BIG
    } else {
        div_trunc(BIG as i128, v as i128) as i64
    }
}

/// Fixed-point tangent of the angle with sine `s` and cosine `c`.
fn tan_fix(s: i64, c: i64) -> (r: i64)
    requires
        -FIX <= s <= FIX,
        -FIX <= c <= FIX,
    ensures
        r == tan_of(s as int, c as int),
        -BIG <= r <= BIG,
{
    if c == 0 {
        if s >= 0 {
            BIG
        } else {
            -BIG
        }
    } else {
        assert(-BIG <= s * FIX <= BIG) by (nonlinear_arith)
            requires
                -FIX <= s <= FIX,
        ;
        div_trunc((s as i128) * (FIX as i128), c as i128) as i64
    }
}

} // verus!
