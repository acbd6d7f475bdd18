//! The pixel buffer and the drawing primitives on it.
use vstd::prelude::*;
use crate::color::{ChannelOrder, pixel_bytes, shade, shaded};
use crate::texture::Texture;
use std::collections::HashMap;

verus! {

/// Largest canvas side, in pixels.
pub const MAX_CANVAS_SIDE: u32 = 4096;
/// Bound on the coordinates handed to the drawing primitives.
pub const COORD_BOUND: i64 = 0x10_0000;
/// Bound on the heights of slices.
pub const SLICE_BOUND: i64 = 0x1_0000_0000;

/// A `width` by `height` buffer of 4-byte pixels, row by row, in the channel
/// order `order`.
pub struct Canvas {
    pub width: u32,
    pub height: u32,
    pub order: ChannelOrder,
    pub pixels: Vec<u8>,
}

impl Canvas {
    pub open spec fn wf(&self) -> bool {
        &&& 1 <= self.width <= MAX_CANVAS_SIDE
        &&& 1 <= self.height <= MAX_CANVAS_SIDE
        &&& self.pixels@.len() == self.width * self.height * 4
    }

    /// The same shape and channel order as `other`.
    pub open spec fn same_shape(&self, other: &Canvas) -> bool {
        &&& self.width == other.width
        &&& self.height == other.height
        &&& self.order == other.order
        &&& self.pixels@.len() == other.pixels@.len()
    }

    /// The screen column of byte `k`.
    pub open spec fn column_of(&self, k: int) -> int {
        (k / 4) % (self.width as int)
    }

    /// The bytes outside screen column `x` are those of `other`.
    pub open spec fn same_outside_column(&self, other: &Canvas, x: int) -> bool {
        forall|k: int|
            0 <= k < self.pixels@.len() && #[trigger] self.column_of(k) != x ==> self.pixels@[k]
                == other.pixels@[k]
    }

    /// A black, transparent canvas.
    pub fn new(width: u32, height: u32, order: ChannelOrder) -> (r: Canvas)
        requires
            1 <= width <= MAX_CANVAS_SIDE,
            1 <= height <= MAX_CANVAS_SIDE,
        ensures
            r.wf(),
            r.width == width,
            r.height == height,
            r.order == order,
            forall|i: int| 0 <= i < r.pixels@.len() ==> r.pixels@[i] == 0,
    {
        assert((width as u64) * (height as u64) * 4 <= 0x4000_0000u64) by (nonlinear_arith)
            requires
                width <= MAX_CANVAS_SIDE,
                height <= MAX_CANVAS_SIDE,
        ;
        let n = (width as usize) * (height as usize) * 4;
        let pixels = vec![0u8; n];
        Canvas { width, height, order, pixels }
    }

    /// Writes one pixel at byte `index`.
    pub fn put(&mut self, index: usize, alpha: u8, red: u8, green: u8, blue: u8)
        requires
            index + 4 <= old(self).pixels@.len(),
        ensures
            final(self).width == old(self).width,
            final(self).height == old(self).height,
            final(self).order == old(self).order,
            final(self).pixels@ == old(self).pixels@.subrange(0, index as int) + pixel_bytes(
                old(self).order,
                alpha,
                red,
                green,
                blue,
            ) + old(self).pixels@.subrange(index + 4, old(self).pixels@.len() as int),
    {
        let n = self.pixels.len();
        let (b0, b1, b2) = match self.order {
            ChannelOrder::Argb => (blue, green, red),
            ChannelOrder::Abgr => (red, green, blue),
        };
        self.pixels.set(index, b0);
        self.pixels.set(index + 1, green);
        self.pixels.set(index + 2, b2);
        self.pixels.set(index + 3, alpha);
        proof {
            assert(b1 == green);
            assert(final(self).pixels@ =~= old(self).pixels@.subrange(0, index as int) + pixel_bytes(
                old(self).order,
                alpha,
                red,
                green,
                blue,
            ) + old(self).pixels@.subrange(index + 4, old(self).pixels@.len() as int));
        }
    }

    pub proof fn lemma_len(&self)
        requires
            self.wf(),
        ensures
            self.pixels@.len() <= 0x400_0000,
    {
        assert(self.width * self.height * 4 <= 0x400_0000) by (nonlinear_arith)
            requires
                1 <= self.width <= MAX_CANVAS_SIDE,
                1 <= self.height <= MAX_CANVAS_SIDE,
        ;
    }

    /// Copies the four bytes of a pixel as they are, without reordering its
    /// channels.
    pub fn put_raw(&mut self, index: usize, b0: u8, b1: u8, b2: u8, b3: u8)
        requires
            index + 4 <= old(self).pixels@.len(),
        ensures
            final(self).width == old(self).width,
            final(self).height == old(self).height,
            final(self).order == old(self).order,
            final(self).pixels@ == old(self).pixels@.subrange(0, index as int) + seq![b0, b1, b2, b3]
                + old(self).pixels@.subrange(index + 4, old(self).pixels@.len() as int),
            final(self).pixels@.len() == old(self).pixels@.len(),
            forall|k: int|
                0 <= k < final(self).pixels@.len() ==> #[trigger] final(self).pixels@[k] == if index <= k
                    < index + 4 {
                    seq![b0, b1, b2, b3][k - index]
                } else {
                    old(self).pixels@[k]
                },
    {
        let n = self.pixels.len();
        self.pixels.set(index, b0);
        self.pixels.set(index + 1, b1);
        self.pixels.set(index + 2, b2);
        self.pixels.set(index + 3, b3);
        assert(self.pixels@ =~= old(self).pixels@.subrange(0, index as int) + seq![b0, b1, b2, b3]
            + old(self).pixels@.subrange(index + 4, old(self).pixels@.len() as int));
    }

    /// Writes a pixel at byte `index` where all its bytes are in the buffer.
    pub(crate) fn put_if_inside(&mut self, index: i64, alpha: u8, red: u8, green: u8, blue: u8)
        requires
            old(self).wf(),
        ensures
            final(self).wf(),
            final(self).same_shape(old(self)),
            forall|k: int|
                0 <= k < final(self).pixels@.len() && !(index <= k < index + 4)
                    ==> #[trigger] final(self).pixels@[k] == old(self).pixels@[k],
            0 <= index <= old(self).pixels@.len() - 4 ==> forall|k: int|
                index <= k < index + 4 ==> #[trigger] final(self).pixels@[k] == pixel_bytes(
                    old(self).order,
                    alpha,
                    red,
                    green,
                    blue,
                )[k - index],
    {
        proof {
            self.lemma_len();
        }
        if index >= 0 && index <= self.pixels.len() as i64 - 4 {
            self.put(index as usize, alpha, red, green, blue);
        }
    }

    /// The screen row of byte `k`.
    pub open spec fn row_of(&self, k: int) -> int {
        (k / 4) / (self.width as int)
    }

    /// Fills the part of the rectangle at `(x, y)` of `width` by `height`
    /// pixels that lies on the canvas: its pixels take the colour, the
    /// others keep theirs.
    #[verifier::rlimit(60)]
    pub fn fill_rectangle(
        &mut self,
        x: u32,
        y: u32,
        width: u32,
        height: u32,
        red: u8,
        green: u8,
        blue: u8,
        alpha: u8,
    )
        requires
            old(self).wf(),
        ensures
            final(self).wf(),
            final(self).same_shape(old(self)),
            forall|k: int|
                0 <= k < final(self).pixels@.len() ==> #[trigger] final(self).pixels@[k] == if in_rect(
                    final(self).column_of(k),
                    final(self).row_of(k),
                    x as int,
                    y as int,
                    width as int,
                    height as int,
                ) {
                    pixel_bytes(old(self).order, alpha, red, green, blue)[k % 4]
                } else {
                    old(self).pixels@[k]
                },
    {
        let ghost color = pixel_bytes(self.order, alpha, red, green, blue);
        let mut j: u32 = 0;
        while j < height
            invariant
                self.wf(),
                self.same_shape(old(self)),
                0 <= j <= height,
                color == pixel_bytes(self.order, alpha, red, green, blue),
                forall|k: int|
                    0 <= k < self.pixels@.len() ==> #[trigger] self.pixels@[k] == if painted(
                        self.column_of(k),
                        self.row_of(k),
                        x as int,
                        y as int,
                        width as int,
                        height as int,
                        j as int,
                        0,
                    ) {
                        color[k % 4]
                    } else {
                        old(self).pixels@[k]
                    },
            decreases height - j,
        {
            let py = y as u64 + j as u64;
            let mut i: u32 = 0;
            while i < width
                invariant
                    self.wf(),
                    self.same_shape(old(self)),
                    0 <= j < height,
                    0 <= i <= width,
                    py == y as u64 + j as u64,
                    color == pixel_bytes(self.order, alpha, red, green, blue),
                    forall|k: int|
                        0 <= k < self.pixels@.len() ==> #[trigger] self.pixels@[k] == if painted(
                            self.column_of(k),
                            self.row_of(k),
                            x as int,
                            y as int,
                            width as int,
                            height as int,
                            j as int,
                            i as int,
                        ) {
                            color[k % 4]
                        } else {
                            old(self).pixels@[k]
                        },
                decreases width - i,
            {
                let px = x as u64 + i as u64;
                let ghost before = self.pixels@;
                if px < self.width as u64 && py < self.height as u64 {
                    assert(py * self.width + px < self.width * self.height) by (nonlinear_arith)
                        requires
                            px < self.width,
                            py < self.height,
                    ;
                    proof {
                        self.lemma_len();
                    }
                    let idx = (py * (self.width as u64) + px) * 4;
                    self.put(idx as usize, alpha, red, green, blue);
                    proof {
                        assert forall|k: int| 0 <= k < self.pixels@.len() implies #[trigger] self.pixels@[k]
                            == if painted(
                            self.column_of(k),
                            self.row_of(k),
                            x as int,
                            y as int,
                            width as int,
                            height as int,
                            j as int,
                            i + 1,
                        ) {
                            color[k % 4]
                        } else {
                            old(self).pixels@[k]
                        } by {
                            lemma_pixel_of(self.width as int, k);
                            if idx <= k < idx + 4 {
                                lemma_pixel_bytes(self.width as int, px as int, py as int, k - idx);
                            } else {
                                assert(self.pixels@[k] == before[k]);
                                if self.column_of(k) == px && self.row_of(k) == py {
                                    assert(k / 4 == py * self.width + px) by (nonlinear_arith)
                                        requires
                                            k / 4 == self.width * self.row_of(k) + self.column_of(k),
                                            self.column_of(k) == px,
                                            self.row_of(k) == py,
                                    ;
                                }
                            }
                        }
                    }
                } else {
                    proof {
                        assert forall|k: int| 0 <= k < self.pixels@.len() implies #[trigger] self.pixels@[k]
                            == if painted(
                            self.column_of(k),
                            self.row_of(k),
                            x as int,
                            y as int,
                            width as int,
                            height as int,
                            j as int,
                            i + 1,
                        ) {
                            color[k % 4]
                        } else {
                            old(self).pixels@[k]
                        } by {
                            lemma_pixel_of(self.width as int, k);
                            lemma_row_below(self.width as int, self.height as int, k);
                        }
                    }
                }
                i = i + 1;
            }
            proof {
                assert forall|k: int| 0 <= k < self.pixels@.len() implies #[trigger] self.pixels@[k]
                    == if painted(
                    self.column_of(k),
                    self.row_of(k),
                    x as int,
                    y as int,
                    width as int,
                    height as int,
                    j + 1,
                    0,
                ) {
                    color[k % 4]
                } else {
                    old(self).pixels@[k]
                } by {
                    assert(painted(self.column_of(k), self.row_of(k), x as int, y as int, width as int, height as int, j as int, width as int)
                        == painted(self.column_of(k), self.row_of(k), x as int, y as int, width as int, height as int, j + 1, 0));
                }
            }
            j = j + 1;
        }
        proof {
            assert forall|k: int| 0 <= k < self.pixels@.len() implies painted(
                self.column_of(k),
                self.row_of(k),
                x as int,
                y as int,
                width as int,
                height as int,
                height as int,
                0,
            ) == in_rect(self.column_of(k), self.row_of(k), x as int, y as int, width as int, height as int) by {}
        }
    }

    /// Draws a line from `(start_x, start_y)` toward `(end_x, end_y)` with
    /// Bresenham's stepping, one pixel per step along the longer axis: the
    /// pixels at the byte offsets `line_of` lists take the colour where they
    /// are in the buffer, and every other byte keeps its value.
    #[verifier::rlimit(60)]
    pub fn draw_line(
        &mut self,
        start_x: i64,
        start_y: i64,
        end_x: i64,
        end_y: i64,
        red: u8,
        green: u8,
        blue: u8,
        alpha: u8,
    )
        requires
            old(self).wf(),
            -COORD_BOUND <= start_x <= COORD_BOUND,
            -COORD_BOUND <= start_y <= COORD_BOUND,
            -COORD_BOUND <= end_x <= COORD_BOUND,
            -COORD_BOUND <= end_y <= COORD_BOUND,
        ensures
            final(self).wf(),
            final(self).same_shape(old(self)),
            ({
                let line = line_of(old(self).width as int, start_x as int, start_y as int, end_x as int, end_y as int);
                let color = pixel_bytes(old(self).order, alpha, red, green, blue);
                &&& forall|q: int, j: int|
                    0 <= q < line.len() && 0 <= j < 4 && 0 <= line[q] <= old(self).pixels@.len() - 4
                        ==> #[trigger] final(self).pixels@[line[q] + j] == color[j]
                &&& forall|i: int|
                    0 <= i < old(self).pixels@.len() && (forall|q: int|
                        0 <= q < line.len() ==> !(#[trigger] line[q] <= i < line[q] + 4))
                        ==> final(self).pixels@[i] == old(self).pixels@[i]
            }),
    {
        let ghost line = line_of(self.width as int, start_x as int, start_y as int, end_x as int, end_y as int);
        let ghost color = pixel_bytes(self.order, alpha, red, green, blue);
        let w = self.width as i64;
        let mut dy = end_y - start_y;
        let y_increment: i64 = if dy < 0 {
            dy = -dy;
            -w * 4
        } else {
            w * 4
        };
        let mut dx = end_x - start_x;
        let x_increment: i64 = if dx < 0 {
            dx = -dx;
            -4
        } else {
            4
        };
        let mut error: i64 = 0;
        assert(-0x1_0000_0000_0000 <= 4 * w * start_y <= 0x1_0000_0000_0000) by (nonlinear_arith)
            requires
                1 <= w <= MAX_CANVAS_SIDE,
                -COORD_BOUND <= start_y <= COORD_BOUND,
        ;
        let mut target: i64 = 4 * w * start_y + 4 * start_x;
        proof {
            assert(target == 4 * (w * start_y + start_x)) by (nonlinear_arith)
                requires
                    target == 4 * w * start_y + 4 * start_x,
            ;
            assert((-w * 4) % 4 == 0 && (w * 4) % 4 == 0) by (nonlinear_arith)
                requires
                    w >= 1,
            {
                vstd::arithmetic::div_mod::lemma_fundamental_div_mod_converse(-w * 4, 4, -(w as int), 0);
                vstd::arithmetic::div_mod::lemma_fundamental_div_mod_converse(w * 4, 4, w as int, 0);
            }
            vstd::arithmetic::div_mod::lemma_fundamental_div_mod_converse(
                target as int,
                4,
                w * start_y + start_x,
                0,
            );
        }
        let (length, major, minor, major_inc, minor_inc) = if dx > dy {
            (dx, dx, dy, x_increment, y_increment)
        } else {
            (dy, dy, dx, y_increment, x_increment)
        };
        let ghost mut done: Seq<int> = Seq::empty();
        let mut k: i64 = 0;
        while k < length && target >= 0
            invariant
                self.wf(),
                self.same_shape(old(self)),
                0 <= k <= length,
                length == major,
                0 <= minor <= major <= 2 * COORD_BOUND,
                -4 * MAX_CANVAS_SIDE <= major_inc <= 4 * MAX_CANVAS_SIDE,
                -4 * MAX_CANVAS_SIDE <= minor_inc <= 4 * MAX_CANVAS_SIDE,
                (major_inc as int) % 4 == 0,
                (minor_inc as int) % 4 == 0,
                (target as int) % 4 == 0,
                0 <= error < major || error == 0,
                -0x2_0000_0000_0000 - k * 0x8002 <= target <= 0x2_0000_0000_0000 + k * 0x8002,
                color == pixel_bytes(self.order, alpha, red, green, blue),
                line == done + line_steps(
                    target as int,
                    error as int,
                    major as int,
                    minor as int,
                    major_inc as int,
                    minor_inc as int,
                    length - k,
                ),
                forall|q: int| 0 <= q < done.len() ==> #[trigger] done[q] % 4 == 0,
                forall|q: int, j: int|
                    0 <= q < done.len() && 0 <= j < 4 && 0 <= done[q] <= self.pixels@.len() - 4
                        ==> #[trigger] self.pixels@[done[q] + j] == color[j],
                forall|i: int|
                    0 <= i < self.pixels@.len() && (forall|q: int|
                        0 <= q < done.len() ==> !(#[trigger] done[q] <= i < done[q] + 4))
                        ==> self.pixels@[i] == old(self).pixels@[i],
            decreases length - k,
        {
            let ghost before = self.pixels@;
            let ghost t = target as int;
            self.put_if_inside(target, alpha, red, green, blue);
            proof {
                let d2 = done.push(t);
                assert forall|q: int, j: int|
                    0 <= q < d2.len() && 0 <= j < 4 && 0 <= d2[q] <= self.pixels@.len() - 4
                        implies #[trigger] self.pixels@[d2[q] + j] == color[j] by {
                    if q < done.len() {
                        assert(d2[q] == done[q]);
                        if t <= done[q] + j < t + 4 {
                            assert(done[q] % 4 == 0);
                            assert(done[q] == t);
                        } else {
                            assert(self.pixels@[done[q] + j] == before[done[q] + j]);
                        }
                    } else {
                        assert(d2[q] == t);
                    }
                }
                assert forall|i: int|
                    0 <= i < self.pixels@.len() && (forall|q: int|
                        0 <= q < d2.len() ==> !(#[trigger] d2[q] <= i < d2[q] + 4))
                        implies self.pixels@[i] == old(self).pixels@[i] by {
                    assert(!(d2[done.len() as int] <= i < d2[done.len() as int] + 4));
                    assert forall|q: int| 0 <= q < done.len() implies !(#[trigger] done[q] <= i < done[q] + 4) by {
                        assert(d2[q] == done[q]);
                    }
                }
                assert(d2[done.len() as int] % 4 == 0);
                assert forall|q: int| 0 <= q < d2.len() implies #[trigger] d2[q] % 4 == 0 by {
                    if q < done.len() {
                        assert(d2[q] == done[q]);
                    }
                }
                let rest = line_steps(
                    (if error + minor >= major { target + major_inc + minor_inc } else { target + major_inc }) as int,
                    (if error + minor >= major { error + minor - major } else { error + minor }) as int,
                    major as int,
                    minor as int,
                    major_inc as int,
                    minor_inc as int,
                    length - k - 1,
                );
                assert(done + line_steps(target as int, error as int, major as int, minor as int, major_inc as int, minor_inc as int, length - k)
                    =~= d2 + rest);
                done = d2;
                vstd::arithmetic::div_mod::lemma_add_mod_noop(target as int, major_inc as int, 4);
                vstd::arithmetic::div_mod::lemma_add_mod_noop(target + major_inc, minor_inc as int, 4);
            }
            target = target + major_inc;
            error = error + minor;
            if error >= major {
                error = error - major;
                target = target + minor_inc;
            }
            k = k + 1;
        }
        proof {
            assert(line_steps(target as int, error as int, major as int, minor as int, major_inc as int, minor_inc as int, length - k) =~= Seq::<int>::empty());
            assert(line =~= done);
        }
    }

    /// Draws a slice, as `draw_slice` does, of the texture with id `id`;
    /// where no texture has that id yet, the canvas keeps every byte.
    pub fn draw_texture_slice(
        &mut self,
        textures: &HashMap<u32, Texture>,
        id: u32,
        x: i64,
        y: i64,
        height: i64,
        x_offset: i64,
        light: i64,
        dist: i64,
    )
        requires
            old(self).wf(),
            -SLICE_BOUND <= y <= SLICE_BOUND,
            0 <= x < old(self).width,
            0 <= light <= 0x1_0000_0000,
        ensures
            final(self).wf(),
            final(self).same_shape(old(self)),
            final(self).same_outside_column(old(self), x as int),
            !textures@.contains_key(id) ==> final(self).pixels@ == old(self).pixels@,
            textures@.contains_key(id) ==> forall|i: int|
                0 <= i < final(self).pixels@.len() ==> #[trigger] final(self).pixels@[i] == match slice_byte(
                    *old(self),
                    textures@[id],
                    x as int,
                    y as int,
                    height as int,
                    x_offset as int,
                    light as int,
                    dist as int,
                    slice_rows(y as int, height as int, old(self).height as int),
                    i,
                ) {
                    Some(b) => b,
                    None => old(self).pixels@[i],
                },
    {
        proof {
            broadcast use vstd::std_specs::hash::group_hash_axioms;
        }
        match textures.get(&id) {
            Some(tex) => {
                self.draw_slice(tex, x, y, height, x_offset, light, dist);
            },
            None => {},
        }
    }

    /// Draws column `x` of a texture slice from row `y` down, `height` rows
    /// tall, reading texture column `x_offset` and stretching it to the
    /// height by accumulating an error term: each source row is repeated or
    /// skipped as the error crosses the texture's width, so that row `k` of
    /// the slice shows source row `stretch_row(k, width, height)`. Channels
    /// are scaled by `light / dist`; transparent texels, the canvas's first
    /// pixel and rows past its bottom are not drawn. Nothing is drawn for an
    /// invalid texture, a height below 1 or a distance below 1.
    #[verifier::rlimit(60)]
    #[verifier::spinoff_prover]
    pub fn draw_slice(
        &mut self,
        tex: &Texture,
        x: i64,
        y: i64,
        height: i64,
        x_offset: i64,
        light: i64,
        dist: i64,
    )
        requires
            old(self).wf(),
            -SLICE_BOUND <= y <= SLICE_BOUND,
            0 <= x < old(self).width,
            0 <= light <= 0x1_0000_0000,
        ensures
            final(self).wf(),
            final(self).same_shape(old(self)),
            final(self).same_outside_column(old(self), x as int),
            forall|i: int|
                0 <= i < final(self).pixels@.len() ==> #[trigger] final(self).pixels@[i] == match slice_byte(
                    *old(self),
                    *tex,
                    x as int,
                    y as int,
                    height as int,
                    x_offset as int,
                    light as int,
                    dist as int,
                    slice_rows(y as int, height as int, old(self).height as int),
                    i,
                ) {
                    Some(b) => b,
                    None => old(self).pixels@[i],
                },
    {
        if !tex.is_valid() || height < 1 || height > SLICE_BOUND || dist < 1 {
            return ;
        }
        let tw = tex.width as i64;
        proof {
            assert(tw * (tex.height as i64) * 4 >= 4) by (nonlinear_arith)
                requires
                    tw >= 1,
                    tex.height >= 1,
            ;
            assert(tex.width * tex.height * 4 <= 0x4_0000_0000) by (nonlinear_arith)
                requires
                    1 <= tex.width <= 65536,
                    1 <= tex.height <= 65536,
            ;
        }
        let dl = tex.data.len();
        let last: i64 = dl as i64 - 4;
        let start: i64 = if x_offset < 0 {
            0
        } else if x_offset > last / 4 {
            last
        } else {
            4 * x_offset
        };
        let mut source: i64 = start;
        let w = self.width as i64;
        let h = self.height as i64;
        assert(-0x10_0000_0000_0000 <= 4 * w * y <= 0x10_0000_0000_0000) by (nonlinear_arith)
            requires
                1 <= w <= MAX_CANVAS_SIDE,
                -SLICE_BOUND <= y <= SLICE_BOUND,
        ;
        let target0: i64 = 4 * w * y + 4 * x;
        proof {
            assert(target0 == (4 * w) * y + 4 * x) by (nonlinear_arith)
                requires
                    target0 == 4 * w * y + 4 * x,
            ;
            vstd::arithmetic::div_mod::lemma_fundamental_div_mod_converse(target0 as int, 4 * w, y as int, 4 * x);
        }
        let mut target: i64 = target0;
        let mut to_draw: i64 = if y + height > h {
            h - y
        } else {
            height
        };
        if to_draw < 1 {
            proof {
                assert forall|i: int| 0 <= i < self.pixels@.len() implies #[trigger] self.pixels@[i] == match slice_byte(
                    *old(self), *tex, x as int, y as int, height as int, x_offset as int, light as int,
                    dist as int, slice_rows(y as int, height as int, old(self).height as int), i) {
                    Some(b) => b,
                    None => old(self).pixels@[i],
                } by {}
            }
            return ;
        }
        let ghost total = to_draw;
        let mut error: i64 = 0;
        let ghost mut phi: int = to_draw * tw - error;
        let ghost mut m: int = 0;
        assert(4 * w * (total - to_draw) == 0 && (total - to_draw) * tw == 0 && m * height == 0)
            by (nonlinear_arith)
            requires
                total == to_draw,
                m == 0,
        ;
        loop
            invariant
                self.wf(),
                self.same_shape(old(self)),
                tex.valid(),
                tw == tex.width,
                1 <= tw <= 65536,
                1 <= height <= SLICE_BOUND,
                total == slice_rows(y as int, height as int, old(self).height as int),
                1 <= total <= 2 * SLICE_BOUND,
                dist >= 1,
                0 <= light <= 0x1_0000_0000,
                last == tex.data@.len() - 4,
                last + 4 == dl,
                0 <= last <= 0x4_0000_0000,
                start == slice_start(x_offset as int, last as int),
                0 <= m,
                source == clamp_to(start + 4 * tw * m, last as int),
                0 <= source <= last,
                1 <= to_draw <= total,
                0 <= error < tw,
                error + (total - to_draw) * tw == m * height,
                phi == to_draw * tw - error,
                -0x10_0000_0000_0000 - 4 * MAX_CANVAS_SIDE <= target0 <= 0x10_0000_0000_0000 + 4
                    * MAX_CANVAS_SIDE,
                target0 == 4 * w * y + 4 * x,
                target == target0 + 4 * w * (total - to_draw),
                w == self.width,
                1 <= w <= MAX_CANVAS_SIDE,
                0 <= x < w,
                (target as int) % (4 * w) == 4 * x,
                self.same_outside_column(old(self), x as int),
                forall|i: int|
                    0 <= i < self.pixels@.len() ==> #[trigger] self.pixels@[i] == match slice_byte(
                        *old(self),
                        *tex,
                        x as int,
                        y as int,
                        height as int,
                        x_offset as int,
                        light as int,
                        dist as int,
                        total - to_draw,
                        i,
                    ) {
                        Some(b) => b,
                        None => old(self).pixels@[i],
                    },
            decreases phi,
        {
            let ghost error_top = error;
            let ghost drawn_top = total - to_draw;
            proof {
                assert((m + 1) * height == m * height + height) by (nonlinear_arith);
            }
            error = error + height;
            let si = source as usize;
            let red = shade(tex.data[si], light, dist);
            let green = shade(tex.data[si + 1], light, dist);
            let blue = shade(tex.data[si + 2], light, dist);
            let alpha = tex.data[si + 3];
            while error >= tw
                invariant
                    self.wf(),
                    self.same_shape(old(self)),
                    tex.valid(),
                    tw == tex.width,
                    1 <= tw <= 65536,
                    0 <= error < tw + height,
                    1 <= height <= SLICE_BOUND,
                    total == slice_rows(y as int, height as int, old(self).height as int),
                    1 <= total <= 2 * SLICE_BOUND,
                    1 <= to_draw <= total,
                    dist >= 1,
                    0 <= light <= 0x1_0000_0000,
                    last == tex.data@.len() - 4,
                    start == slice_start(x_offset as int, last as int),
                    0 <= m,
                    source == clamp_to(start + 4 * tw * m, last as int),
                    0 <= source <= last,
                    si == source,
                    red == shaded(tex.data@[si as int], light as int, dist as int),
                    green == shaded(tex.data@[si + 1], light as int, dist as int),
                    blue == shaded(tex.data@[si + 2], light as int, dist as int),
                    alpha == tex.data@[si + 3],
                    phi - height == to_draw * tw - error,
                    error + (total - to_draw) * tw == (m + 1) * height,
                    0 <= error_top < tw,
                    error_top + drawn_top * tw == m * height,
                    drawn_top <= total - to_draw,
                    -0x10_0000_0000_0000 - 4 * MAX_CANVAS_SIDE <= target0 <= 0x10_0000_0000_0000
                        + 4 * MAX_CANVAS_SIDE,
                    target0 == 4 * w * y + 4 * x,
                    target == target0 + 4 * w * (total - to_draw),
                    w == self.width,
                    1 <= w <= MAX_CANVAS_SIDE,
                    0 <= x < w,
                    (target as int) % (4 * w) == 4 * x,
                    self.same_outside_column(old(self), x as int),
                    forall|i: int|
                        0 <= i < self.pixels@.len() ==> #[trigger] self.pixels@[i] == match slice_byte(
                            *old(self),
                            *tex,
                            x as int,
                            y as int,
                            height as int,
                            x_offset as int,
                            light as int,
                            dist as int,
                            total - to_draw,
                            i,
                        ) {
                            Some(b) => b,
                            None => old(self).pixels@[i],
                        },
                decreases error,
            {
                let ghost k = total - to_draw;
                proof {
                    assert((k + 1) * tw <= (m + 1) * height) by (nonlinear_arith)
                        requires
                            error + k * tw == (m + 1) * height,
                            error >= tw,
                    ;
                    assert(m * height < (k + 1) * tw) by (nonlinear_arith)
                        requires
                            error_top + drawn_top * tw == m * height,
                            error_top < tw,
                            drawn_top <= k,
                            tw >= 1,
                    ;
                    lemma_stretch_row(k, m, tw as int, height as int);
                    assert(target == 4 * (w * (y + k) + x)) by (nonlinear_arith)
                        requires
                            target == target0 + 4 * w * k,
                            target0 == 4 * w * y + 4 * x,
                    ;
                }
                error = error - tw;
                let ghost before = *self;
                if alpha != 0 && target > 0 {
                    self.put_if_inside(target, alpha, red, green, blue);
                }
                proof {
                    assert forall|i: int|
                        0 <= i < self.pixels@.len() && #[trigger] self.column_of(i) != x implies self.pixels@[i]
                            == old(self).pixels@[i] by {
                        if target <= i < target + 4 {
                            lemma_column_of(target as int, w as int, x as int, i - target);
                        }
                        assert(before.column_of(i) == self.column_of(i));
                    }
                    assert forall|i: int| 0 <= i < self.pixels@.len() implies #[trigger] self.pixels@[i] == match slice_byte(
                        *old(self), *tex, x as int, y as int, height as int, x_offset as int, light as int,
                        dist as int, k + 1, i) {
                        Some(b) => b,
                        None => old(self).pixels@[i],
                    } by {
                        lemma_pixel_of(w as int, i);
                        if target > 0 {
                            assert(y + k >= 0) by (nonlinear_arith)
                                requires
                                    target == 4 * (w * (y + k) + x),
                                    target > 0,
                                    0 <= x < w,
                            ;
                        }
                        assert(self.column_of(i) == before.column_of(i));
                        assert(self.row_of(i) == before.row_of(i));
                        assert(before.pixels@.len() == old(self).pixels@.len());
                        if self.column_of(i) == x && self.row_of(i) == y + k {
                            assert(i / 4 == w * (y + k) + x);
                            assert(target <= i < target + 4);
                            assert(slice_source(*tex, x_offset as int, k, height as int) == source) by {
                                assert(4 * tw * stretch_row(k, tw as int, height as int) == 4 * tw * m);
                            }
                            if alpha != 0 && target > 0 {
                                assert(target % 4 == 0);
                                assert(old(self).pixels@.len() % 4 == 0) by {
                                    assert(old(self).pixels@.len() == (old(self).width * old(self).height) * 4);
                                }
                                assert(target + 4 <= self.pixels@.len());
                                lemma_pixel_bytes(w as int, x as int, y + k, i - target);
                            }
                        } else {
                            if target <= i < target + 4 && alpha != 0 && target > 0 {
                                lemma_pixel_bytes(w as int, x as int, y + k, i - target);
                            }
                        }
                    }
                }
                proof {
                    assert(4 * w * (total - (to_draw - 1)) == 4 * w * (total - to_draw) + 4 * w)
                        by (nonlinear_arith);
                    assert(0 <= 4 * w * (total - to_draw) <= 4 * MAX_CANVAS_SIDE * (2 * SLICE_BOUND))
                        by (nonlinear_arith)
                        requires
                            1 <= w <= MAX_CANVAS_SIDE,
                            0 <= total - to_draw <= 2 * SLICE_BOUND,
                    ;
                    assert((to_draw - 1) * tw == to_draw * tw - tw) by (nonlinear_arith);
                    assert((total - (to_draw - 1)) * tw == (total - to_draw) * tw + tw) by (nonlinear_arith);
                }
                assert(-0x20_0000_0000_0000 <= target + 4 * w <= 0x20_0000_0000_0000)
                    by (nonlinear_arith)
                    requires
                        target == target0 + 4 * w * (total - to_draw),
                        1 <= w <= MAX_CANVAS_SIDE,
                        0 <= total - to_draw <= 2 * SLICE_BOUND,
                        -0x10_0000_0000_0000 - 4 * MAX_CANVAS_SIDE <= target0
                            <= 0x10_0000_0000_0000 + 4 * MAX_CANVAS_SIDE,
                ;
                proof {
                    vstd::arithmetic::div_mod::lemma_mod_add_multiples_vanish(target as int, 4 * w);
                }
                target = target + 4 * w;
                to_draw = to_draw - 1;
                if to_draw < 1 {
                    return ;
                }
            }
            proof {
                phi = phi - height;
                assert(to_draw * tw - error >= tw - error) by (nonlinear_arith)
                    requires
                        to_draw >= 1,
                        tw >= 1,
                ;
                assert(4 * tw * (m + 1) == 4 * tw * m + 4 * tw) by (nonlinear_arith);
                assert(4 * tw * m >= 0) by (nonlinear_arith)
                    requires
                        m >= 0,
                        tw >= 1,
                ;
                m = m + 1;
            }
            source = source + 4 * tw;
            if source > last {
                source = last;
            }
        }
    }
}

/// The byte offsets of the pixels a line visits: from `target`, at most `n`
/// steps, each `major_inc` along the longer axis and, where the error term
/// reaches `major`, `minor_inc` along the other; it stops at a negative
/// offset.
pub open spec fn line_steps(
    target: int,
    error: int,
    major: int,
    minor: int,
    major_inc: int,
    minor_inc: int,
    n: int,
) -> Seq<int>
    decreases n,
{
    if n <= 0 || target < 0 {
        Seq::empty()
    } else {
        let e = error + minor;
        let next = if e >= major {
            target + major_inc + minor_inc
        } else {
            target + major_inc
        };
        let rest = if e >= major {
            e - major
        } else {
            e
        };
        seq![target] + line_steps(next, rest, major, minor, major_inc, minor_inc, n - 1)
    }
}

/// The byte offsets of the pixels of the line from `(sx, sy)` toward
/// `(ex, ey)` on a canvas `w` pixels wide.
pub open spec fn line_of(w: int, sx: int, sy: int, ex: int, ey: int) -> Seq<int> {
    let dx = if ex - sx < 0 {
        sx - ex
    } else {
        ex - sx
    };
    let dy = if ey - sy < 0 {
        sy - ey
    } else {
        ey - sy
    };
    let xi = if ex - sx < 0 {
        -4
    } else {
        4
    };
    let yi = if ey - sy < 0 {
        -w * 4
    } else {
        w * 4
    };
    let t0 = 4 * w * sy + 4 * sx;
    if dx > dy {
        line_steps(t0, 0, dx, dy, xi, yi, dx)
    } else {
        line_steps(t0, 0, dy, dx, yi, xi, dy)
    }
}

/// The source row that row `k` of a slice `h` rows tall shows, for a
/// source `tw` rows tall.
pub open spec fn stretch_row(k: int, tw: int, h: int) -> int {
    ((k + 1) * tw - 1) / h
}

/// `v`, at most `last`.
pub open spec fn clamp_to(v: int, last: int) -> int {
    if v > last {
        last
    } else {
        v
    }
}

/// The byte of the texel a slice starts from: column `x_offset` of the
/// first row, within the texture.
pub open spec fn slice_start(x_offset: int, last: int) -> int {
    if x_offset < 0 {
        0
    } else if x_offset > last / 4 {
        last
    } else {
        4 * x_offset
    }
}

/// The byte of the texel that row `k` of a slice shows.
pub open spec fn slice_source(tex: Texture, x_offset: int, k: int, h: int) -> int {
    let last = tex.data@.len() - 4;
    clamp_to(slice_start(x_offset, last) + 4 * tex.width * stretch_row(k, tex.width as int, h), last)
}

/// The number of rows of a slice at row `y`, `height` tall, that are above
/// the bottom of a canvas `canvas_height` rows tall.
pub open spec fn slice_rows(y: int, height: int, canvas_height: int) -> int {
    if y + height > canvas_height {
        canvas_height - y
    } else {
        height
    }
}

/// What the first `rows` rows of a slice write into byte `i` of `c`, if
/// anything.
pub open spec fn slice_byte(
    c: Canvas,
    tex: Texture,
    x: int,
    y: int,
    height: int,
    x_offset: int,
    light: int,
    dist: int,
    rows: int,
    i: int,
) -> Option<u8> {
    let k = c.row_of(i) - y;
    let src = slice_source(tex, x_offset, k, height);
    if tex.valid() && 1 <= height <= SLICE_BOUND && dist >= 1 && c.column_of(i) == x && 0 <= k
        < rows && 4 * (c.width * c.row_of(i) + x) > 0 && tex.data@[src + 3] != 0 {
        Some(
            pixel_bytes(
                c.order,
                tex.data@[src + 3],
                shaded(tex.data@[src], light, dist) as u8,
                shaded(tex.data@[src + 1], light, dist) as u8,
                shaded(tex.data@[src + 2], light, dist) as u8,
            )[i % 4],
        )
    } else {
        None
    }
}

/// Row `k` of a slice `h` rows tall shows source row `m` when the error
/// term has passed `m` source rows and not `m + 1`.
pub proof fn lemma_stretch_row(k: int, m: int, tw: int, h: int)
    requires
        h >= 1,
        m * h < (k + 1) * tw <= (m + 1) * h,
    ensures
        stretch_row(k, tw, h) == m,
{
    let r = (k + 1) * tw - 1 - m * h;
    assert((k + 1) * tw - 1 == m * h + r);
    assert(0 <= r < h) by (nonlinear_arith)
        requires
            r == (k + 1) * tw - 1 - m * h,
            m * h < (k + 1) * tw <= (m + 1) * h,
    ;
    assert((k + 1) * tw - 1 == h * m + r) by (nonlinear_arith)
        requires
            (k + 1) * tw - 1 == m * h + r,
    ;
    vstd::arithmetic::div_mod::lemma_fundamental_div_mod_converse((k + 1) * tw - 1, h, m, r);
}

/// Pixel `(cx, ry)` is within the rectangle at `(x, y)` of `w` by `h`.
pub open spec fn in_rect(cx: int, ry: int, x: int, y: int, w: int, h: int) -> bool {
    x <= cx < x + w && y <= ry < y + h
}

/// Pixel `(cx, ry)` of the rectangle is filled once its rows before `j`,
/// and the pixels before `i` of row `j`, are.
pub open spec fn painted(cx: int, ry: int, x: int, y: int, w: int, h: int, j: int, i: int) -> bool {
    in_rect(cx, ry, x, y, w, h) && (ry < y + j || (ry == y + j && cx < x + i))
}

/// Byte `k` lies in the pixel of its row and column.
pub proof fn lemma_pixel_of(w: int, k: int)
    requires
        w >= 1,
        k >= 0,
    ensures
        k / 4 == w * ((k / 4) / w) + (k / 4) % w,
        0 <= (k / 4) % w < w,
        (k / 4) / w >= 0,
        4 * (k / 4) <= k < 4 * (k / 4) + 4,
{
    vstd::arithmetic::div_mod::lemma_fundamental_div_mod(k / 4, w);
    vstd::arithmetic::div_mod::lemma_fundamental_div_mod(k, 4);
    assert((k / 4) / w >= 0) by (nonlinear_arith)
        requires
            k / 4 >= 0,
            w >= 1,
    ;
}

/// The bytes of pixel `(px, py)` lie in its column and row.
pub proof fn lemma_pixel_bytes(w: int, px: int, py: int, j: int)
    requires
        0 <= px < w,
        0 <= py,
        0 <= j < 4,
    ensures
        ((4 * (py * w + px) + j) / 4) % w == px,
        ((4 * (py * w + px) + j) / 4) / w == py,
        (4 * (py * w + px) + j) % 4 == j,
{
    assert(py * w + px >= 0) by (nonlinear_arith)
        requires
            0 <= px,
            0 <= py,
            w >= 1,
    ;
    vstd::arithmetic::div_mod::lemma_fundamental_div_mod_converse(4 * (py * w + px) + j, 4, py * w + px, j);
    vstd::arithmetic::div_mod::lemma_fundamental_div_mod_converse(py * w + px, w, py, px);
}

/// The bytes of a canvas lie in rows above its height.
pub proof fn lemma_row_below(w: int, h: int, k: int)
    requires
        w >= 1,
        0 <= k < w * h * 4,
    ensures
        (k / 4) / w < h,
{
    lemma_pixel_of(w, k);
    assert((k / 4) / w < h) by (nonlinear_arith)
        requires
            k / 4 == w * ((k / 4) / w) + (k / 4) % w,
            0 <= (k / 4) % w,
            4 * (k / 4) <= k,
            k < w * h * 4,
            w >= 1,
    ;
}

/// A byte of a pixel that starts at `t`, where `t` lies in screen column `x`
/// of a canvas `w` pixels wide, lies in that column too.
pub proof fn lemma_column_of(t: int, w: int, x: int, j: int)
    requires
        t >= 0,
        0 <= x < w,
        t % (4 * w) == 4 * x,
        0 <= j < 4,
    ensures
        ((t + j) / 4) % w == x,
{
    let q = t / (4 * w);
    vstd::arithmetic::div_mod::lemma_fundamental_div_mod(t, 4 * w);
    assert(t + j == 4 * (w * q + x) + j) by (nonlinear_arith)
        requires
            t == (4 * w) * q + 4 * x,
    ;
    assert(w * q + x >= 0) by (nonlinear_arith)
        requires
            t >= 0,
            t == (4 * w) * q + 4 * x,
            0 <= x < w,
    {
        if q < 0 {
            assert((4 * w) * q <= -(4 * w)) by (nonlinear_arith)
                requires
                    q < 0,
                    w > 0,
            ;
        }
    }
    vstd::arithmetic::div_mod::lemma_fundamental_div_mod_converse(t + j, 4, w * q + x, j);
    vstd::arithmetic::div_mod::lemma_fundamental_div_mod_converse(w * q + x, w, q, x);
}

impl Canvas {
    /// The pixels as little-endian 32-bit words: with the `Argb` order,
    /// `0xAARRGGBB`.
    pub fn words(&self) -> (r: Vec<u32>)
        requires
            self.wf(),
        ensures
            r@.len() == self.width * self.height,
            forall|i: int|
                0 <= i < r@.len() ==> #[trigger] r@[i] == self.pixels@[4 * i] + self.pixels@[4 * i
                    + 1] * 0x100 + self.pixels@[4 * i + 2] * 0x1_0000 + self.pixels@[4 * i + 3]
                    * 0x100_0000,
    {
        let len = self.pixels.len();
        let n = len / 4;
        let mut out: Vec<u32> = Vec::new();
        let mut i: usize = 0;
        while i < n
            invariant
                0 <= i <= n,
                len == self.pixels@.len(),
                n * 4 == len,
                out@.len() == i,
                forall|k: int|
                    0 <= k < i ==> #[trigger] out@[k] == self.pixels@[4 * k] + self.pixels@[4 * k
                        + 1] * 0x100 + self.pixels@[4 * k + 2] * 0x1_0000 + self.pixels@[4 * k + 3]
                        * 0x100_0000,
            decreases n - i,
        {
            let b0 = self.pixels[4 * i] as u32;
            let b1 = self.pixels[4 * i + 1] as u32;
            let b2 = self.pixels[4 * i + 2] as u32;
            let b3 = self.pixels[4 * i + 3] as u32;
            out.push(b0 + b1 * 0x100 + b2 * 0x1_0000 + b3 * 0x100_0000);
            i = i + 1;
        }
        out
    }
}

} // verus!
