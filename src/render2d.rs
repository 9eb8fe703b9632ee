//! A minimal RGBA software canvas for simple 2D drawing.

use crate::frame::RenderFrame;
use vstd::arithmetic::div_mod::{lemma_fundamental_div_mod, lemma_fundamental_div_mod_converse};
use vstd::prelude::*;

verus! {

/// An RGBA colour: red, green, blue, alpha.
#[derive(Clone, Copy, Debug, PartialEq, Eq)]
pub struct Color(pub u8, pub u8, pub u8, pub u8);

/// Black, opaque.
pub fn black() -> (r: Color)
    ensures
        r == Color(0, 0, 0, 255),
{
    Color(0, 0, 0, 255)
}

/// White, opaque.
pub fn white() -> (r: Color)
    ensures
        r == Color(255, 255, 255, 255),
{
    Color(255, 255, 255, 255)
}

/// Crimson red, opaque.
pub fn red() -> (r: Color)
    ensures
        r == Color(220, 20, 60, 255),
{
    Color(220, 20, 60, 255)
}

/// Green, opaque.
pub fn green() -> (r: Color)
    ensures
        r == Color(0, 200, 0, 255),
{
    Color(0, 200, 0, 255)
}

/// Azure blue, opaque.
pub fn blue() -> (r: Color)
    ensures
        r == Color(0, 120, 255, 255),
{
    Color(0, 120, 255, 255)
}

/// Light gray, opaque.
pub fn gray() -> (r: Color)
    ensures
        r == Color(180, 180, 180, 255),
{
    Color(180, 180, 180, 255)
}

/// The colour stored for pixel `p` (row-major index) of an RGBA buffer.
pub open spec fn color_at(pixels: Seq<u8>, p: int) -> Color {
    Color(pixels[4 * p], pixels[4 * p + 1], pixels[4 * p + 2], pixels[4 * p + 3])
}

/// `pixels` with pixel `p` set to `c`.
pub open spec fn painted(pixels: Seq<u8>, p: int, c: Color) -> Seq<u8> {
    pixels.update(4 * p, c.0).update(4 * p + 1, c.1).update(4 * p + 2, c.2).update(4 * p + 3, c.3)
}

/// Whether pixel `(px, py)` lies in the rectangle with top-left corner
/// `(x, y)`, `w` columns wide and `h` rows high.
pub open spec fn in_rect(px: int, py: int, x: int, y: int, w: int, h: int) -> bool {
    x <= px < x + w && y <= py < y + h
}

proof fn lemma_painted(pixels: Seq<u8>, p: int, c: Color, q: int)
    requires
        0 <= p,
        0 <= q,
        4 * p + 3 < pixels.len(),
        4 * q + 3 < pixels.len(),
    ensures
        painted(pixels, p, c).len() == pixels.len(),
        color_at(painted(pixels, p, c), q) == if q == p {
            c
        } else {
            color_at(pixels, q)
        },
{
}

/// Row-major index `p` in a grid `w` columns wide names column `px` of row
/// `py` exactly when `p == py * w + px`.
proof fn lemma_index_coords(p: int, w: int, px: int, py: int)
    requires
        w > 0,
        0 <= px < w,
        0 <= py,
        0 <= p,
    ensures
        (p == py * w + px) <==> (p % w == px && p / w == py),
{
    if p == py * w + px {
        lemma_fundamental_div_mod_converse(p, w, py, px);
    }
    if p % w == px && p / w == py {
        lemma_fundamental_div_mod(p, w);
        assert(w * py == py * w) by (nonlinear_arith);
    }
}

/// Pixel indices below `w * h` lie on rows below `h`.
proof fn lemma_row_bound(p: int, w: int, h: int)
    requires
        w >= 0,
        0 <= p < w * h,
    ensures
        w > 0,
        0 <= p % w < w,
        0 <= p / w < h,
{
    if w == 0 {
        assert(w * h == 0) by (nonlinear_arith)
            requires
                w == 0,
        ;
    }
    lemma_fundamental_div_mod(p, w);
    assert(0 <= p % w < w) by {
        vstd::arithmetic::div_mod::lemma_mod_bound(p, w);
    }
    assert(p / w >= 0) by {
        vstd::arithmetic::div_mod::lemma_div_pos_is_pos(p, w);
    }
    if p / w >= h {
        assert(w * (p / w) >= w * h) by (nonlinear_arith)
            requires
                w > 0,
                p / w >= h,
        ;
    }
}

/// Whether pixel `(px, py)` lies in the disc of radius `r >= 0` around `(cx, cy)`.
pub open spec fn in_disc(px: int, py: int, cx: int, cy: int, r: int) -> bool {
    r >= 0 && (px - cx) * (px - cx) + (py - cy) * (py - cy) <= r * r
}

/// A point of the disc lies within the radius along each axis.
proof fn lemma_disc_box(px: int, py: int, cx: int, cy: int, r: int)
    requires
        in_disc(px, py, cx, cy, r),
    ensures
        cx - r <= px <= cx + r,
        cy - r <= py <= cy + r,
{
    assert((px - cx) * (px - cx) <= r * r) by (nonlinear_arith)
        requires
            (px - cx) * (px - cx) + (py - cy) * (py - cy) <= r * r,
    ;
    assert((py - cy) * (py - cy) <= r * r) by (nonlinear_arith)
        requires
            (px - cx) * (px - cx) + (py - cy) * (py - cy) <= r * r,
    ;
    assert(cx - r <= px <= cx + r) by (nonlinear_arith)
        requires
            (px - cx) * (px - cx) <= r * r,
            r >= 0,
    ;
    assert(cy - r <= py <= cy + r) by (nonlinear_arith)
        requires
            (py - cy) * (py - cy) <= r * r,
            r >= 0,
    ;
}

/// The absolute value of `v`.
pub open spec fn abs(v: int) -> int {
    if v < 0 {
        -v
    } else {
        v
    }
}

/// The points that the integer line walk visits from `(x, y)` with error
/// term `err` until it reaches `(x1, y1)`, taking at most `fuel` steps. Each
/// step doubles the error term once and, from that doubled value, decides
/// whether to move along x (when it is at least `dy`) and along y (when it
/// is at most `dx`).
pub open spec fn line_walk(
    x: int,
    y: int,
    err: int,
    x1: int,
    y1: int,
    dx: int,
    dy: int,
    sx: int,
    sy: int,
    fuel: nat,
) -> Seq<(int, int)>
    decreases fuel,
{
    if (x == x1 && y == y1) || fuel == 0 {
        seq![(x, y)]
    } else {
        let e2 = 2 * err;
        let nx = if e2 >= dy {
            x + sx
        } else {
            x
        };
        let err_x = if e2 >= dy {
            err + dy
        } else {
            err
        };
        let ny = if e2 <= dx {
            y + sy
        } else {
            y
        };
        let err_y = if e2 <= dx {
            err_x + dx
        } else {
            err_x
        };
        seq![(x, y)] + line_walk(nx, ny, err_y, x1, y1, dx, dy, sx, sy, (fuel - 1) as nat)
    }
}

/// The points of the Bresenham line from `(x0, y0)` to `(x1, y1)`, in order,
/// both ends included.
pub open spec fn line_points(x0: int, y0: int, x1: int, y1: int) -> Seq<(int, int)> {
    let dx = abs(x1 - x0);
    let dy = -abs(y1 - y0);
    let sx = if x0 < x1 {
        1int
    } else {
        -1int
    };
    let sy = if y0 < y1 {
        1int
    } else {
        -1int
    };
    line_walk(x0, y0, dx + dy, x1, y1, dx, dy, sx, sy, (dx - dy) as nat)
}

proof fn lemma_push_contains(s: Seq<(int, int)>, a: (int, int), b: (int, int))
    ensures
        s.push(a).contains(b) <==> (s.contains(b) || a == b),
{
    if s.contains(b) {
        let i = choose|i: int| 0 <= i < s.len() && s[i] == b;
        assert(s.push(a)[i] == b);
    }
    if a == b {
        assert(s.push(a)[s.len() as int] == b);
    }
    if s.push(a).contains(b) {
        let i = choose|i: int| 0 <= i < s.push(a).len() && s.push(a)[i] == b;
        if i < s.len() {
            assert(s[i] == b);
        }
    }
}

/// An RGBA pixel buffer, `width` x `height`, stored row-major.
pub struct Canvas {
    pub width: u32,
    pub height: u32,
    pub pixels: Vec<u8>,
}

impl Canvas {
    /// The buffer holds four bytes for each of `width * height` pixels.
    pub open spec fn wf(&self) -> bool {
        self.pixels@.len() == self.width * self.height * 4
    }

    /// The number of pixels.
    pub open spec fn area(&self) -> int {
        self.width * self.height
    }

    /// A `width` x `height` canvas, all black.
    pub fn new(width: u32, height: u32) -> (r: Canvas)
        requires
            width * height * 4 <= usize::MAX,
        ensures
            r.wf(),
            r.width == width,
            r.height == height,
            forall|p: int| 0 <= p < r.area() ==> #[trigger] color_at(r.pixels@, p) == Color(0, 0, 0, 255),
    {
        let len: usize = (width as usize) * (height as usize) * 4;
        let mut canvas = Canvas { width, height, pixels: vec![0; len] };
        canvas.clear(black());
        canvas
    }

    /// Sets pixel `p` (row-major index) to `color`.
    fn paint(&mut self, p: usize, color: Color)
        requires
            old(self).wf(),
            p < old(self).area(),
        ensures
            final(self).width == old(self).width,
            final(self).height == old(self).height,
            final(self).pixels@ == painted(old(self).pixels@, p as int, color),
    {
        let len = self.pixels.len();
        assert(p * 4 + 3 < len);
        let idx: usize = p * 4;
        self.pixels[idx] = color.0;
        self.pixels[idx + 1] = color.1;
        self.pixels[idx + 2] = color.2;
        self.pixels[idx + 3] = color.3;
    }

    /// Paints every pixel `color`.
    pub fn clear(&mut self, color: Color)
        requires
            old(self).wf(),
        ensures
            final(self).wf(),
            final(self).width == old(self).width,
            final(self).height == old(self).height,
            forall|p: int| 0 <= p < final(self).area() ==> #[trigger] color_at(final(self).pixels@, p) == color,
    {
        let count: usize = self.pixels.len() / 4;
        let mut p: usize = 0;
        while p < count
            invariant
                self.wf(),
                self.width == old(self).width,
                self.height == old(self).height,
                count == self.area(),
                p <= count,
                forall|q: int| 0 <= q < p ==> #[trigger] color_at(self.pixels@, q) == color,
            decreases count - p,
        {
            let ghost before = self.pixels@;
            self.paint(p, color);
            proof {
                assert forall|q: int| 0 <= q < p + 1 implies #[trigger] color_at(self.pixels@, q) == color by {
                    lemma_painted(before, p as int, color, q);
                }
            }
            p = p + 1;
        }
    }

    /// Paints pixel `(x, y)` when it lies on the canvas; does nothing otherwise.
    pub fn put_pixel(&mut self, x: i32, y: i32, color: Color)
        requires
            old(self).wf(),
        ensures
            final(self).wf(),
            final(self).width == old(self).width,
            final(self).height == old(self).height,
            forall|p: int|
                0 <= p < old(self).area() ==> #[trigger] color_at(final(self).pixels@, p) == if p % (old(self).width as int) == x
                    && p / (old(self).width as int) == y {
                    color
                } else {
                    color_at(old(self).pixels@, p)
                },
    {
        let ghost w = self.width as int;
        let ghost before = self.pixels@;
        if x < 0 || y < 0 || x as u32 >= self.width || y as u32 >= self.height {
            proof {
                assert forall|q: int| 0 <= q < self.area() implies #[trigger] color_at(self.pixels@, q) == if q % w == x && q / w == y {
                    color
                } else {
                    color_at(before, q)
                } by {
                    lemma_row_bound(q, w, self.height as int);
                }
            }
            return;
        }
        let len = self.pixels.len();
        proof {
            assert((y as int) * w + (x as int) < self.area()) by (nonlinear_arith)
                requires
                    0 <= x < w,
                    0 <= y < self.height,
                    self.area() == w * self.height,
            ;
            assert(self.area() * 4 == len);
        }
        let p: usize = (y as usize) * (self.width as usize) + (x as usize);
        self.paint(p, color);
        proof {
            assert forall|q: int| 0 <= q < self.area() implies #[trigger] color_at(self.pixels@, q) == if q % w == x && q / w == y {
                color
            } else {
                color_at(before, q)
            } by {
                lemma_painted(before, p as int, color, q);
                lemma_index_coords(q, w, x as int, y as int);
            }
        }
    }

    /// Paints the pixels of the rectangle with top-left corner `(x, y)`, `w`
    /// columns wide and `h` rows high, that lie on the canvas.
    pub fn fill_rect(&mut self, x: i32, y: i32, w: i32, h: i32, color: Color)
        requires
            old(self).wf(),
        ensures
            final(self).wf(),
            final(self).width == old(self).width,
            final(self).height == old(self).height,
            forall|p: int|
                0 <= p < old(self).area() ==> #[trigger] color_at(final(self).pixels@, p) == if in_rect(
                    p % (old(self).width as int),
                    p / (old(self).width as int),
                    x as int,
                    y as int,
                    w as int,
                    h as int,
                ) {
                    color
                } else {
                    color_at(old(self).pixels@, p)
                },
    {
        if w <= 0 || h <= 0 {
            return;
        }
        let ghost cw = self.width as int;
        let ghost ch = self.height as int;
        let ghost before = self.pixels@;
        let len = self.pixels.len();
        let x0: i64 = if x < 0 {
            0
        } else {
            x as i64
        };
        let y0: i64 = if y < 0 {
            0
        } else {
            y as i64
        };
        let x_far: i64 = if x as i64 + w as i64 <= self.width as i64 {
            x as i64 + w as i64
        } else {
            self.width as i64
        };
        let y_far: i64 = if y as i64 + h as i64 <= self.height as i64 {
            y as i64 + h as i64
        } else {
            self.height as i64
        };
        let x1: i64 = if x_far < x0 {
            x0
        } else {
            x_far
        };
        let y1: i64 = if y_far < y0 {
            y0
        } else {
            y_far
        };
        let mut yy: i64 = y0;
        while yy < y1
            invariant
                self.wf(),
                self.width == cw,
                self.height == ch,
                self.pixels@.len() == len,
                len == cw * ch * 4,
                0 <= x0 <= x1,
                x1 == x0 || x1 <= cw,
                0 <= y0 <= yy <= y1,
                y1 == y0 || y1 <= ch,
                forall|q: int|
                    0 <= q < cw * ch ==> #[trigger] color_at(self.pixels@, q) == if x0 <= q % cw < x1 && y0 <= q / cw < yy {
                        color
                    } else {
                        color_at(before, q)
                    },
            decreases y1 - yy,
        {
            let mut xx: i64 = x0;
            while xx < x1
                invariant
                    self.wf(),
                    self.width == cw,
                    self.height == ch,
                    self.pixels@.len() == len,
                    len == cw * ch * 4,
                    0 <= x0 <= xx <= x1,
                    x1 == x0 || x1 <= cw,
                    0 <= y0 <= yy < y1,
                    y1 <= ch,
                    forall|q: int|
                        0 <= q < cw * ch ==> #[trigger] color_at(self.pixels@, q) == if (x0 <= q % cw < x1 && y0 <= q
                            / cw < yy) || (q / cw == yy && x0 <= q % cw < xx) {
                            color
                        } else {
                            color_at(before, q)
                        },
                decreases x1 - xx,
            {
                let ghost mid = self.pixels@;
                proof {
                    assert(yy * cw + xx < cw * ch) by (nonlinear_arith)
                        requires
                            0 <= xx < cw,
                            0 <= yy < ch,
                    ;
                }
                let p: usize = (yy as usize) * (self.width as usize) + (xx as usize);
                self.paint(p, color);
                proof {
                    assert forall|q: int| 0 <= q < cw * ch implies #[trigger] color_at(self.pixels@, q) == if (x0
                        <= q % cw < x1 && y0 <= q / cw < yy) || (q / cw == yy && x0 <= q % cw < xx + 1) {
                        color
                    } else {
                        color_at(before, q)
                    } by {
                        lemma_painted(mid, p as int, color, q);
                        lemma_index_coords(q, cw, xx as int, yy as int);
                    }
                }
                xx = xx + 1;
            }
            yy = yy + 1;
        }
        proof {
            assert forall|q: int| 0 <= q < cw * ch implies #[trigger] color_at(self.pixels@, q) == if in_rect(
                q % cw,
                q / cw,
                x as int,
                y as int,
                w as int,
                h as int,
            ) {
                color
            } else {
                color_at(before, q)
            } by {
                lemma_row_bound(q, cw, ch);
            }
        }
    }

    /// Paints the pixels of the Bresenham line from `(x0, y0)` to `(x1, y1)`
    /// that lie on the canvas.
    pub fn draw_line(&mut self, x0: i32, y0: i32, x1: i32, y1: i32, color: Color)
        requires
            old(self).wf(),
        ensures
            line_points(x0 as int, y0 as int, x1 as int, y1 as int).len() > 0,
            line_points(x0 as int, y0 as int, x1 as int, y1 as int)[0] == (x0 as int, y0 as int),
            line_points(x0 as int, y0 as int, x1 as int, y1 as int).last() == (x1 as int, y1 as int),
            final(self).wf(),
            final(self).width == old(self).width,
            final(self).height == old(self).height,
            forall|p: int|
                0 <= p < old(self).area() ==> #[trigger] color_at(final(self).pixels@, p) == if line_points(
                    x0 as int,
                    y0 as int,
                    x1 as int,
                    y1 as int,
                ).contains((p % (old(self).width as int), p / (old(self).width as int))) {
                    color
                } else {
                    color_at(old(self).pixels@, p)
                },
    {
        let ghost cw = self.width as int;
        let ghost ch = self.height as int;
        let ghost before = self.pixels@;
        let dx: i64 = if x1 >= x0 {
            x1 as i64 - x0 as i64
        } else {
            x0 as i64 - x1 as i64
        };
        let sx: i32 = if x0 < x1 {
            1
        } else {
            -1
        };
        let dy: i64 = if y1 >= y0 {
            y0 as i64 - y1 as i64
        } else {
            y1 as i64 - y0 as i64
        };
        let sy: i32 = if y0 < y1 {
            1
        } else {
            -1
        };
        let mut err: i64 = dx + dy;
        let mut x: i32 = x0;
        let mut y: i32 = y0;
        let ghost mut prefix: Seq<(int, int)> = Seq::empty();
        let ghost mut fuel: nat = (dx - dy) as nat;
        self.put_pixel(x, y, color);
        proof {
            assert(line_points(x0 as int, y0 as int, x1 as int, y1 as int)[0] == (x0 as int, y0 as int));
            assert(err == dx + dy - dy * dx - dx * (-dy)) by (nonlinear_arith)
                requires
                    err == dx + dy,
            ;
        }
        while x != x1 || y != y1
            invariant
                self.wf(),
                self.width == cw,
                self.height == ch,
                dx == abs(x1 - x0),
                dy == -abs(y1 - y0),
                sx == (if x0 < x1 {
                    1int
                } else {
                    -1int
                }),
                sy == (if y0 < y1 {
                    1int
                } else {
                    -1int
                }),
                0 <= (if sx == 1 {
                    x1 - x
                } else {
                    x - x1
                }) <= dx,
                0 <= (if sy == 1 {
                    y1 - y
                } else {
                    y - y1
                }) <= -dy,
                err == dx + dy - dy * (if sx == 1 {
                    x1 - x
                } else {
                    x - x1
                }) - dx * (if sy == 1 {
                    y1 - y
                } else {
                    y - y1
                }),
                -2 * (dx - dy) <= err <= 2 * (dx - dy),
                fuel >= (if sx == 1 {
                    x1 - x
                } else {
                    x - x1
                }) + (if sy == 1 {
                    y1 - y
                } else {
                    y - y1
                }),
                line_points(x0 as int, y0 as int, x1 as int, y1 as int) == prefix + line_walk(
                    x as int,
                    y as int,
                    err as int,
                    x1 as int,
                    y1 as int,
                    dx as int,
                    dy as int,
                    sx as int,
                    sy as int,
                    fuel,
                ),
                forall|q: int|
                    0 <= q < cw * ch ==> #[trigger] color_at(self.pixels@, q) == if prefix.contains((q % cw, q / cw))
                        || (q % cw == x && q / cw == y) {
                        color
                    } else {
                        color_at(before, q)
                    },
            decreases (if sx == 1 {
                x1 - x
            } else {
                x - x1
            }) + (if sy == 1 {
                y1 - y
            } else {
                y - y1
            }),
        {
            let ghost a: int = if sx == 1 {
                x1 - x
            } else {
                x - x1
            };
            let ghost b: int = if sy == 1 {
                y1 - y
            } else {
                y - y1
            };
            let ghost old_err: int = err as int;
            let ghost old_x: int = x as int;
            let ghost old_y: int = y as int;
            let ghost old_prefix = prefix;
            let e2: i64 = 2 * err;
            proof {
                if a == 0 && e2 >= dy {
                    assert(false) by (nonlinear_arith)
                        requires
                            a == 0,
                            b >= 1,
                            b <= -dy,
                            dx >= 0,
                            err == dx + dy - dy * a - dx * b,
                            e2 == 2 * err,
                            e2 >= dy,
                    ;
                }
                if b == 0 && e2 <= dx {
                    assert(false) by (nonlinear_arith)
                        requires
                            b == 0,
                            a >= 1,
                            a <= dx,
                            dy <= 0,
                            err == dx + dy - dy * a - dx * b,
                            e2 == 2 * err,
                            e2 <= dx,
                    ;
                }
            }
            let ghost ga: int = if e2 >= dy {
                a - 1
            } else {
                a
            };
            let ghost gb: int = if e2 <= dx {
                b - 1
            } else {
                b
            };
            if e2 >= dy {
                err = err + dy;
                x = x + sx;
            }
            if e2 <= dx {
                err = err + dx;
                y = y + sy;
            }
            proof {
                assert(err == dx + dy - dy * ga - dx * gb) by (nonlinear_arith)
                    requires
                        old_err == dx + dy - dy * a - dx * b,
                        err == old_err + (if e2 >= dy {
                            dy
                        } else {
                            0
                        }) + (if e2 <= dx {
                            dx
                        } else {
                            0
                        }),
                        ga == (if e2 >= dy {
                            a - 1
                        } else {
                            a
                        }),
                        gb == (if e2 <= dx {
                            b - 1
                        } else {
                            b
                        }),
                ;
                assert(line_walk(old_x, old_y, old_err, x1 as int, y1 as int, dx as int, dy as int, sx as int, sy as int, fuel)
                    == seq![(old_x, old_y)] + line_walk(x as int, y as int, err as int, x1 as int, y1 as int, dx as int, dy as int, sx as int, sy as int, (fuel - 1) as nat));
                assert(prefix + (seq![(old_x, old_y)] + line_walk(x as int, y as int, err as int, x1 as int, y1 as int, dx as int, dy as int, sx as int, sy as int, (fuel - 1) as nat))
                    =~= prefix.push((old_x, old_y)) + line_walk(x as int, y as int, err as int, x1 as int, y1 as int, dx as int, dy as int, sx as int, sy as int, (fuel - 1) as nat));
                prefix = prefix.push((old_x, old_y));
                fuel = (fuel - 1) as nat;
            }
            let ghost mid = self.pixels@;
            self.put_pixel(x, y, color);
            proof {
                assert forall|q: int| 0 <= q < cw * ch implies #[trigger] color_at(self.pixels@, q) == if prefix.contains((q % cw, q / cw))
                    || (q % cw == x && q / cw == y) {
                    color
                } else {
                    color_at(before, q)
                } by {
                    lemma_push_contains(old_prefix, (old_x, old_y), (q % cw, q / cw));
                }
            }
        }
        proof {
            assert(line_walk(x as int, y as int, err as int, x1 as int, y1 as int, dx as int, dy as int, sx as int, sy as int, fuel) == seq![(x as int, y as int)]);
            assert(prefix + seq![(x as int, y as int)] =~= prefix.push((x as int, y as int)));
            assert forall|q: int| 0 <= q < cw * ch implies #[trigger] color_at(self.pixels@, q) == if line_points(
                x0 as int,
                y0 as int,
                x1 as int,
                y1 as int,
            ).contains((q % cw, q / cw)) {
                color
            } else {
                color_at(before, q)
            } by {
                lemma_push_contains(prefix, (x as int, y as int), (q % cw, q / cw));
            }
        }
    }

    /// Paints the pixels of the disc of radius `r` around `(cx, cy)` that
    /// lie on the canvas; a negative radius paints nothing.
    pub fn fill_circle(&mut self, cx: i32, cy: i32, r: i32, color: Color)
        requires
            old(self).wf(),
        ensures
            final(self).wf(),
            final(self).width == old(self).width,
            final(self).height == old(self).height,
            forall|p: int|
                0 <= p < old(self).area() ==> #[trigger] color_at(final(self).pixels@, p) == if in_disc(
                    p % (old(self).width as int),
                    p / (old(self).width as int),
                    cx as int,
                    cy as int,
                    r as int,
                ) {
                    color
                } else {
                    color_at(old(self).pixels@, p)
                },
    {
        if r < 0 {
            return;
        }
        let ghost cw = self.width as int;
        let ghost ch = self.height as int;
        let ghost before = self.pixels@;
        let len = self.pixels.len();
        let x0: i64 = if (cx as i64) - (r as i64) < 0 {
            0
        } else {
            (cx as i64) - (r as i64)
        };
        let y0: i64 = if (cy as i64) - (r as i64) < 0 {
            0
        } else {
            (cy as i64) - (r as i64)
        };
        let x_far: i64 = if (cx as i64) + (r as i64) + 1 <= self.width as i64 {
            (cx as i64) + (r as i64) + 1
        } else {
            self.width as i64
        };
        let y_far: i64 = if (cy as i64) + (r as i64) + 1 <= self.height as i64 {
            (cy as i64) + (r as i64) + 1
        } else {
            self.height as i64
        };
        let x1: i64 = if x_far < x0 {
            x0
        } else {
            x_far
        };
        let y1: i64 = if y_far < y0 {
            y0
        } else {
            y_far
        };
        proof {
            assert(0 <= (r as int) * (r as int) <= 0x4000_0000_0000_0000) by (nonlinear_arith)
                requires
                    0 <= r <= 0x8000_0000int,
            ;
        }
        let r2: i128 = (r as i128) * (r as i128);
        let mut yy: i64 = y0;
        while yy < y1
            invariant
                self.wf(),
                self.width == cw,
                self.height == ch,
                self.pixels@.len() == len,
                len == cw * ch * 4,
                r >= 0,
                r2 == r * r,
                0 <= x0 <= x1,
                x0 == (if cx - r < 0 {
                    0
                } else {
                    cx - r
                }),
                x1 == x0 || x1 == (if cx + r + 1 <= cw {
                    cx + r + 1
                } else {
                    cw
                }),
                x1 == x0 || x1 <= cw,
                0 <= y0 <= yy <= y1,
                y0 == (if cy - r < 0 {
                    0
                } else {
                    cy - r
                }),
                y1 == y0 || y1 <= ch,
                forall|q: int|
                    0 <= q < cw * ch ==> #[trigger] color_at(self.pixels@, q) == if x0 <= q % cw < x1 && y0 <= q / cw < yy
                        && in_disc(q % cw, q / cw, cx as int, cy as int, r as int) {
                        color
                    } else {
                        color_at(before, q)
                    },
            decreases y1 - yy,
        {
            let mut xx: i64 = x0;
            while xx < x1
                invariant
                    self.wf(),
                    self.width == cw,
                    self.height == ch,
                    self.pixels@.len() == len,
                    len == cw * ch * 4,
                    r >= 0,
                    r2 == r * r,
                    0 <= x0 <= xx <= x1,
                    x1 == x0 || x1 <= cw,
                    0 <= y0 <= yy < y1,
                    y1 <= ch,
                    forall|q: int|
                        0 <= q < cw * ch ==> #[trigger] color_at(self.pixels@, q) == if ((x0 <= q % cw < x1 && y0 <= q
                            / cw < yy) || (q / cw == yy && x0 <= q % cw < xx)) && in_disc(
                            q % cw,
                            q / cw,
                            cx as int,
                            cy as int,
                            r as int,
                        ) {
                            color
                        } else {
                            color_at(before, q)
                        },
                decreases x1 - xx,
            {
                let ddx: i128 = xx as i128 - cx as i128;
                let ddy: i128 = yy as i128 - cy as i128;
                proof {
                    assert(-0x4_0000_0000 <= ddx <= 0x4_0000_0000);
                    assert(0 <= ddx * ddx <= 0x10_0000_0000_0000_0000) by (nonlinear_arith)
                        requires
                            -0x4_0000_0000 <= ddx <= 0x4_0000_0000,
                    ;
                    assert(-0x4_0000_0000 <= ddy <= 0x4_0000_0000);
                    assert(0 <= ddy * ddy <= 0x10_0000_0000_0000_0000) by (nonlinear_arith)
                        requires
                            -0x4_0000_0000 <= ddy <= 0x4_0000_0000,
                    ;
                }
                let ghost mid = self.pixels@;
                if ddx * ddx + ddy * ddy <= r2 {
                    proof {
                        assert(yy * cw + xx < cw * ch) by (nonlinear_arith)
                            requires
                                0 <= xx < cw,
                                0 <= yy < ch,
                        ;
                    }
                    let p: usize = (yy as usize) * (self.width as usize) + (xx as usize);
                    self.paint(p, color);
                    proof {
                        assert forall|q: int| 0 <= q < cw * ch implies #[trigger] color_at(self.pixels@, q) == if ((x0
                            <= q % cw < x1 && y0 <= q / cw < yy) || (q / cw == yy && x0 <= q % cw < xx + 1)) && in_disc(
                            q % cw,
                            q / cw,
                            cx as int,
                            cy as int,
                            r as int,
                        ) {
                            color
                        } else {
                            color_at(before, q)
                        } by {
                            lemma_painted(mid, p as int, color, q);
                            lemma_index_coords(q, cw, xx as int, yy as int);
                        }
                    }
                } else {
                    proof {
                        assert forall|q: int| 0 <= q < cw * ch implies #[trigger] color_at(self.pixels@, q) == if ((x0
                            <= q % cw < x1 && y0 <= q / cw < yy) || (q / cw == yy && x0 <= q % cw < xx + 1)) && in_disc(
                            q % cw,
                            q / cw,
                            cx as int,
                            cy as int,
                            r as int,
                        ) {
                            color
                        } else {
                            color_at(before, q)
                        } by {
                            lemma_index_coords(q, cw, xx as int, yy as int);
                        }
                    }
                }
                xx = xx + 1;
            }
            yy = yy + 1;
        }
        proof {
            assert forall|q: int| 0 <= q < cw * ch implies #[trigger] color_at(self.pixels@, q) == if in_disc(
                q % cw,
                q / cw,
                cx as int,
                cy as int,
                r as int,
            ) {
                color
            } else {
                color_at(before, q)
            } by {
                lemma_row_bound(q, cw, ch);
                if in_disc(q % cw, q / cw, cx as int, cy as int, r as int) {
                    lemma_disc_box(q % cw, q / cw, cx as int, cy as int, r as int);
                }
            }
        }
    }

    /// The canvas as an RGBA pixel frame.
    pub fn into_render_frame(self) -> (r: RenderFrame)
        ensures
            r == (RenderFrame::Pixels { width: self.width, height: self.height, data: self.pixels }),
    {
        RenderFrame::Pixels { width: self.width, height: self.height, data: self.pixels }
    }
}

} // verus!
