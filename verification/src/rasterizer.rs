//! Rasterization of lines and filled triangles into a pixel buffer.
//!
//! The algorithms are stateless and work on the buffer they are handed:
//! integer Bresenham line drawing and a two-half scanline triangle fill.
//! Writes outside the buffer are silently skipped; clipping is not
//! implemented, and a primitive partly outside the buffer draws its inside
//! part only.

use vstd::prelude::*;
use crate::math::Vec2;
use crate::tga::{ColorSpace, Image, RGBA, green, red, white, spec_green, spec_red, spec_white};

verus! {

/// The absolute value of `x`.
pub open spec fn abs_val(x: int) -> int {
    if x >= 0 {
        x
    } else {
        -x
    }
}

/// The largest coordinate magnitude the rasterizer accepts; it keeps every
/// intermediate product of the interpolation inside 64 bits.
pub open spec fn coord_in_range(p: Vec2<isize>) -> bool {
    &&& -0x4000_0000 <= p.x <= 0x4000_0000
    &&& -0x4000_0000 <= p.y <= 0x4000_0000
}

/// The buffer `v` (of a `w` by `h` image) with `c` written at `(x, y)`,
/// unchanged if `(x, y)` lies outside the image.
pub open spec fn put<T>(v: Seq<T>, w: int, h: int, x: int, y: int, c: T) -> Seq<T> {
    if 0 <= x < w && 0 <= y < h {
        v.update(x + y * w, c)
    } else {
        v
    }
}

/// One Bresenham walk along the major axis from `x` to `x1` inclusive,
/// with minor coordinate `y`, error accumulator `err`, major extent `dx`,
/// error increment `de`, and minor step `sy`. When `steep`, the plotted
/// point is transposed back to `(y, x)`.
pub open spec fn line_walk<T>(
    v: Seq<T>,
    w: int,
    h: int,
    x: int,
    x1: int,
    y: int,
    err: int,
    dx: int,
    de: int,
    sy: int,
    steep: bool,
    c: T,
) -> Seq<T>
    decreases x1 + 1 - x when x <= x1 + 1
{
    if x > x1 {
        v
    } else {
        let v1 = if steep {
            put(v, w, h, y, x, c)
        } else {
            put(v, w, h, x, y, c)
        };
        let e2 = err + de;
        if e2 > dx {
            line_walk(v1, w, h, x + 1, x1, y + sy, e2 - 2 * dx, dx, de, sy, steep, c)
        } else {
            line_walk(v1, w, h, x + 1, x1, y, e2, dx, de, sy, steep, c)
        }
    }
}

/// The buffer after drawing the segment from `(x0, y0)` to `(x1, y1)`:
/// transpose a steep segment, orient it left to right, then walk the major
/// axis. The normalization makes the walk independent of the order in
/// which the two endpoints are given.
pub open spec fn line_result<T>(
    v: Seq<T>,
    w: int,
    h: int,
    x0: int,
    y0: int,
    x1: int,
    y1: int,
    c: T,
) -> Seq<T> {
    let steep = abs_val(x0 - x1) < abs_val(y0 - y1);
    let a0 = if steep {
        y0
    } else {
        x0
    };
    let b0 = if steep {
        x0
    } else {
        y0
    };
    let a1 = if steep {
        y1
    } else {
        x1
    };
    let b1 = if steep {
        x1
    } else {
        y1
    };
    let c0 = if a0 > a1 {
        a1
    } else {
        a0
    };
    let d0 = if a0 > a1 {
        b1
    } else {
        b0
    };
    let c1 = if a0 > a1 {
        a0
    } else {
        a1
    };
    let d1 = if a0 > a1 {
        b0
    } else {
        b1
    };
    line_walk(
        v,
        w,
        h,
        c0,
        c1,
        d0,
        0,
        c1 - c0,
        2 * abs_val(d1 - d0),
        if d1 > d0 {
            1int
        } else {
            -1int
        },
        steep,
        c,
    )
}

/// Division truncated toward zero, as the edge interpolation uses it;
/// zero when the divisor is not positive (the fill guards every divisor).
pub open spec fn tdiv(a: int, b: int) -> int {
    if b <= 0 {
        0
    } else if a >= 0 {
        a / b
    } else {
        -((-a) / b)
    }
}

/// The x coordinate of the long-edge boundary (`s0` to `s2`) of a triangle
/// with vertices sorted by `y`, at scan offset `i`.
pub open spec fn tri_ax(s0: (int, int), s2: (int, int), i: int) -> int {
    s0.0 + tdiv((s2.0 - s0.0) * i, s2.1 - s0.1)
}

/// The x coordinate of the short-edge boundary at scan offset `i`: along
/// `s0`-`s1` in the lower half, along `s1`-`s2` in the upper half. A row
/// is in the upper half when `i` passes `s1`, or at once when the lower
/// half has zero height.
pub open spec fn tri_bx(s0: (int, int), s1: (int, int), s2: (int, int), i: int) -> int {
    let second_half = i > s1.1 - s0.1 || s1.1 == s0.1;
    if second_half {
        s1.0 + tdiv((s2.0 - s1.0) * (i - (s1.1 - s0.1)), s2.1 - s1.1)
    } else {
        s0.0 + tdiv((s1.0 - s0.0) * i, s1.1 - s0.1)
    }
}

/// Fill the row `y` at every `x` from `x` to `xr` inclusive.
pub open spec fn row_fill<T>(v: Seq<T>, w: int, h: int, x: int, xr: int, y: int, c: T) -> Seq<T>
    decreases xr + 1 - x when x <= xr + 1
{
    if x > xr {
        v
    } else {
        row_fill(put(v, w, h, x, y, c), w, h, x + 1, xr, y, c)
    }
}

/// Fill a triangle whose vertices are sorted by ascending `y`, one row per
/// scan offset from `i` up to (not including) the triangle's total height.
pub open spec fn tri_fill<T>(
    v: Seq<T>,
    w: int,
    h: int,
    s0: (int, int),
    s1: (int, int),
    s2: (int, int),
    i: int,
    c: T,
) -> Seq<T>
    decreases s2.1 - s0.1 - i,
{
    if i >= s2.1 - s0.1 {
        v
    } else {
        let ax = tri_ax(s0, s2, i);
        let bx = tri_bx(s0, s1, s2, i);
        let xl = if ax <= bx {
            ax
        } else {
            bx
        };
        let xr = if ax <= bx {
            bx
        } else {
            ax
        };
        tri_fill(row_fill(v, w, h, xl, xr, s0.1 + i, c), w, h, s0, s1, s2, i + 1, c)
    }
}

/// The three vertices ordered by ascending `y`, with the same stable
/// swaps the fill makes.
pub open spec fn sort3_y(t0: (int, int), t1: (int, int), t2: (int, int)) -> (
    (int, int),
    (int, int),
    (int, int),
) {
    let u0 = if t0.1 > t1.1 {
        t1
    } else {
        t0
    };
    let u1 = if t0.1 > t1.1 {
        t0
    } else {
        t1
    };
    let v0 = if u0.1 > t2.1 {
        t2
    } else {
        u0
    };
    let v2 = if u0.1 > t2.1 {
        u0
    } else {
        t2
    };
    let w1 = if u1.1 > v2.1 {
        v2
    } else {
        u1
    };
    let w2 = if u1.1 > v2.1 {
        u1
    } else {
        v2
    };
    (v0, w1, w2)
}

/// The buffer after the scanline fill of the triangle `t0 t1 t2`.
pub open spec fn triangle_result<T>(
    v: Seq<T>,
    w: int,
    h: int,
    t0: (int, int),
    t1: (int, int),
    t2: (int, int),
    c: T,
) -> Seq<T> {
    let s = sort3_y(t0, t1, t2);
    tri_fill(v, w, h, s.0, s.1, s.2, 0, c)
}

/// The interpolated offset `d * i / t`, truncated toward zero, never
/// overshoots `d` while `i` stays within `t`.
proof fn lemma_tdiv_interp_bound(d: int, i: int, t: int)
    requires
        0 <= i <= t,
        1 <= t,
    ensures
        abs_val(tdiv(d * i, t)) <= abs_val(d),
{
    if i == 0 {
        assert(d * i == 0) by (nonlinear_arith)
            requires
                i == 0,
        ;
        vstd::arithmetic::div_mod::lemma_div_pos_is_pos(0, t);
        vstd::arithmetic::div_mod::lemma_div_nonincreasing(0, t);
    } else if d >= 0 {
        assert(0 <= d * i && d * i <= d * t) by (nonlinear_arith)
            requires
                0 <= d,
                0 <= i <= t,
        ;
        vstd::arithmetic::div_mod::lemma_div_is_ordered(d * i, d * t, t);
        vstd::arithmetic::div_mod::lemma_div_multiples_vanish(d, t);
        assert(d * t == t * d) by (nonlinear_arith);
        vstd::arithmetic::div_mod::lemma_div_pos_is_pos(d * i, t);
    } else {
        let e = -d;
        assert(d * i == -(e * i) && 1 <= e * i && e * i <= e * t) by (nonlinear_arith)
            requires
                e == -d,
                d < 0,
                1 <= i <= t,
        ;
        vstd::arithmetic::div_mod::lemma_div_is_ordered(e * i, e * t, t);
        vstd::arithmetic::div_mod::lemma_div_multiples_vanish(e, t);
        assert(e * t == t * e) by (nonlinear_arith);
        vstd::arithmetic::div_mod::lemma_div_pos_is_pos(e * i, t);
    }
}

/// Division truncated toward zero, as a value.
fn tdiv_exec(a: i64, b: i64) -> (r: i64)
    requires
        1 <= b,
        -0x4000_0000_0000_0000 <= a <= 0x4000_0000_0000_0000,
    ensures
        r as int == tdiv(a as int, b as int),
{
    if a >= 0 {
        proof {
            vstd::arithmetic::div_mod::lemma_div_pos_is_pos(a as int, b as int);
            vstd::arithmetic::div_mod::lemma_div_nonincreasing(a as int, b as int);
        }
        a / b
    } else {
        proof {
            vstd::arithmetic::div_mod::lemma_div_pos_is_pos(-(a as int), b as int);
            vstd::arithmetic::div_mod::lemma_div_nonincreasing(-(a as int), b as int);
        }
        -((-a) / b)
    }
}

/// A rasterizer drawing into the pixel buffer it owns.
pub struct Rasterizer<T: ColorSpace> {
    pub image: Image<T>,
}

impl<T: ColorSpace> Rasterizer<T> {
    /// A rasterizer over a fresh buffer filled with the format's zero value.
    pub fn new(width: usize, height: usize) -> (r: Self)
        requires
            1 <= width,
            1 <= height,
            width * height <= usize::MAX,
        ensures
            r.image.wf(),
            r.image.spec_width() == width,
            r.image.spec_height() == height,
            r.image.pixels() == Seq::new((width * height) as nat, |i: int| T::spec_zero()),
    {
        Rasterizer { image: Image::new(width, height) }
    }

    /// Overwrite every pixel of the buffer with `color`.
    pub fn clear(&mut self, color: T)
        requires
            old(self).image.wf(),
        ensures
            final(self).image.wf(),
            final(self).image.spec_width() == old(self).image.spec_width(),
            final(self).image.spec_height() == old(self).image.spec_height(),
            final(self).image.pixels() == Seq::new(old(self).image.pixels().len(), |i: int| color),
    {
        self.image.clear(color);
    }

    /// Draw the segment from `p0` to `p1` with integer Bresenham stepping.
    /// The pixels drawn are the same whichever of the two endpoints comes
    /// first; pixels outside the buffer are skipped.
    pub fn line(&mut self, p0: Vec2<isize>, p1: Vec2<isize>, color: T)
        requires
            old(self).image.wf(),
            coord_in_range(p0),
            coord_in_range(p1),
        ensures
            final(self).image.wf(),
            final(self).image.spec_width() == old(self).image.spec_width(),
            final(self).image.spec_height() == old(self).image.spec_height(),
            final(self).image.pixels() == line_result(
                old(self).image.pixels(),
                old(self).image.spec_width(),
                old(self).image.spec_height(),
                p0.x as int,
                p0.y as int,
                p1.x as int,
                p1.y as int,
                color,
            ),
    {
        let ghost w = self.image.spec_width();
        let ghost h = self.image.spec_height();
        let ghost v0 = self.image.pixels();
        let mut x0: i64 = p0.x as i64;
        let mut y0: i64 = p0.y as i64;
        let mut x1: i64 = p1.x as i64;
        let mut y1: i64 = p1.y as i64;
        let adx: i64 = if x0 > x1 {
            x0 - x1
        } else {
            x1 - x0
        };
        let ady: i64 = if y0 > y1 {
            y0 - y1
        } else {
            y1 - y0
        };
        // A segment steeper than 45 degrees is transposed, so the walk
        // below always advances along the axis of larger extent.
        let steep = adx < ady;
        if steep {
            let t0 = x0;
            x0 = y0;
            y0 = t0;
            let t1 = x1;
            x1 = y1;
            y1 = t1;
        }
        // Orient the walk left to right.
        if x0 > x1 {
            let tx = x0;
            x0 = x1;
            x1 = tx;
            let ty = y0;
            y0 = y1;
            y1 = ty;
        }
        let dx = x1 - x0;
        let ady2: i64 = if y0 > y1 {
            y0 - y1
        } else {
            y1 - y0
        };
        let derror2 = 2 * ady2;
        let sy: i64 = if y1 > y0 {
            1
        } else {
            -1
        };
        let mut error2: i64 = 0;
        let mut x = x0;
        let mut y = y0;
        proof {
            assert(ady2 <= dx);
            assert(line_result(
                v0,
                w,
                h,
                p0.x as int,
                p0.y as int,
                p1.x as int,
                p1.y as int,
                color,
            ) == line_walk(
                v0,
                w,
                h,
                x0 as int,
                x1 as int,
                y0 as int,
                0,
                dx as int,
                derror2 as int,
                sy as int,
                steep,
                color,
            ));
        }
        while x <= x1
            invariant
                self.image.wf(),
                self.image.spec_width() == w,
                self.image.spec_height() == h,
                -0x4000_0000 <= x0 <= 0x4000_0000,
                -0x4000_0000 <= x1 <= 0x4000_0000,
                -0x4000_0000 <= y0 <= 0x4000_0000,
                x0 <= x <= x1 + 1,
                dx == x1 - x0,
                derror2 == 2 * ady2,
                0 <= ady2 <= dx,
                sy == 1 || sy == -1,
                abs_val(y - y0) <= x - x0,
                -2 * dx <= error2 <= dx,
                line_result(v0, w, h, p0.x as int, p0.y as int, p1.x as int, p1.y as int, color)
                    == line_walk(
                    self.image.pixels(),
                    w,
                    h,
                    x as int,
                    x1 as int,
                    y as int,
                    error2 as int,
                    dx as int,
                    derror2 as int,
                    sy as int,
                    steep,
                    color,
                ),
            decreases x1 + 1 - x,
        {
            let ghost vh = self.image.pixels();
            let px = if steep {
                y
            } else {
                x
            };
            let py = if steep {
                x
            } else {
                y
            };
            if px >= 0 && py >= 0 {
                let _ = self.image.set(px as usize, py as usize, color);
            }
            proof {
                let pxi = px as int;
                let pyi = py as int;
                if 0 <= pxi < w && 0 <= pyi < h {
                    assert(self.image.pixels() == vh.update(pxi + pyi * w, color));
                } else {
                    assert(self.image.pixels() == vh);
                }
                assert(self.image.pixels() == put(vh, w, h, pxi, pyi, color));
            }
            error2 = error2 + derror2;
            if error2 > dx {
                y = y + sy;
                error2 = error2 - 2 * dx;
            }
            x = x + 1;
        }
        proof {
            assert(line_walk(
                self.image.pixels(),
                w,
                h,
                x as int,
                x1 as int,
                y as int,
                error2 as int,
                dx as int,
                derror2 as int,
                sy as int,
                steep,
                color,
            ) == self.image.pixels());
        }
    }

    /// Fill the triangle `t0 t1 t2` with a two-half scanline sweep: sort
    /// the vertices by `y`, then for each row interpolate the long edge
    /// and the current half's short edge and fill the span between them
    /// inclusive. The filled rows run from the lowest vertex's row up to,
    /// not including, the highest vertex's row; pixels outside the buffer
    /// are skipped.
    #[verifier::loop_isolation(false)]
    #[verifier::rlimit(100)]
    pub fn triangle(&mut self, t0: Vec2<isize>, t1: Vec2<isize>, t2: Vec2<isize>, color: T)
        requires
            old(self).image.wf(),
            coord_in_range(t0),
            coord_in_range(t1),
            coord_in_range(t2),
        ensures
            final(self).image.wf(),
            final(self).image.spec_width() == old(self).image.spec_width(),
            final(self).image.spec_height() == old(self).image.spec_height(),
            final(self).image.pixels() == triangle_result(
                old(self).image.pixels(),
                old(self).image.spec_width(),
                old(self).image.spec_height(),
                (t0.x as int, t0.y as int),
                (t1.x as int, t1.y as int),
                (t2.x as int, t2.y as int),
                color,
            ),
    {
        let ghost w = self.image.spec_width();
        let ghost h = self.image.spec_height();
        let ghost v0 = self.image.pixels();
        let mut q0 = t0;
        let mut q1 = t1;
        let mut q2 = t2;
        if q0.y > q1.y {
            let t = q0;
            q0 = q1;
            q1 = t;
        }
        if q0.y > q2.y {
            let t = q0;
            q0 = q2;
            q2 = t;
        }
        if q1.y > q2.y {
            let t = q1;
            q1 = q2;
            q2 = t;
        }
        let ghost s0 = (q0.x as int, q0.y as int);
        let ghost s1 = (q1.x as int, q1.y as int);
        let ghost s2 = (q2.x as int, q2.y as int);
        proof {
            assert(sort3_y(
                (t0.x as int, t0.y as int),
                (t1.x as int, t1.y as int),
                (t2.x as int, t2.y as int),
            ) == (s0, s1, s2));
        }
        let x0: i64 = q0.x as i64;
        let y0: i64 = q0.y as i64;
        let x1: i64 = q1.x as i64;
        let y1: i64 = q1.y as i64;
        let x2: i64 = q2.x as i64;
        let y2: i64 = q2.y as i64;
        let total: i64 = y2 - y0;
        let mut i: i64 = 0;
        while i < total
            invariant
                self.image.wf(),
                self.image.spec_width() == w,
                self.image.spec_height() == h,
                0 <= i <= total,
                triangle_result(
                    v0,
                    w,
                    h,
                    (t0.x as int, t0.y as int),
                    (t1.x as int, t1.y as int),
                    (t2.x as int, t2.y as int),
                    color,
                ) == tri_fill(self.image.pixels(), w, h, s0, s1, s2, i as int, color),
            decreases total - i,
        {
            let ghost vh = self.image.pixels();
            let second_half = i > y1 - y0 || y1 == y0;
            let seg: i64 = if second_half {
                y2 - y1
            } else {
                y1 - y0
            };
            proof {
                assert(seg >= 1);
                assert(-0x4000_0000_0000_0000 <= (x2 - x0) * i <= 0x4000_0000_0000_0000)
                    by (nonlinear_arith)
                    requires
                        -0x8000_0000 <= x2 - x0 <= 0x8000_0000,
                        0 <= i <= 0x8000_0000,
                ;
            }
            let na = (x2 - x0) * i;
            let da = tdiv_exec(na, total);
            proof {
                lemma_tdiv_interp_bound((x2 - x0) as int, i as int, total as int);
            }
            let ax = x0 + da;
            let bx: i64;
            if second_half {
                let i2 = i - (y1 - y0);
                proof {
                    assert(0 <= i2 <= seg);
                    assert(-0x4000_0000_0000_0000 <= (x2 - x1) * i2 <= 0x4000_0000_0000_0000)
                        by (nonlinear_arith)
                        requires
                            -0x8000_0000 <= x2 - x1 <= 0x8000_0000,
                            0 <= i2 <= 0x8000_0000,
                    ;
                }
                let nb = (x2 - x1) * i2;
                let db = tdiv_exec(nb, seg);
                proof {
                    lemma_tdiv_interp_bound((x2 - x1) as int, i2 as int, seg as int);
                }
                bx = x1 + db;
            } else {
                proof {
                    assert(0 <= i <= seg);
                    assert(-0x4000_0000_0000_0000 <= (x1 - x0) * i <= 0x4000_0000_0000_0000)
                        by (nonlinear_arith)
                        requires
                            -0x8000_0000 <= x1 - x0 <= 0x8000_0000,
                            0 <= i <= 0x8000_0000,
                    ;
                }
                let nb = (x1 - x0) * i;
                let db = tdiv_exec(nb, seg);
                proof {
                    lemma_tdiv_interp_bound((x1 - x0) as int, i as int, seg as int);
                }
                bx = x0 + db;
            }
            proof {
                assert(ax as int == tri_ax(s0, s2, i as int));
                assert(bx as int == tri_bx(s0, s1, s2, i as int));
            }
            let xl = if ax <= bx {
                ax
            } else {
                bx
            };
            let xr = if ax <= bx {
                bx
            } else {
                ax
            };
            let yrow = y0 + i;
            proof {
                assert(tri_fill(vh, w, h, s0, s1, s2, i as int, color) == tri_fill(
                    row_fill(vh, w, h, xl as int, xr as int, yrow as int, color),
                    w,
                    h,
                    s0,
                    s1,
                    s2,
                    i + 1,
                    color,
                ));
            }
            let ghost target = row_fill(vh, w, h, xl as int, xr as int, yrow as int, color);
            let mut xx = xl;
            while xx <= xr
                invariant
                    self.image.wf(),
                    self.image.spec_width() == w,
                    self.image.spec_height() == h,
                    xl <= xx <= xr + 1,
                    target == row_fill(
                        self.image.pixels(),
                        w,
                        h,
                        xx as int,
                        xr as int,
                        yrow as int,
                        color,
                    ),
                decreases xr + 1 - xx,
            {
                let ghost vr = self.image.pixels();
                if xx >= 0 && yrow >= 0 {
                    let _ = self.image.set(xx as usize, yrow as usize, color);
                }
                proof {
                    if 0 <= (xx as int) < w && 0 <= (yrow as int) < h {
                        assert(self.image.pixels() == vr.update(xx + yrow * w, color));
                    } else {
                        assert(self.image.pixels() == vr);
                    }
                    assert(self.image.pixels() == put(vr, w, h, xx as int, yrow as int, color));
                }
                xx = xx + 1;
            }
            proof {
                assert(row_fill(
                    self.image.pixels(),
                    w,
                    h,
                    xx as int,
                    xr as int,
                    yrow as int,
                    color,
                ) == self.image.pixels());
                assert(self.image.pixels() == target);
            }
            i = i + 1;
        }
        proof {
            assert(tri_fill(self.image.pixels(), w, h, s0, s1, s2, i as int, color)
                == self.image.pixels());
        }
    }
}

/// The buffer after drawing the outline of the triangle `t0 t1 t2`: with
/// the vertices sorted by `y`, the edges to and from the middle vertex in
/// green, and the long edge in red.
pub open spec fn wire_result(
    v: Seq<RGBA>,
    w: int,
    h: int,
    t0: (int, int),
    t1: (int, int),
    t2: (int, int),
) -> Seq<RGBA> {
    let s = sort3_y(t0, t1, t2);
    let v1 = line_result(v, w, h, s.0.0, s.0.1, s.1.0, s.1.1, spec_green());
    let v2 = line_result(v1, w, h, s.1.0, s.1.1, s.2.0, s.2.1, spec_green());
    line_result(v2, w, h, s.2.0, s.2.1, s.0.0, s.0.1, spec_red())
}

/// The rows of the lower half of a sorted triangle, each marked with its
/// long-edge boundary point in red and its short-edge boundary point in
/// green.
pub open spec fn tt2_fill(
    v: Seq<RGBA>,
    w: int,
    h: int,
    s0: (int, int),
    s1: (int, int),
    s2: (int, int),
    y: int,
) -> Seq<RGBA>
    decreases s1.1 + 1 - y when y <= s1.1 + 1
{
    if y > s1.1 {
        v
    } else {
        let total = s2.1 - s0.1;
        let seg = s1.1 - s0.1 + 1;
        let p0x = s0.0 + tdiv((s2.0 - s0.0) * (y - s0.1), total);
        let p1x = s0.0 + tdiv((s1.0 - s0.0) * (y - s0.1), seg);
        tt2_fill(
            put(put(v, w, h, p0x, y, spec_red()), w, h, p1x, y, spec_green()),
            w,
            h,
            s0,
            s1,
            s2,
            y + 1,
        )
    }
}

/// The buffer after marking the boundary points of the lower half of the
/// triangle `t0 t1 t2`.
pub open spec fn tt2_result(
    v: Seq<RGBA>,
    w: int,
    h: int,
    t0: (int, int),
    t1: (int, int),
    t2: (int, int),
) -> Seq<RGBA> {
    let s = sort3_y(t0, t1, t2);
    tt2_fill(v, w, h, s.0, s.1, s.2, s.0.1)
}

/// The filled rows of the lower half of a sorted triangle, in red, with
/// the half's height padded by one to avoid a zero divisor.
pub open spec fn tt3_lower(
    v: Seq<RGBA>,
    w: int,
    h: int,
    s0: (int, int),
    s1: (int, int),
    s2: (int, int),
    y: int,
) -> Seq<RGBA>
    decreases s1.1 + 1 - y when y <= s1.1 + 1
{
    if y > s1.1 {
        v
    } else {
        let total = s2.1 - s0.1;
        let seg = s1.1 - s0.1 + 1;
        let ax = s0.0 + tdiv((s2.0 - s0.0) * (y - s0.1), total);
        let bx = s0.0 + tdiv((s1.0 - s0.0) * (y - s0.1), seg);
        let xl = if ax <= bx {
            ax
        } else {
            bx
        };
        let xr = if ax <= bx {
            bx
        } else {
            ax
        };
        tt3_lower(row_fill(v, w, h, xl, xr, y, spec_red()), w, h, s0, s1, s2, y + 1)
    }
}

/// The filled rows of the upper half of a sorted triangle, in white, with
/// the half's height padded by one to avoid a zero divisor.
pub open spec fn tt3_upper(
    v: Seq<RGBA>,
    w: int,
    h: int,
    s0: (int, int),
    s1: (int, int),
    s2: (int, int),
    y: int,
) -> Seq<RGBA>
    decreases s2.1 + 1 - y when y <= s2.1 + 1
{
    if y > s2.1 {
        v
    } else {
        let total = s2.1 - s0.1;
        let seg = s2.1 - s1.1 + 1;
        let ax = s0.0 + tdiv((s2.0 - s0.0) * (y - s0.1), total);
        let bx = s1.0 + tdiv((s2.0 - s1.0) * (y - s1.1), seg);
        let xl = if ax <= bx {
            ax
        } else {
            bx
        };
        let xr = if ax <= bx {
            bx
        } else {
            ax
        };
        tt3_upper(row_fill(v, w, h, xl, xr, y, spec_white()), w, h, s0, s1, s2, y + 1)
    }
}

/// The buffer after the two-pass fill of the triangle `t0 t1 t2`: the
/// lower half in red, then the upper half in white.
pub open spec fn tt3_result(
    v: Seq<RGBA>,
    w: int,
    h: int,
    t0: (int, int),
    t1: (int, int),
    t2: (int, int),
) -> Seq<RGBA> {
    let s = sort3_y(t0, t1, t2);
    tt3_upper(tt3_lower(v, w, h, s.0, s.1, s.2, s.0.1), w, h, s.0, s.1, s.2, s.1.1)
}

impl Rasterizer<RGBA> {
    /// Draw the triangle's outline: with the vertices sorted by `y`, the
    /// two short edges in green and the long edge in red.
    pub fn triangle_test_1(&mut self, t0: Vec2<isize>, t1: Vec2<isize>, t2: Vec2<isize>)
        requires
            old(self).image.wf(),
            coord_in_range(t0),
            coord_in_range(t1),
            coord_in_range(t2),
        ensures
            final(self).image.wf(),
            final(self).image.spec_width() == old(self).image.spec_width(),
            final(self).image.spec_height() == old(self).image.spec_height(),
            final(self).image.pixels() == wire_result(
                old(self).image.pixels(),
                old(self).image.spec_width(),
                old(self).image.spec_height(),
                (t0.x as int, t0.y as int),
                (t1.x as int, t1.y as int),
                (t2.x as int, t2.y as int),
            ),
    {
        let mut q0 = t0;
        let mut q1 = t1;
        let mut q2 = t2;
        if q0.y > q1.y {
            let t = q0;
            q0 = q1;
            q1 = t;
        }
        if q0.y > q2.y {
            let t = q0;
            q0 = q2;
            q2 = t;
        }
        if q1.y > q2.y {
            let t = q1;
            q1 = q2;
            q2 = t;
        }
        proof {
            assert(sort3_y(
                (t0.x as int, t0.y as int),
                (t1.x as int, t1.y as int),
                (t2.x as int, t2.y as int),
            ) == ((q0.x as int, q0.y as int), (q1.x as int, q1.y as int), (q2.x as int, q2.y as int)));
        }
        self.line(q0, q1, green());
        self.line(q1, q2, green());
        self.line(q2, q0, red());
    }

    /// Mark the boundary points of the triangle's lower half: with the
    /// vertices sorted by `y`, for each row of the lower half the
    /// long-edge boundary point in red and the short-edge boundary point
    /// in green.
    #[verifier::loop_isolation(false)]
    #[verifier::rlimit(100)]
    pub fn triangle_test_2(&mut self, t0: Vec2<isize>, t1: Vec2<isize>, t2: Vec2<isize>)
        requires
            old(self).image.wf(),
            coord_in_range(t0),
            coord_in_range(t1),
            coord_in_range(t2),
        ensures
            final(self).image.wf(),
            final(self).image.spec_width() == old(self).image.spec_width(),
            final(self).image.spec_height() == old(self).image.spec_height(),
            final(self).image.pixels() == tt2_result(
                old(self).image.pixels(),
                old(self).image.spec_width(),
                old(self).image.spec_height(),
                (t0.x as int, t0.y as int),
                (t1.x as int, t1.y as int),
                (t2.x as int, t2.y as int),
            ),
    {
        let ghost w = self.image.spec_width();
        let ghost h = self.image.spec_height();
        let ghost v0 = self.image.pixels();
        let mut q0 = t0;
        let mut q1 = t1;
        let mut q2 = t2;
        if q0.y > q1.y {
            let t = q0;
            q0 = q1;
            q1 = t;
        }
        if q0.y > q2.y {
            let t = q0;
            q0 = q2;
            q2 = t;
        }
        if q1.y > q2.y {
            let t = q1;
            q1 = q2;
            q2 = t;
        }
        let ghost s0 = (q0.x as int, q0.y as int);
        let ghost s1 = (q1.x as int, q1.y as int);
        let ghost s2 = (q2.x as int, q2.y as int);
        proof {
            assert(sort3_y(
                (t0.x as int, t0.y as int),
                (t1.x as int, t1.y as int),
                (t2.x as int, t2.y as int),
            ) == (s0, s1, s2));
        }
        let x0: i64 = q0.x as i64;
        let y0: i64 = q0.y as i64;
        let x1: i64 = q1.x as i64;
        let y1: i64 = q1.y as i64;
        let x2: i64 = q2.x as i64;
        let y2: i64 = q2.y as i64;
        let total: i64 = y2 - y0;
        let seg: i64 = y1 - y0 + 1;
        let mut yy: i64 = y0;
        while yy <= y1
            invariant
                self.image.wf(),
                self.image.spec_width() == w,
                self.image.spec_height() == h,
                y0 <= yy <= y1 + 1,
                tt2_result(
                    v0,
                    w,
                    h,
                    (t0.x as int, t0.y as int),
                    (t1.x as int, t1.y as int),
                    (t2.x as int, t2.y as int),
                ) == tt2_fill(self.image.pixels(), w, h, s0, s1, s2, yy as int),
            decreases y1 + 1 - yy,
        {
            let ghost vh = self.image.pixels();
            let i = yy - y0;
            proof {
                assert(-0x4000_0000_0000_0000 <= (x2 - x0) * i <= 0x4000_0000_0000_0000)
                    by (nonlinear_arith)
                    requires
                        -0x8000_0000 <= x2 - x0 <= 0x8000_0000,
                        0 <= i <= 0x8000_0000,
                ;
                assert(-0x4000_0000_0000_0000 <= (x1 - x0) * i <= 0x4000_0000_0000_0000)
                    by (nonlinear_arith)
                    requires
                        -0x8000_0000 <= x1 - x0 <= 0x8000_0000,
                        0 <= i <= 0x8000_0000,
                ;
            }
            let na = (x2 - x0) * i;
            let da = if total >= 1 {
                let d = tdiv_exec(na, total);
                proof {
                    lemma_tdiv_interp_bound((x2 - x0) as int, i as int, total as int);
                }
                d
            } else {
                0
            };
            let p0x = x0 + da;
            let nb = (x1 - x0) * i;
            let db = tdiv_exec(nb, seg);
            proof {
                lemma_tdiv_interp_bound((x1 - x0) as int, i as int, seg as int);
            }
            let p1x = x0 + db;
            let ghost mid = put(vh, w, h, p0x as int, yy as int, spec_red());
            if p0x >= 0 && yy >= 0 {
                let _ = self.image.set(p0x as usize, yy as usize, red());
            }
            proof {
                assert(self.image.pixels() == mid);
            }
            if p1x >= 0 && yy >= 0 {
                let _ = self.image.set(p1x as usize, yy as usize, green());
            }
            proof {
                assert(self.image.pixels() == put(mid, w, h, p1x as int, yy as int, spec_green()));
                assert(tt2_fill(vh, w, h, s0, s1, s2, yy as int) == tt2_fill(
                    self.image.pixels(),
                    w,
                    h,
                    s0,
                    s1,
                    s2,
                    yy + 1,
                ));
            }
            yy = yy + 1;
        }
    }

    /// Fill the triangle in two passes: with the vertices sorted by `y`,
    /// the rows of the lower half in red, then the rows of the upper half
    /// in white, each half's height padded by one in the interpolation to
    /// avoid a zero divisor.
    #[verifier::loop_isolation(false)]
    #[verifier::rlimit(100)]
    pub fn triangle_test_3(&mut self, t0: Vec2<isize>, t1: Vec2<isize>, t2: Vec2<isize>)
        requires
            old(self).image.wf(),
            coord_in_range(t0),
            coord_in_range(t1),
            coord_in_range(t2),
        ensures
            final(self).image.wf(),
            final(self).image.spec_width() == old(self).image.spec_width(),
            final(self).image.spec_height() == old(self).image.spec_height(),
            final(self).image.pixels() == tt3_result(
                old(self).image.pixels(),
                old(self).image.spec_width(),
                old(self).image.spec_height(),
                (t0.x as int, t0.y as int),
                (t1.x as int, t1.y as int),
                (t2.x as int, t2.y as int),
            ),
    {
        let ghost w = self.image.spec_width();
        let ghost h = self.image.spec_height();
        let ghost v0 = self.image.pixels();
        let mut q0 = t0;
        let mut q1 = t1;
        let mut q2 = t2;
        if q0.y > q1.y {
            let t = q0;
            q0 = q1;
            q1 = t;
        }
        if q0.y > q2.y {
            let t = q0;
            q0 = q2;
            q2 = t;
        }
        if q1.y > q2.y {
            let t = q1;
            q1 = q2;
            q2 = t;
        }
        let ghost s0 = (q0.x as int, q0.y as int);
        let ghost s1 = (q1.x as int, q1.y as int);
        let ghost s2 = (q2.x as int, q2.y as int);
        proof {
            assert(sort3_y(
                (t0.x as int, t0.y as int),
                (t1.x as int, t1.y as int),
                (t2.x as int, t2.y as int),
            ) == (s0, s1, s2));
        }
        let x0: i64 = q0.x as i64;
        let y0: i64 = q0.y as i64;
        let x1: i64 = q1.x as i64;
        let y1: i64 = q1.y as i64;
        let x2: i64 = q2.x as i64;
        let y2: i64 = q2.y as i64;
        let total: i64 = y2 - y0;
        let seg10: i64 = y1 - y0 + 1;
        let seg21: i64 = y2 - y1 + 1;
        let ghost vmid = tt3_lower(v0, w, h, s0, s1, s2, s0.1);
        let mut yy: i64 = y0;
        while yy <= y1
            invariant
                self.image.wf(),
                self.image.spec_width() == w,
                self.image.spec_height() == h,
                y0 <= yy <= y1 + 1,
                vmid == tt3_lower(self.image.pixels(), w, h, s0, s1, s2, yy as int),
            decreases y1 + 1 - yy,
        {
            let ghost vh = self.image.pixels();
            let i = yy - y0;
            proof {
                assert(-0x4000_0000_0000_0000 <= (x2 - x0) * i <= 0x4000_0000_0000_0000)
                    by (nonlinear_arith)
                    requires
                        -0x8000_0000 <= x2 - x0 <= 0x8000_0000,
                        0 <= i <= 0x8000_0000,
                ;
                assert(-0x4000_0000_0000_0000 <= (x1 - x0) * i <= 0x4000_0000_0000_0000)
                    by (nonlinear_arith)
                    requires
                        -0x8000_0000 <= x1 - x0 <= 0x8000_0000,
                        0 <= i <= 0x8000_0000,
                ;
            }
            let na = (x2 - x0) * i;
            let da = if total >= 1 {
                let d = tdiv_exec(na, total);
                proof {
                    lemma_tdiv_interp_bound((x2 - x0) as int, i as int, total as int);
                }
                d
            } else {
                0
            };
            let ax = x0 + da;
            let nb = (x1 - x0) * i;
            let db = tdiv_exec(nb, seg10);
            proof {
                lemma_tdiv_interp_bound((x1 - x0) as int, i as int, seg10 as int);
            }
            let bx = x0 + db;
            let xl = if ax <= bx {
                ax
            } else {
                bx
            };
            let xr = if ax <= bx {
                bx
            } else {
                ax
            };
            proof {
                assert(tt3_lower(vh, w, h, s0, s1, s2, yy as int) == tt3_lower(
                    row_fill(vh, w, h, xl as int, xr as int, yy as int, spec_red()),
                    w,
                    h,
                    s0,
                    s1,
                    s2,
                    yy + 1,
                ));
            }
            let ghost target = row_fill(vh, w, h, xl as int, xr as int, yy as int, spec_red());
            let mut xx = xl;
            while xx <= xr
                invariant
                    self.image.wf(),
                    self.image.spec_width() == w,
                    self.image.spec_height() == h,
                    xl <= xx <= xr + 1,
                    target == row_fill(
                        self.image.pixels(),
                        w,
                        h,
                        xx as int,
                        xr as int,
                        yy as int,
                        spec_red(),
                    ),
                decreases xr + 1 - xx,
            {
                let ghost vr = self.image.pixels();
                if xx >= 0 && yy >= 0 {
                    let _ = self.image.set(xx as usize, yy as usize, red());
                }
                proof {
                    assert(self.image.pixels() == put(vr, w, h, xx as int, yy as int, spec_red()));
                }
                xx = xx + 1;
            }
            proof {
                assert(self.image.pixels() == target);
            }
            yy = yy + 1;
        }
        proof {
            assert(self.image.pixels() == vmid);
        }
        let mut yy2: i64 = y1;
        while yy2 <= y2
            invariant
                self.image.wf(),
                self.image.spec_width() == w,
                self.image.spec_height() == h,
                y1 <= yy2 <= y2 + 1,
                tt3_upper(vmid, w, h, s0, s1, s2, s1.1) == tt3_upper(
                    self.image.pixels(),
                    w,
                    h,
                    s0,
                    s1,
                    s2,
                    yy2 as int,
                ),
            decreases y2 + 1 - yy2,
        {
            let ghost vh = self.image.pixels();
            let i = yy2 - y0;
            let i2 = yy2 - y1;
            proof {
                assert(-0x4000_0000_0000_0000 <= (x2 - x0) * i <= 0x4000_0000_0000_0000)
                    by (nonlinear_arith)
                    requires
                        -0x8000_0000 <= x2 - x0 <= 0x8000_0000,
                        0 <= i <= 0x8000_0000,
                ;
                assert(-0x4000_0000_0000_0000 <= (x2 - x1) * i2 <= 0x4000_0000_0000_0000)
                    by (nonlinear_arith)
                    requires
                        -0x8000_0000 <= x2 - x1 <= 0x8000_0000,
                        0 <= i2 <= 0x8000_0000,
                ;
            }
            let na = (x2 - x0) * i;
            let da = if total >= 1 {
                let d = tdiv_exec(na, total);
                proof {
                    lemma_tdiv_interp_bound((x2 - x0) as int, i as int, total as int);
                }
                d
            } else {
                0
            };
            let ax = x0 + da;
            let nb = (x2 - x1) * i2;
            let db = tdiv_exec(nb, seg21);
            proof {
                lemma_tdiv_interp_bound((x2 - x1) as int, i2 as int, seg21 as int);
            }
            let bx = x1 + db;
            let xl = if ax <= bx {
                ax
            } else {
                bx
            };
            let xr = if ax <= bx {
                bx
            } else {
                ax
            };
            proof {
                assert(tt3_upper(vh, w, h, s0, s1, s2, yy2 as int) == tt3_upper(
                    row_fill(vh, w, h, xl as int, xr as int, yy2 as int, spec_white()),
                    w,
                    h,
                    s0,
                    s1,
                    s2,
                    yy2 + 1,
                ));
            }
            let ghost target = row_fill(vh, w, h, xl as int, xr as int, yy2 as int, spec_white());
            let mut xx = xl;
            while xx <= xr
                invariant
                    self.image.wf(),
                    self.image.spec_width() == w,
                    self.image.spec_height() == h,
                    xl <= xx <= xr + 1,
                    target == row_fill(
                        self.image.pixels(),
                        w,
                        h,
                        xx as int,
                        xr as int,
                        yy2 as int,
                        spec_white(),
                    ),
                decreases xr + 1 - xx,
            {
                let ghost vr = self.image.pixels();
                if xx >= 0 && yy2 >= 0 {
                    let _ = self.image.set(xx as usize, yy2 as usize, white());
                }
                proof {
                    assert(self.image.pixels() == put(vr, w, h, xx as int, yy2 as int, spec_white()));
                }
                xx = xx + 1;
            }
            proof {
                assert(self.image.pixels() == target);
            }
            yy2 = yy2 + 1;
        }
    }
}

/// Drawing a segment from a point to itself writes exactly one pixel, at
/// that point (when it lies inside the buffer; nothing otherwise).
pub proof fn lemma_line_single_pixel<T>(v: Seq<T>, w: int, h: int, x: int, y: int, c: T)
    ensures
        line_result(v, w, h, x, y, x, y, c) == put(v, w, h, x, y, c),
{
    assert(line_walk(put(v, w, h, x, y, c), w, h, x + 1, x, y, 0, 0, 0, -1, false, c) == put(
        v,
        w,
        h,
        x,
        y,
        c,
    ));
    assert(line_result(v, w, h, x, y, x, y, c) == line_walk(v, w, h, x, x, y, 0, 0, 0, -1, false, c));
}

/// Drawing a segment writes the same pixels whichever way round its two
/// endpoints are given.
pub proof fn lemma_line_symmetric<T>(v: Seq<T>, w: int, h: int, x0: int, y0: int, x1: int, y1: int, c: T)
    ensures
        line_result(v, w, h, x0, y0, x1, y1, c) == line_result(v, w, h, x1, y1, x0, y0, c),
{
    let steep = abs_val(x0 - x1) < abs_val(y0 - y1);
    assert(steep == (abs_val(x1 - x0) < abs_val(y1 - y0)));
    if steep {
        if y0 == y1 {
            assert(false);
        }
    } else {
        if x0 == x1 {
            assert(abs_val(y0 - y1) <= abs_val(x0 - x1));
            assert(y0 == y1);
        }
    }
}

} // verus!
