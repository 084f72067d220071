//! The renderer: background fill, per-column wall stripes, pixel writes.
//!
//! Every pixel of a frame is pinned down by `frame_pixel_spec`: the top half
//! of the screen is ceiling, the bottom half floor, and each column that hit
//! a wall carries a centered vertical stripe whose height is inversely
//! proportional to the perpendicular wall distance, in the palette color of
//! the tile, shaded by the side that was hit.

use vstd::prelude::*;
use crate::fixed::FP_ONE;
use crate::grid::Grid;
use crate::player::{Player, lemma_cap_components};
use crate::ray::{
    CastResult, HitSide, RayOutcome, camera_x, camera_x_spec, cast_ray, cast_spec,
    lemma_cast_hit_fields, ray_dir, ray_dir_spec,
};

verus! {

/// Screen width of the stock window, in pixels.
pub const SCREEN_WIDTH: usize = 640;

/// Screen height of the stock window, in pixels.
pub const SCREEN_HEIGHT: usize = 480;

/// Packed `0xRRGGBB` color of the ceiling (dark gray).
pub const CEILING_COLOR: u32 = 0x1E1E1E;

/// Packed `0xRRGGBB` color of the floor (dark green).
pub const FLOOR_COLOR: u32 = 0x1E321E;

/// Background color of a row: ceiling in the top half, floor below.
pub open spec fn background_color_spec(y: int, h: int) -> u32 {
    if y < h / 2 {
        CEILING_COLOR
    } else {
        FLOOR_COLOR
    }
}

/// Palette color of a wall tile: each code has a hue, drawn brighter when a
/// horizontal grid line was crossed and darker for a vertical one; unknown
/// codes fall back to white/gray.
pub open spec fn wall_color_spec(tile: u8, side: HitSide) -> u32 {
    let bright = side == HitSide::Horizontal;
    if tile == 1 {
        if bright {
            0xFF0000
        } else {
            0xCC0000
        }
    } else if tile == 2 {
        if bright {
            0x00FF00
        } else {
            0x00CC00
        }
    } else if tile == 3 {
        if bright {
            0x0000FF
        } else {
            0x0000CC
        }
    } else if tile == 4 {
        if bright {
            0xFFFF00
        } else {
            0xCCCC00
        }
    } else {
        if bright {
            0xFFFFFF
        } else {
            0xCCCCCC
        }
    }
}

/// Palette lookup for a wall stripe.
pub fn wall_color(tile: u8, side: HitSide) -> (r: u32)
    ensures
        r == wall_color_spec(tile, side),
{
    let bright = match side {
        HitSide::Horizontal => true,
        HitSide::Vertical => false,
    };
    if tile == 1 {
        if bright {
            0xFF0000
        } else {
            0xCC0000
        }
    } else if tile == 2 {
        if bright {
            0x00FF00
        } else {
            0x00CC00
        }
    } else if tile == 3 {
        if bright {
            0x0000FF
        } else {
            0x0000CC
        }
    } else if tile == 4 {
        if bright {
            0xFFFF00
        } else {
            0xCCCC00
        }
    } else {
        if bright {
            0xFFFFFF
        } else {
            0xCCCCCC
        }
    }
}

/// On-screen stripe height for a wall at perpendicular distance
/// `num / den` tiles: `h / distance` pixels.  A zero distance fills the
/// column; a degenerate zero ray (`den == 0`) yields an empty stripe.
pub open spec fn line_height_spec(num: int, den: int, h: int) -> int {
    if num <= 0 {
        h
    } else {
        h * den / num
    }
}

/// First row (inclusive) of a stripe of height `lh`, clamped to the screen.
pub open spec fn draw_start_spec(lh: int, h: int) -> int {
    if lh / 2 <= h / 2 {
        h / 2 - lh / 2
    } else {
        0
    }
}

/// End row (exclusive) of a stripe of height `lh`, clamped to the screen.
pub open spec fn draw_end_spec(lh: int, h: int) -> int {
    if h / 2 + lh / 2 <= h - 1 {
        h / 2 + lh / 2
    } else {
        h - 1
    }
}

/// Clamped stripe rows for a hit at perpendicular distance `num / den`.
pub fn stripe_bounds(num: i64, den: i64, h: usize) -> (r: (usize, usize))
    requires
        0 <= num,
        0 <= den <= 8 * FP_ONE,
        0 < h <= 4096,
    ensures
        r.0 == draw_start_spec(line_height_spec(num as int, den as int, h as int), h as int),
        r.1 == draw_end_spec(line_height_spec(num as int, den as int, h as int), h as int),
        r.0 <= r.1 < h,
{
    proof {
        assert(0 <= (h as int) * den <= 0x8000_0000_0000) by (nonlinear_arith)
            requires
                0 < (h as int) <= 4096,
                0 <= (den as int) <= 8 * FP_ONE,
                FP_ONE == 0x100_0000,
        ;
    }
    let lh: i64 = if num <= 0 {
        h as i64
    } else {
        ((h as i64) * den) / num
    };
    proof {
        if num > 0 {
            vstd::arithmetic::div_mod::lemma_div_is_ordered(0, (h as int) * den, num as int);
        }
    }
    let half: i64 = lh / 2;
    let h2: i64 = (h / 2) as i64;
    let ds: usize = if half <= h2 {
        (h2 - half) as usize
    } else {
        0
    };
    let de: usize = if h2 + half <= (h as i64) - 1 {
        (h2 + half) as usize
    } else {
        h - 1
    };
    (ds, de)
}

/// A stripe that needs no clamping is symmetric about the vertical screen
/// center: its end lies as far below the center row as its start lies above.
pub proof fn lemma_stripe_symmetric(lh: int, h: int)
    requires
        0 <= lh,
        0 < h,
        h / 2 + lh / 2 <= h - 1,
    ensures
        draw_end_spec(lh, h) - h / 2 == h / 2 - draw_start_spec(lh, h),
{
}

/// Walls farther away draw shorter stripes: for one ray denominator, the
/// stripe height is antitone in the perpendicular distance numerator.
pub proof fn lemma_height_antitone(num1: int, num2: int, den: int, h: int)
    requires
        0 < num1 <= num2,
        0 <= den,
        0 <= h,
    ensures
        line_height_spec(num2, den, h) <= line_height_spec(num1, den, h),
{
    assert(0 <= h * den) by (nonlinear_arith)
        requires
            0 <= den,
            0 <= h,
    ;
    vstd::arithmetic::div_mod::lemma_div_is_ordered_by_denominator(h * den, num1, num2);
}

/// Ray direction of screen column `x` out of `w`, as a pair of fixed-point
/// components.
pub open spec fn column_ray_spec(p: Player, w: int, x: int) -> (int, int) {
    let cam = camera_x_spec(x, w);
    (
        ray_dir_spec(p.dir_x as int, p.plane_x as int, cam),
        ray_dir_spec(p.dir_y as int, p.plane_y as int, cam),
    )
}

/// The color every pixel `(x, y)` of a frame must take: the background of
/// its row, overlaid by the wall stripe of its column if the column's ray
/// hit a wall and `y` lies within the stripe.
pub open spec fn frame_pixel_spec(
    g: Seq<u8>,
    n: int,
    p: Player,
    w: int,
    h: int,
    x: int,
    y: int,
) -> u32 {
    let r = column_ray_spec(p, w, x);
    match cast_spec(g, n, p.pos_x as int, p.pos_y as int, r.0, r.1) {
        RayOutcome::Hit { num, den, tile, side, .. } => {
            let lh = line_height_spec(num, den, h);
            if draw_start_spec(lh, h) <= y < draw_end_spec(lh, h) {
                wall_color_spec(tile, side)
            } else {
                background_color_spec(y, h)
            }
        },
        RayOutcome::Miss => background_color_spec(y, h),
    }
}

/// Decomposition of a row-major pixel index `i` inside a `w`-by-`h`
/// buffer: column `i % w` and row `i / w`.
pub proof fn lemma_pixel_index(w: int, h: int, i: int)
    requires
        0 < w,
        0 < h,
        0 <= i < w * h,
    ensures
        0 <= i % w < w,
        0 <= i / w < h,
        i == (i / w) * w + (i % w),
{
    vstd::arithmetic::div_mod::lemma_fundamental_div_mod(i, w);
    assert(0 <= i % w < w && 0 <= i / w < h && i == (i / w) * w + (i % w)) by (nonlinear_arith)
        requires
            i == w * (i / w) + (i % w),
            0 <= i % w < w,
            0 <= i < w * h,
            0 < w,
            0 < h,
    ;
}

/// The row-major index of column `x`, row `y` decomposes back to `(x, y)`.
pub proof fn lemma_pixel_index_of(w: int, x: int, y: int)
    requires
        0 < w,
        0 <= x < w,
        0 <= y,
    ensures
        (y * w + x) % w == x,
        (y * w + x) / w == y,
{
    assert(y * w + x == y * (w as int) + x) by (nonlinear_arith);
    vstd::arithmetic::div_mod::lemma_fundamental_div_mod_converse(y * w + x, w, y, x);
}

/// Paints every pixel with its row's background color.
pub fn fill_background(buf: &mut Vec<u32>, w: usize, h: usize)
    requires
        old(buf).len() == w * h,
        0 < w,
        0 < h,
    ensures
        final(buf).len() == w * h,
        forall|i: int|
            0 <= i < w * h ==> final(buf)@[i] == background_color_spec(i / (w as int), h as int),
{
    let total: usize = buf.len();
    let mut i: usize = 0;
    while i < total
        invariant
            buf.len() == total,
            total == w * h,
            0 < w,
            0 < h,
            i <= total,
            forall|j: int|
                0 <= j < i ==> buf@[j] == background_color_spec(j / (w as int), h as int),
        decreases total - i,
    {
        let row: usize = i / w;
        let color: u32 = if row < h / 2 {
            CEILING_COLOR
        } else {
            FLOOR_COLOR
        };
        buf[i] = color;
        i += 1;
    }
}

/// Paints rows `ds .. de` of column `x` with `color`, leaving every other
/// pixel unchanged.
pub fn draw_column(
    buf: &mut Vec<u32>,
    w: usize,
    h: usize,
    x: usize,
    ds: usize,
    de: usize,
    color: u32,
)
    requires
        old(buf).len() == w * h,
        0 < w,
        0 < h,
        x < w,
        ds <= de <= h,
    ensures
        final(buf).len() == w * h,
        forall|i: int|
            0 <= i < w * h ==> final(buf)@[i] == (if i % (w as int) == x && ds <= i / (w as int)
                < de {
                color
            } else {
                old(buf)@[i]
            }),
{
    let mut y: usize = ds;
    while y < de
        invariant
            buf.len() == w * h,
            0 < w,
            0 < h,
            x < w,
            ds <= y <= de <= h,
            forall|i: int|
                0 <= i < w * h ==> buf@[i] == (if i % (w as int) == x && ds <= i / (w as int) < y {
                    color
                } else {
                    old(buf)@[i]
                }),
        decreases de - y,
    {
        proof {
            lemma_pixel_index_of(w as int, x as int, y as int);
            assert(0 <= (y as int) * w + x < w * h) by (nonlinear_arith)
                requires
                    0 < w,
                    0 <= (x as int) < w,
                    0 <= (y as int) < h,
            ;
        }
        buf[y * w + x] = color;
        proof {
            assert forall|i: int| 0 <= i < w * h implies buf@[i] == (if i % (w as int) == x && ds
                <= i / (w as int) < y + 1 {
                color
            } else {
                old(buf)@[i]
            }) by {
                lemma_pixel_index(w as int, h as int, i);
                if i % (w as int) == x && i / (w as int) == y {
                    assert(i == (y as int) * w + x) by (nonlinear_arith)
                        requires
                            i == (i / (w as int)) * w + (i % (w as int)),
                            i % (w as int) == x,
                            i / (w as int) == y,
                    ;
                }
            }
        }
        y += 1;
    }
}

/// Renders one full frame into `buf`: background fill, then one ray cast
/// and one wall stripe per screen column.  Every pixel of the result equals
/// `frame_pixel_spec` — written exactly once by the background fill and at
/// most once more by its column's stripe.
pub fn render_frame(g: &Grid, p: &Player, buf: &mut Vec<u32>, w: usize, h: usize)
    requires
        g.wf(),
        p.wf(g.dim()),
        old(buf).len() == w * h,
        0 < w <= 4096,
        0 < h <= 4096,
    ensures
        final(buf).len() == w * h,
        forall|i: int|
            0 <= i < w * h ==> final(buf)@[i] == frame_pixel_spec(
                g.tiles(),
                g.dim(),
                *p,
                w as int,
                h as int,
                i % (w as int),
                i / (w as int),
            ),
{
    fill_background(buf, w, h);
    let mut x: usize = 0;
    while x < w
        invariant
            g.wf(),
            p.wf(g.dim()),
            buf.len() == w * h,
            0 < w <= 4096,
            0 < h <= 4096,
            x <= w,
            forall|i: int|
                0 <= i < w * h ==> buf@[i] == (if i % (w as int) < x {
                    frame_pixel_spec(
                        g.tiles(),
                        g.dim(),
                        *p,
                        w as int,
                        h as int,
                        i % (w as int),
                        i / (w as int),
                    )
                } else {
                    background_color_spec(i / (w as int), h as int)
                }),
        decreases w - x,
    {
        let cam: i64 = camera_x(x, w);
        proof {
            lemma_cap_components(p.dir_x as int, p.dir_y as int);
            lemma_cap_components(p.plane_x as int, p.plane_y as int);
        }
        let rdx: i64 = ray_dir(p.dir_x, p.plane_x, cam);
        let rdy: i64 = ray_dir(p.dir_y, p.plane_y, cam);
        let res: CastResult = cast_ray(g, p.pos_x, p.pos_y, rdx, rdy);
        proof {
            lemma_cast_hit_fields(
                g.tiles(),
                g.dim(),
                p.pos_x as int,
                p.pos_y as int,
                rdx as int,
                rdy as int,
            );
        }
        match res {
            CastResult::Hit { perp_num, perp_den, tile, side, .. } => {
                let (ds, de) = stripe_bounds(perp_num, perp_den, h);
                let color: u32 = wall_color(tile, side);
                draw_column(buf, w, h, x, ds, de, color);
                proof {
                    assert forall|i: int| 0 <= i < w * h implies buf@[i] == (if i % (w as int) < x
                        + 1 {
                        frame_pixel_spec(
                            g.tiles(),
                            g.dim(),
                            *p,
                            w as int,
                            h as int,
                            i % (w as int),
                            i / (w as int),
                        )
                    } else {
                        background_color_spec(i / (w as int), h as int)
                    }) by {
                        lemma_pixel_index(w as int, h as int, i);
                    }
                }
            },
            CastResult::Miss => {
                proof {
                    assert forall|i: int| 0 <= i < w * h implies buf@[i] == (if i % (w as int) < x
                        + 1 {
                        frame_pixel_spec(
                            g.tiles(),
                            g.dim(),
                            *p,
                            w as int,
                            h as int,
                            i % (w as int),
                            i / (w as int),
                        )
                    } else {
                        background_color_spec(i / (w as int), h as int)
                    }) by {
                        lemma_pixel_index(w as int, h as int, i);
                    }
                }
            },
        }
        x += 1;
    }
}

} // verus!
