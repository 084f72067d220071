//! The per-column raycaster: a DDA walk through the grid.
//!
//! A ray starts at the player position and advances one grid-line crossing
//! at a time, along whichever axis has the nearer crossing.  All crossing
//! distances are kept as exact rationals: the walk compares
//! `ax / |rdx| < ay / |rdy|` by cross-multiplication, and the perpendicular
//! wall distance of a hit is returned as an exact fraction `num / den`
//! (in tiles), so no precision is lost anywhere in the walk.

use vstd::prelude::*;
use vstd::arithmetic::div_mod::{lemma_div_is_ordered, lemma_fundamental_div_mod};
use crate::fixed::{FP_ONE, abs_i, div_round, div_round_spec, lemma_div_round_le};
use crate::grid::{Grid, enclosed_spec, in_bounds, stock_tile, tile_spec};

verus! {

/// Which kind of grid line the ray crossed when it entered the hit cell:
/// `Vertical` for an x-axis step (a wall face parallel to the y axis),
/// `Horizontal` for a y-axis step.
#[derive(Clone, Copy, Debug, PartialEq, Eq, Structural)]
pub enum HitSide {
    Vertical,
    Horizontal,
}

/// Mathematical outcome of a ray walk: either a hit, with the perpendicular
/// wall distance `num / den` in tiles, the tile code struck, the side
/// crossed and the grid cell entered, or a miss once the step budget is
/// spent.
pub enum RayOutcome {
    Hit { num: int, den: int, tile: u8, side: HitSide, cell_x: int, cell_y: int },
    Miss,
}

/// Executable outcome of a ray walk; `perp_num / perp_den` is the
/// perpendicular wall distance in tiles, exactly, and `(cell_x, cell_y)`
/// the grid cell whose wall was struck.
#[derive(Clone, Copy, Debug)]
pub enum CastResult {
    Hit { perp_num: i64, perp_den: i64, tile: u8, side: HitSide, cell_x: i64, cell_y: i64 },
    Miss,
}

/// The mathematical value of an executable cast result.
pub open spec fn cast_view(r: CastResult) -> RayOutcome {
    match r {
        CastResult::Hit { perp_num, perp_den, tile, side, cell_x, cell_y } => RayOutcome::Hit {
            num: perp_num as int,
            den: perp_den as int,
            tile,
            side,
            cell_x: cell_x as int,
            cell_y: cell_y as int,
        },
        CastResult::Miss => RayOutcome::Miss,
    }
}

/// The grid cell containing fixed-point coordinate `p`.
pub open spec fn cell_of(p: int) -> int {
    p / (FP_ONE as int)
}

/// Step direction along one axis, from the sign of the ray component.
pub open spec fn step_of(rd: int) -> int {
    if rd < 0 {
        -1
    } else {
        1
    }
}

/// Axis distance (fixed-point) from `p` to the first grid line the ray
/// crosses on that axis.
pub open spec fn first_cross(p: int, rd: int) -> int {
    if rd < 0 {
        p - cell_of(p) * FP_ONE
    } else {
        (cell_of(p) + 1) * FP_ONE - p
    }
}

/// Step budget of a walk: twice the grid diagonal, counted in cells, so a
/// malformed map without enclosing walls yields `Miss` instead of spinning.
pub open spec fn fuel_of(n: int) -> nat {
    (4 * n) as nat
}

/// One DDA walk, as a recursive function over the remaining step budget.
///
/// `ax` (resp. `ay`) is the fixed-point distance along the x (resp. y) axis
/// from the ray origin to the next x (resp. y) grid-line crossing, so the
/// ray-length to that crossing is `ax / rdx_abs`; the walk advances the axis
/// whose crossing is nearer, comparing by cross-multiplication.  The walk
/// stops the first time the newly entered cell is in bounds and holds a
/// non-zero tile.
pub open spec fn dda_spec(
    g: Seq<u8>,
    n: int,
    map_x: int,
    map_y: int,
    step_x: int,
    step_y: int,
    ax: int,
    ay: int,
    rdx_abs: int,
    rdy_abs: int,
    fuel: nat,
) -> RayOutcome
    decreases fuel,
{
    if fuel == 0 {
        RayOutcome::Miss
    } else if ax * rdy_abs < ay * rdx_abs {
        let mx = map_x + step_x;
        if in_bounds(n, mx, map_y) && tile_spec(g, n, mx, map_y) > 0 {
            RayOutcome::Hit {
                num: ax,
                den: rdx_abs,
                tile: tile_spec(g, n, mx, map_y),
                side: HitSide::Vertical,
                cell_x: mx,
                cell_y: map_y,
            }
        } else {
            dda_spec(
                g,
                n,
                mx,
                map_y,
                step_x,
                step_y,
                ax + FP_ONE,
                ay,
                rdx_abs,
                rdy_abs,
                (fuel - 1) as nat,
            )
        }
    } else {
        let my = map_y + step_y;
        if in_bounds(n, map_x, my) && tile_spec(g, n, map_x, my) > 0 {
            RayOutcome::Hit {
                num: ay,
                den: rdy_abs,
                tile: tile_spec(g, n, map_x, my),
                side: HitSide::Horizontal,
                cell_x: map_x,
                cell_y: my,
            }
        } else {
            dda_spec(
                g,
                n,
                map_x,
                my,
                step_x,
                step_y,
                ax,
                ay + FP_ONE,
                rdx_abs,
                rdy_abs,
                (fuel - 1) as nat,
            )
        }
    }
}

/// Outcome of casting the ray `(rdx, rdy)` from fixed-point position
/// `(px, py)` through an `n`-by-`n` grid `g`.
pub open spec fn cast_spec(g: Seq<u8>, n: int, px: int, py: int, rdx: int, rdy: int) -> RayOutcome {
    dda_spec(
        g,
        n,
        cell_of(px),
        cell_of(py),
        step_of(rdx),
        step_of(rdy),
        first_cross(px, rdx),
        first_cross(py, rdy),
        abs_i(rdx),
        abs_i(rdy),
        fuel_of(n),
    )
}

/// Camera-space x of a screen column: `2 * x / w - 1`, in fixed point, so
/// column 0 maps to `-1` and column `w - 1` to just under `+1`.
pub open spec fn camera_x_spec(x: int, w: int) -> int {
    2 * x * FP_ONE / w - FP_ONE
}

/// Fixed-point camera-space x of screen column `x` out of `w`.
pub fn camera_x(x: usize, w: usize) -> (r: i64)
    requires
        0 < w <= 16384,
        x < w,
    ensures
        r == camera_x_spec(x as int, w as int),
        -FP_ONE <= r <= FP_ONE,
{
    let q: i64 = (2 * (x as i64) * FP_ONE) / (w as i64);
    proof {
        assert(2 * (x as int) * FP_ONE <= (w as int) * (2 * FP_ONE)) by (nonlinear_arith)
            requires
                0 <= x as int,
                (x as int) < (w as int),
                0 < FP_ONE,
        ;
        vstd::arithmetic::div_mod::lemma_div_multiples_vanish(2 * FP_ONE, w as int);
        lemma_div_is_ordered(0, 2 * (x as int) * FP_ONE, w as int);
        lemma_div_is_ordered(2 * (x as int) * FP_ONE, (w as int) * (2 * FP_ONE), w as int);
    }
    q - FP_ONE
}

/// Fixed-point component of the ray direction for one screen column:
/// `dir + plane * camera_x`, rounded to the nearest fixed-point unit.
pub open spec fn ray_dir_spec(d: int, pl: int, cam: int) -> int {
    div_round_spec(d * FP_ONE + pl * cam, FP_ONE as int)
}

/// One component of the ray direction for a screen column.
pub fn ray_dir(d: i64, pl: i64, cam: i64) -> (r: i64)
    requires
        -2 * FP_ONE <= d <= 2 * FP_ONE,
        -2 * FP_ONE <= pl <= 2 * FP_ONE,
        -FP_ONE <= cam <= FP_ONE,
    ensures
        r == ray_dir_spec(d as int, pl as int, cam as int),
        -4 * FP_ONE <= r <= 4 * FP_ONE,
{
    proof {
        assert(-(4 * FP_ONE) * FP_ONE <= d * FP_ONE + pl * cam <= (4 * FP_ONE)
            * FP_ONE) by (nonlinear_arith)
            requires
                -2 * FP_ONE <= d <= 2 * FP_ONE,
                -2 * FP_ONE <= pl <= 2 * FP_ONE,
                -FP_ONE <= cam <= FP_ONE,
                0 < FP_ONE,
        ;
        lemma_div_round_le(d as int * FP_ONE + pl as int * cam, FP_ONE as int, 4 * FP_ONE);
    }
    div_round(d * FP_ONE + pl * cam, FP_ONE)
}

/// The cell of a coordinate inside an `n`-tile span is in `0 .. n`, and the
/// distance to the first crossing on that axis is at most one tile.
proof fn lemma_start_state(p: int, rd: int, n: int)
    requires
        0 < n,
        0 <= p < n * FP_ONE,
    ensures
        0 <= cell_of(p) < n,
        0 <= first_cross(p, rd) <= FP_ONE,
        cell_of(p) * FP_ONE <= p < (cell_of(p) + 1) * FP_ONE,
{
    lemma_fundamental_div_mod(p, FP_ONE as int);
    assert(cell_of(p) < n) by (nonlinear_arith)
        requires
            p == FP_ONE * cell_of(p) + p % (FP_ONE as int),
            0 <= p % (FP_ONE as int) < FP_ONE,
            p < n * FP_ONE,
            0 <= p,
    ;
    assert(cell_of(p) >= 0) by (nonlinear_arith)
        requires
            p == FP_ONE * cell_of(p) + p % (FP_ONE as int),
            0 <= p % (FP_ONE as int) < FP_ONE,
            0 <= p,
    ;
}

/// A hit reported by the walk has a nonnegative distance numerator, and its
/// denominator is the absolute ray component of the axis that was crossed.
pub proof fn lemma_dda_hit_fields(
    g: Seq<u8>,
    n: int,
    map_x: int,
    map_y: int,
    step_x: int,
    step_y: int,
    ax: int,
    ay: int,
    rdx_abs: int,
    rdy_abs: int,
    fuel: nat,
)
    requires
        0 <= ax,
        0 <= ay,
        0 <= rdx_abs,
        0 <= rdy_abs,
    ensures
        match dda_spec(g, n, map_x, map_y, step_x, step_y, ax, ay, rdx_abs, rdy_abs, fuel) {
            RayOutcome::Hit { num, den, tile, side, cell_x, cell_y } => {
                &&& 0 <= num
                &&& 0 <= den
                &&& (side == HitSide::Vertical ==> den == rdx_abs)
                &&& (side == HitSide::Horizontal ==> den == rdy_abs)
                &&& (side == HitSide::Vertical ==> den > 0)
                &&& (0 < ax && 0 < ay ==> 0 < num)
                &&& in_bounds(n, cell_x, cell_y)
                &&& tile == tile_spec(g, n, cell_x, cell_y)
                &&& tile > 0
            },
            RayOutcome::Miss => true,
        },
    decreases fuel,
{
    if fuel == 0 {
    } else if ax * rdy_abs < ay * rdx_abs {
        assert(rdx_abs > 0) by (nonlinear_arith)
            requires
                ax * rdy_abs < ay * rdx_abs,
                0 <= ax,
                0 <= ay,
                0 <= rdx_abs,
                0 <= rdy_abs,
        ;
        let mx = map_x + step_x;
        if in_bounds(n, mx, map_y) && tile_spec(g, n, mx, map_y) > 0 {
        } else {
            lemma_dda_hit_fields(
                g,
                n,
                mx,
                map_y,
                step_x,
                step_y,
                ax + FP_ONE,
                ay,
                rdx_abs,
                rdy_abs,
                (fuel - 1) as nat,
            );
        }
    } else {
        let my = map_y + step_y;
        if in_bounds(n, map_x, my) && tile_spec(g, n, map_x, my) > 0 {
        } else {
            lemma_dda_hit_fields(
                g,
                n,
                map_x,
                my,
                step_x,
                step_y,
                ax,
                ay + FP_ONE,
                rdx_abs,
                rdy_abs,
                (fuel - 1) as nat,
            );
        }
    }
}

/// The fields of a hit from a full cast: distance numerator nonnegative,
/// denominator the absolute ray component of the crossed axis.
pub proof fn lemma_cast_hit_fields(g: Seq<u8>, n: int, px: int, py: int, rdx: int, rdy: int)
    requires
        0 < n,
        0 <= px < n * FP_ONE,
        0 <= py < n * FP_ONE,
    ensures
        match cast_spec(g, n, px, py, rdx, rdy) {
            RayOutcome::Hit { num, den, tile, side, cell_x, cell_y } => {
                &&& 0 <= num
                &&& 0 <= den
                &&& (side == HitSide::Vertical ==> den == abs_i(rdx) && den > 0)
                &&& (side == HitSide::Horizontal ==> den == abs_i(rdy))
                &&& (0 < first_cross(px, rdx) && 0 < first_cross(py, rdy) ==> 0 < num)
                &&& in_bounds(n, cell_x, cell_y)
                &&& tile == tile_spec(g, n, cell_x, cell_y)
                &&& tile > 0
            },
            RayOutcome::Miss => true,
        },
{
    lemma_start_state(px, rdx, n);
    lemma_start_state(py, rdy, n);
    lemma_dda_hit_fields(
        g,
        n,
        cell_of(px),
        cell_of(py),
        step_of(rdx),
        step_of(rdy),
        first_cross(px, rdx),
        first_cross(py, rdy),
        abs_i(rdx),
        abs_i(rdy),
        fuel_of(n),
    );
}

/// For a nonnegative coordinate, the cell index is nonnegative, and it lies
/// left of column `n` exactly when the coordinate lies inside `n` tiles.
pub proof fn lemma_cell_range(p: int, n: int)
    requires
        0 <= p,
        0 < n,
    ensures
        0 <= cell_of(p),
        cell_of(p) < n <==> p < n * FP_ONE,
{
    lemma_fundamental_div_mod(p, FP_ONE as int);
    assert(0 <= cell_of(p) && (cell_of(p) < n <==> p < n * FP_ONE)) by (nonlinear_arith)
        requires
            p == FP_ONE * cell_of(p) + p % (FP_ONE as int),
            0 <= p % (FP_ONE as int) < FP_ONE,
            0 <= p,
            0 < n,
            0 < FP_ONE,
    ;
}

/// Along the walk, `ax` is always the fixed-point distance from the origin
/// coordinate `px` to the next x grid line in the step direction (and `ay`
/// likewise), so a hit's distance numerator is exactly the distance from
/// the origin to the face of the entered cell that the ray crossed.
proof fn lemma_dda_face_walk(
    g: Seq<u8>,
    n: int,
    map_x: int,
    map_y: int,
    step_x: int,
    step_y: int,
    ax: int,
    ay: int,
    rdx_abs: int,
    rdy_abs: int,
    fuel: nat,
    px: int,
    py: int,
)
    requires
        step_x == 1 || step_x == -1,
        step_y == 1 || step_y == -1,
        ax == if step_x == 1 {
            (map_x + 1) * FP_ONE - px
        } else {
            px - map_x * FP_ONE
        },
        ay == if step_y == 1 {
            (map_y + 1) * FP_ONE - py
        } else {
            py - map_y * FP_ONE
        },
    ensures
        match dda_spec(g, n, map_x, map_y, step_x, step_y, ax, ay, rdx_abs, rdy_abs, fuel) {
            RayOutcome::Hit { num, den, tile, side, cell_x, cell_y } => {
                &&& (side == HitSide::Vertical ==> num == if step_x == 1 {
                    cell_x * FP_ONE - px
                } else {
                    px - (cell_x + 1) * FP_ONE
                })
                &&& (side == HitSide::Horizontal ==> num == if step_y == 1 {
                    cell_y * FP_ONE - py
                } else {
                    py - (cell_y + 1) * FP_ONE
                })
            },
            RayOutcome::Miss => true,
        },
    decreases fuel,
{
    if fuel == 0 {
    } else if ax * rdy_abs < ay * rdx_abs {
        let mx = map_x + step_x;
        if in_bounds(n, mx, map_y) && tile_spec(g, n, mx, map_y) > 0 {
        } else {
            lemma_dda_face_walk(
                g,
                n,
                mx,
                map_y,
                step_x,
                step_y,
                ax + FP_ONE,
                ay,
                rdx_abs,
                rdy_abs,
                (fuel - 1) as nat,
                px,
                py,
            );
        }
    } else {
        let my = map_y + step_y;
        if in_bounds(n, map_x, my) && tile_spec(g, n, map_x, my) > 0 {
        } else {
            lemma_dda_face_walk(
                g,
                n,
                map_x,
                my,
                step_x,
                step_y,
                ax,
                ay + FP_ONE,
                rdx_abs,
                rdy_abs,
                (fuel - 1) as nat,
                px,
                py,
            );
        }
    }
}

/// A hit's perpendicular-distance numerator is exactly the axis distance
/// from the ray origin to the crossed face of the hit cell: a vertical-side
/// hit at cell column `cell_x` has `num == cell_x * FP_ONE - px` for a
/// rightward ray and `num == px - (cell_x + 1) * FP_ONE` for a leftward
/// one, and likewise on the other axis.  Two rays from one origin that hit
/// the same wall face therefore report the same numerator, whatever their
/// slopes: with `lemma_perp_is_projection`, a flat wall face renders at one
/// facing-direction distance across all columns.
pub proof fn lemma_cast_hit_face(g: Seq<u8>, n: int, px: int, py: int, rdx: int, rdy: int)
    requires
        0 < n,
        0 <= px < n * FP_ONE,
        0 <= py < n * FP_ONE,
    ensures
        match cast_spec(g, n, px, py, rdx, rdy) {
            RayOutcome::Hit { num, den, tile, side, cell_x, cell_y } => {
                &&& (side == HitSide::Vertical ==> num == if rdx >= 0 {
                    cell_x * FP_ONE - px
                } else {
                    px - (cell_x + 1) * FP_ONE
                })
                &&& (side == HitSide::Horizontal ==> num == if rdy >= 0 {
                    cell_y * FP_ONE - py
                } else {
                    py - (cell_y + 1) * FP_ONE
                })
            },
            RayOutcome::Miss => true,
        },
{
    lemma_start_state(px, rdx, n);
    lemma_start_state(py, rdy, n);
    lemma_dda_face_walk(
        g,
        n,
        cell_of(px),
        cell_of(py),
        step_of(rdx),
        step_of(rdy),
        first_cross(px, rdx),
        first_cross(py, rdy),
        abs_i(rdx),
        abs_i(rdy),
        fuel_of(n),
        px,
        py,
    );
}

/// Fisheye correction: for a pose whose camera plane is perpendicular to
/// its facing direction, the column ray `(rdx2, rdy2) = dir * FP_ONE +
/// plane * cam` satisfies `rdx2 * dx + rdy2 * dy == FP_ONE * |dir|^2`,
/// whatever the column.  A hit at ray parameter `t = num / den` therefore
/// has its displacement `t * (rdx2, rdy2)` project onto the facing
/// direction as `t * FP_ONE * |dir|^2`: the perpendicular distance measures
/// distance along the facing direction, not raw ray length, so a flat wall
/// face yields matching distances across columns rather than a fisheye
/// curve.
pub proof fn lemma_perp_is_projection(
    dx: int,
    dy: int,
    plx: int,
    ply: int,
    cam: int,
    rdx2: int,
    rdy2: int,
)
    requires
        dx * plx + dy * ply == 0,
        rdx2 == dx * FP_ONE + plx * cam,
        rdy2 == dy * FP_ONE + ply * cam,
    ensures
        rdx2 * dx + rdy2 * dy == FP_ONE * (dx * dx + dy * dy),
{
    assert((dx * FP_ONE + plx * cam) * dx + (dy * FP_ONE + ply * cam) * dy == FP_ONE * (dx * dx
        + dy * dy) + cam * (dx * plx + dy * ply)) by (nonlinear_arith);
    assert(cam * (dx * plx + dy * ply) == 0) by (nonlinear_arith)
        requires
            dx * plx + dy * ply == 0,
    ;
}

/// A walk straight down an empty corridor: with no cross-axis component and
/// the first wall of the row at column `w`, the walk reaches it in exactly
/// `w - map_x` steps and reports the crossing of its near face.
proof fn lemma_dda_corridor_walk(
    g: Seq<u8>,
    n: int,
    map_x: int,
    map_y: int,
    step_y: int,
    ax: int,
    ay: int,
    rdx: int,
    w: int,
    fuel: nat,
)
    requires
        0 < rdx,
        0 < ay,
        0 <= map_y < n,
        0 <= map_x < w < n,
        tile_spec(g, n, w, map_y) > 0,
        forall|j: int| map_x < j < w ==> tile_spec(g, n, j, map_y) == 0,
        fuel >= w - map_x,
    ensures
        dda_spec(g, n, map_x, map_y, 1, step_y, ax, ay, rdx, 0, fuel) == (RayOutcome::Hit {
            num: ax + (w - map_x - 1) * FP_ONE,
            den: rdx,
            tile: tile_spec(g, n, w, map_y),
            side: HitSide::Vertical,
            cell_x: w,
            cell_y: map_y,
        }),
    decreases fuel,
{
    assert(ax * 0 < ay * rdx) by (nonlinear_arith)
        requires
            0 < ay,
            0 < rdx,
    ;
    let mx = map_x + 1;
    if mx == w {
    } else {
        assert(tile_spec(g, n, mx, map_y) == 0);
        lemma_dda_corridor_walk(
            g,
            n,
            mx,
            map_y,
            step_y,
            ax + FP_ONE,
            ay,
            rdx,
            w,
            (fuel - 1) as nat,
        );
    }
}

/// Casting a ray straight down an empty corridor (positive x component, no
/// y component) hits the first wall of the row, at column `w`, crossing its
/// near face: the perpendicular distance is exactly
/// `(w * FP_ONE - px) / rdx` — `w - px` tiles, in ray units — and the tile
/// code is that wall's.
pub proof fn lemma_cast_corridor(g: Seq<u8>, n: int, px: int, py: int, rdx: int, w: int)
    requires
        0 < n,
        0 <= px < n * FP_ONE,
        0 <= py < n * FP_ONE,
        0 < rdx,
        cell_of(px) < w < n,
        tile_spec(g, n, w, cell_of(py)) > 0,
        forall|j: int| cell_of(px) < j < w ==> tile_spec(g, n, j, cell_of(py)) == 0,
    ensures
        cast_spec(g, n, px, py, rdx, 0) == (RayOutcome::Hit {
            num: w * FP_ONE - px,
            den: rdx,
            tile: tile_spec(g, n, w, cell_of(py)),
            side: HitSide::Vertical,
            cell_x: w,
            cell_y: cell_of(py),
        }),
{
    lemma_start_state(px, rdx, n);
    lemma_start_state(py, 0, n);
    lemma_dda_corridor_walk(
        g,
        n,
        cell_of(px),
        cell_of(py),
        1,
        first_cross(px, rdx),
        first_cross(py, 0),
        rdx,
        w,
        fuel_of(n),
    );
    assert(first_cross(px, rdx) + (w - cell_of(px) - 1) * FP_ONE == w * FP_ONE
        - px) by (nonlinear_arith)
        requires
            first_cross(px, rdx) == (cell_of(px) + 1) * FP_ONE - px,
    ;
}

/// On any grid laid out as the stock level, a rightward ray cast from the
/// open corridor of row 2 hits the wall spur at column 12: from the stock
/// start (2.5, 2.5) the perpendicular distance is exactly
/// `(12 * FP_ONE - px) / rdx` — 9.5 tiles — with tile code 1 on a vertical
/// side, at cell (12, 2).
pub proof fn lemma_stock_corridor(g: Seq<u8>, px: int, py: int, rdx: int)
    requires
        forall|x: int, y: int| in_bounds(16, x, y) ==> tile_spec(g, 16, x, y) == stock_tile(x, y),
        0 <= px < 16 * FP_ONE,
        0 <= py < 16 * FP_ONE,
        1 <= cell_of(px) < 12,
        cell_of(py) == 2,
        0 < rdx,
    ensures
        cast_spec(g, 16, px, py, rdx, 0) == (RayOutcome::Hit {
            num: 12 * FP_ONE - px,
            den: rdx,
            tile: 1,
            side: HitSide::Vertical,
            cell_x: 12,
            cell_y: 2,
        }),
{
    assert(tile_spec(g, 16, 12, 2) == stock_tile(12, 2));
    assert forall|j: int| cell_of(px) < j < 12 implies tile_spec(g, 16, j, 2) == 0 by {
        assert(tile_spec(g, 16, j, 2) == stock_tile(j, 2));
    }
    lemma_cast_corridor(g, 16, px, py, rdx, 12);
}

/// In an enclosed grid the walk cannot escape: from an interior cell, every
/// step lands in bounds, and each step moves one axis one cell closer to
/// its boundary wall, so the walk hits some wall within
/// `dist_x + dist_y` steps — at most the grid size per axis.
proof fn lemma_dda_enclosed_walk(
    g: Seq<u8>,
    n: int,
    map_x: int,
    map_y: int,
    step_x: int,
    step_y: int,
    ax: int,
    ay: int,
    rdx_abs: int,
    rdy_abs: int,
    fuel: nat,
)
    requires
        enclosed_spec(g, n),
        1 <= map_x <= n - 2,
        1 <= map_y <= n - 2,
        step_x == 1 || step_x == -1,
        step_y == 1 || step_y == -1,
        fuel >= (if step_x == 1 {
            n - 1 - map_x
        } else {
            map_x
        }) + (if step_y == 1 {
            n - 1 - map_y
        } else {
            map_y
        }),
    ensures
        (dda_spec(g, n, map_x, map_y, step_x, step_y, ax, ay, rdx_abs, rdy_abs, fuel) is Hit),
    decreases fuel,
{
    if ax * rdy_abs < ay * rdx_abs {
        let mx = map_x + step_x;
        assert(in_bounds(n, mx, map_y));
        if tile_spec(g, n, mx, map_y) > 0 {
        } else {
            assert(1 <= mx <= n - 2);
            lemma_dda_enclosed_walk(
                g,
                n,
                mx,
                map_y,
                step_x,
                step_y,
                ax + FP_ONE,
                ay,
                rdx_abs,
                rdy_abs,
                (fuel - 1) as nat,
            );
        }
    } else {
        let my = map_y + step_y;
        assert(in_bounds(n, map_x, my));
        if tile_spec(g, n, map_x, my) > 0 {
        } else {
            assert(1 <= my <= n - 2);
            lemma_dda_enclosed_walk(
                g,
                n,
                map_x,
                my,
                step_x,
                step_y,
                ax,
                ay + FP_ONE,
                rdx_abs,
                rdy_abs,
                (fuel - 1) as nat,
            );
        }
    }
}

/// A cast from inside an enclosed grid always hits a wall within the step
/// budget, whatever the ray: the walk never returns `Miss`.
pub proof fn lemma_cast_enclosed(g: Seq<u8>, n: int, px: int, py: int, rdx: int, rdy: int)
    requires
        enclosed_spec(g, n),
        0 < n,
        0 <= px < n * FP_ONE,
        0 <= py < n * FP_ONE,
        1 <= cell_of(px) <= n - 2,
        1 <= cell_of(py) <= n - 2,
    ensures
        (cast_spec(g, n, px, py, rdx, rdy) is Hit),
{
    lemma_start_state(px, rdx, n);
    lemma_start_state(py, rdy, n);
    lemma_dda_enclosed_walk(
        g,
        n,
        cell_of(px),
        cell_of(py),
        step_of(rdx),
        step_of(rdy),
        first_cross(px, rdx),
        first_cross(py, rdy),
        abs_i(rdx),
        abs_i(rdy),
        fuel_of(n),
    );
}

/// Walks the DDA for the ray `(rdx, rdy)` from `(px, py)`, with a step
/// budget of twice the grid diagonal; returns the first wall entered, with
/// its exact perpendicular distance, or `Miss` if the budget runs out.
pub fn cast_ray(g: &Grid, px: i64, py: i64, rdx: i64, rdy: i64) -> (r: CastResult)
    requires
        g.wf(),
        0 <= px < g.dim() * FP_ONE,
        0 <= py < g.dim() * FP_ONE,
        -8 * FP_ONE <= rdx <= 8 * FP_ONE,
        -8 * FP_ONE <= rdy <= 8 * FP_ONE,
    ensures
        cast_view(r) == cast_spec(g.tiles(), g.dim(), px as int, py as int, rdx as int, rdy as int),
{
    let n: usize = g.side();
    proof {
        lemma_start_state(px as int, rdx as int, n as int);
        lemma_start_state(py as int, rdy as int, n as int);
    }
    let mut map_x: i64 = px / FP_ONE;
    let mut map_y: i64 = py / FP_ONE;
    let step_x: i64 = if rdx < 0 { -1 } else { 1 };
    let step_y: i64 = if rdy < 0 { -1 } else { 1 };
    let mut ax: i64 = if rdx < 0 { px - map_x * FP_ONE } else { (map_x + 1) * FP_ONE - px };
    let mut ay: i64 = if rdy < 0 { py - map_y * FP_ONE } else { (map_y + 1) * FP_ONE - py };
    let rdx_abs: i64 = if rdx < 0 { -rdx } else { rdx };
    let rdy_abs: i64 = if rdy < 0 { -rdy } else { rdy };
    let cap: usize = 4 * n;
    let mut steps: usize = 0;
    let ghost goal: RayOutcome = cast_spec(
        g.tiles(),
        g.dim(),
        px as int,
        py as int,
        rdx as int,
        rdy as int,
    );
    while steps < cap
        invariant
            g.wf(),
            n == g.dim(),
            1 <= n <= 512,
            cap == 4 * n,
            steps <= cap,
            goal == cast_spec(g.tiles(), g.dim(), px as int, py as int, rdx as int, rdy as int),
            step_x == step_of(rdx as int),
            step_y == step_of(rdy as int),
            rdx_abs == abs_i(rdx as int),
            rdy_abs == abs_i(rdy as int),
            0 <= rdx_abs <= 8 * FP_ONE,
            0 <= rdy_abs <= 8 * FP_ONE,
            -(steps as int) <= map_x <= n + steps,
            -(steps as int) <= map_y <= n + steps,
            0 <= ax <= FP_ONE + steps * FP_ONE,
            0 <= ay <= FP_ONE + steps * FP_ONE,
            goal == dda_spec(
                g.tiles(),
                g.dim(),
                map_x as int,
                map_y as int,
                step_x as int,
                step_y as int,
                ax as int,
                ay as int,
                rdx_abs as int,
                rdy_abs as int,
                (cap - steps) as nat,
            ),
        decreases cap - steps,
    {
        proof {
            assert(ax * rdy_abs <= 0x4000_0000_0000_0000 && ay * rdx_abs
                <= 0x4000_0000_0000_0000) by (nonlinear_arith)
                requires
                    0 <= ax <= 0x8_0000_0000,
                    0 <= ay <= 0x8_0000_0000,
                    0 <= rdx_abs <= 0x800_0000,
                    0 <= rdy_abs <= 0x800_0000,
            ;
        }
        if ax * rdy_abs < ay * rdx_abs {
            let mx: i64 = map_x + step_x;
            if mx >= 0 && mx < n as i64 && map_y >= 0 && map_y < n as i64 {
                let t: u8 = g.tile_at(mx as usize, map_y as usize);
                if t > 0 {
                    return CastResult::Hit {
                        perp_num: ax,
                        perp_den: rdx_abs,
                        tile: t,
                        side: HitSide::Vertical,
                        cell_x: mx,
                        cell_y: map_y,
                    };
                }
            }
            map_x = mx;
            ax = ax + FP_ONE;
        } else {
            let my: i64 = map_y + step_y;
            if map_x >= 0 && map_x < n as i64 && my >= 0 && my < n as i64 {
                let t: u8 = g.tile_at(map_x as usize, my as usize);
                if t > 0 {
                    return CastResult::Hit {
                        perp_num: ay,
                        perp_den: rdy_abs,
                        tile: t,
                        side: HitSide::Horizontal,
                        cell_x: map_x,
                        cell_y: my,
                    };
                }
            }
            map_y = my;
            ay = ay + FP_ONE;
        }
        steps = steps + 1;
    }
    CastResult::Miss
}

} // verus!
