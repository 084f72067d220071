use raycaster::fixed::{div_round, FP_ONE};
use raycaster::grid::{get_map, Grid};
use raycaster::player::Player;
use raycaster::ray::{camera_x, cast_ray, ray_dir, CastResult, HitSide};
use raycaster::render::{
    fill_background, render_frame, stripe_bounds, wall_color, CEILING_COLOR, FLOOR_COLOR,
    SCREEN_HEIGHT, SCREEN_WIDTH,
};

const HALF_TILE: i64 = FP_ONE / 2;
const PLANE_Y: i64 = 12918456; // 0.77 tiles, the stock field of view
const MOVE_SPEED: i64 = 838861; // 0.05 tiles per frame
const TWO_AND_HALF: i64 = 2 * FP_ONE + HALF_TILE;

fn stock_player(g: &Grid) -> Player {
    Player::new(g, TWO_AND_HALF, TWO_AND_HALF, FP_ONE, 0, 0, PLANE_Y).unwrap()
}

#[test]
fn div_round_rounds_to_nearest_half_up() {
    assert_eq!(div_round(5, 2), 3);
    assert_eq!(div_round(-5, 2), -2);
    assert_eq!(div_round(7, 3), 2);
    assert_eq!(div_round(-7, 3), -2);
    assert_eq!(div_round(6, 3), 2);
    assert_eq!(div_round(0, 7), 0);
}

#[test]
fn stock_map_layout() {
    let g = get_map();
    assert_eq!(g.side(), 16);
    assert!(g.is_enclosed());
    assert_eq!(g.tile_at(0, 0), 1);
    assert_eq!(g.tile_at(2, 2), 0);
    assert_eq!(g.tile_at(12, 1), 1);
    assert_eq!(g.tile_at(12, 2), 1);
    assert_eq!(g.tile_at(3, 3), 1);
    assert_eq!(g.tile_at(3, 4), 2);
    assert_eq!(g.tile_at(9, 4), 3);
    assert_eq!(g.tile_at(3, 6), 4);
    assert_eq!(g.tile_at(13, 11), 2);
    assert_eq!(g.tile_at(11, 13), 3);
}

#[test]
fn grid_rejects_bad_dimensions() {
    assert!(Grid::new(0, vec![]).is_none());
    assert!(Grid::new(2, vec![1, 1, 1]).is_none());
    assert!(Grid::new(600, vec![0; 600 * 600]).is_none());
    let g = Grid::new(2, vec![1, 1, 1, 0]).unwrap();
    assert_eq!(g.side(), 2);
    assert_eq!(g.tile_at(1, 1), 0);
    assert!(!g.is_enclosed());
    let g1 = Grid::new(1, vec![5]).unwrap();
    assert!(g1.is_enclosed());
}

#[test]
fn player_new_validates_pose() {
    let g = get_map();
    assert!(Player::new(&g, -1, 0, FP_ONE, 0, 0, PLANE_Y).is_none());
    assert!(Player::new(&g, 16 * FP_ONE, 0, FP_ONE, 0, 0, PLANE_Y).is_none());
    assert!(Player::new(&g, 0, 0, 3 * FP_ONE, 0, 0, PLANE_Y).is_none());
    assert!(Player::new(&g, 0, 0, FP_ONE, 0, 0, 5 * FP_ONE).is_none());
    let p = stock_player(&g);
    assert_eq!(p.pos_x, TWO_AND_HALF);
    assert_eq!(p.dir_x, FP_ONE);
    assert_eq!(p.plane_y, PLANE_Y);
}

#[test]
fn movement_into_empty_cell_succeeds() {
    let g = get_map();
    let mut p = stock_player(&g);
    p.move_forward(&g, MOVE_SPEED);
    assert_eq!(p.pos_x, TWO_AND_HALF + MOVE_SPEED);
    assert_eq!(p.pos_y, TWO_AND_HALF);
    p.move_backward(&g, MOVE_SPEED);
    assert_eq!(p.pos_x, TWO_AND_HALF);
    assert_eq!(p.pos_y, TWO_AND_HALF);
}

#[test]
fn movement_into_wall_is_rejected() {
    let g = get_map();
    // Facing +x toward the wall block at cell (3, 3).
    let mut p = Player::new(&g, TWO_AND_HALF, 3 * FP_ONE + HALF_TILE, FP_ONE, 0, 0, PLANE_Y)
        .unwrap();
    p.move_forward(&g, FP_ONE);
    assert_eq!(p.pos_x, TWO_AND_HALF);
    assert_eq!(p.pos_y, 3 * FP_ONE + HALF_TILE);
    // Backward from (1.5, 2.5) would land in the boundary wall at cell 0.
    let mut q = Player::new(&g, FP_ONE + HALF_TILE, TWO_AND_HALF, FP_ONE, 0, 0, PLANE_Y).unwrap();
    q.move_backward(&g, FP_ONE);
    assert_eq!(q.pos_x, FP_ONE + HALF_TILE);
    assert_eq!(q.pos_y, TWO_AND_HALF);
}

#[test]
fn movement_all_four_directions() {
    let g = get_map();
    // Facing +y: forward moves down a row, backward up a row.
    let mut p = Player::new(&g, TWO_AND_HALF, TWO_AND_HALF, 0, FP_ONE, PLANE_Y, 0).unwrap();
    p.move_forward(&g, FP_ONE);
    assert_eq!(p.pos_y, TWO_AND_HALF + FP_ONE);
    p.move_backward(&g, FP_ONE);
    p.move_backward(&g, FP_ONE);
    assert_eq!(p.pos_y, TWO_AND_HALF - FP_ONE);
}

#[test]
fn rotation_by_exact_triple() {
    let g = get_map();
    let mut p = stock_player(&g);
    p.rotate(3, 4, 5);
    assert_eq!(p.dir_x, 10066330);
    assert_eq!(p.dir_y, 13421773);
    assert_eq!(p.plane_x, -10334765);
    assert_eq!(p.plane_y, 7751074);
    assert_eq!(p.pos_x, TWO_AND_HALF);
}

#[test]
fn rotation_magnitude_stays_within_tolerance() {
    let g = get_map();
    let mut p = stock_player(&g);
    let dir0 = p.dir_x * p.dir_x + p.dir_y * p.dir_y;
    let plane0 = p.plane_x * p.plane_x + p.plane_y * p.plane_y;
    for _ in 0..10000 {
        p.turn_right();
    }
    let dir1 = p.dir_x * p.dir_x + p.dir_y * p.dir_y;
    let plane1 = p.plane_x * p.plane_x + p.plane_y * p.plane_y;
    let tolerance = 10000 * (6 * FP_ONE + 1);
    assert!((dir1 - dir0).abs() <= tolerance);
    assert!((plane1 - plane0).abs() <= tolerance);
    // And turning back and forth does not move the player.
    for _ in 0..100 {
        p.turn_left();
    }
    assert_eq!(p.pos_x, TWO_AND_HALF);
    assert_eq!(p.pos_y, TWO_AND_HALF);
}

#[test]
fn corridor_cast_returns_exact_distance() {
    let g = get_map();
    // From (2.5, 2.5) straight along +x, the first wall of row 2 is at
    // column 12: perpendicular distance 9.5 tiles, tile code 1.
    match cast_ray(&g, TWO_AND_HALF, TWO_AND_HALF, FP_ONE, 0) {
        CastResult::Hit { perp_num, perp_den, tile, side, cell_x, cell_y } => {
            assert_eq!(perp_num, 12 * FP_ONE - TWO_AND_HALF);
            assert_eq!(perp_den, FP_ONE);
            assert_eq!(tile, 1);
            assert_eq!(side, HitSide::Vertical);
            assert_eq!(cell_x, 12);
            assert_eq!(cell_y, 2);
        }
        CastResult::Miss => panic!("corridor cast missed"),
    }
}

#[test]
fn boundary_cast_terminates_on_outer_wall() {
    let g = get_map();
    // Adjacent to the boundary, aimed straight at it.
    match cast_ray(&g, FP_ONE + HALF_TILE, FP_ONE + HALF_TILE, -FP_ONE, 0) {
        CastResult::Hit { perp_num, perp_den, tile, side, cell_x, cell_y } => {
            assert_eq!(perp_num, HALF_TILE);
            assert_eq!(perp_den, FP_ONE);
            assert_eq!(tile, 1);
            assert_eq!(side, HitSide::Vertical);
            assert_eq!(cell_x, 0);
            assert_eq!(cell_y, 1);
        }
        CastResult::Miss => panic!("boundary cast missed"),
    }
}

#[test]
fn every_column_hits_in_enclosed_map() {
    let g = get_map();
    let p = stock_player(&g);
    for x in 0..SCREEN_WIDTH {
        let cam = camera_x(x, SCREEN_WIDTH);
        let rdx = ray_dir(p.dir_x, p.plane_x, cam);
        let rdy = ray_dir(p.dir_y, p.plane_y, cam);
        match cast_ray(&g, p.pos_x, p.pos_y, rdx, rdy) {
            CastResult::Hit { .. } => {}
            CastResult::Miss => panic!("column {} missed in an enclosed map", x),
        }
    }
}

#[test]
fn fisheye_equal_perp_distance_across_columns() {
    let g = get_map();
    let p = stock_player(&g);
    // Two columns symmetric about the center, both reaching the flat wall
    // at column 12 of rows 2 and 3: equal perpendicular distances even
    // though the raw ray lengths differ.
    let mut hits: Vec<(i64, i64)> = Vec::new();
    for &x in &[300usize, 340usize] {
        let cam = camera_x(x, SCREEN_WIDTH);
        let rdx = ray_dir(p.dir_x, p.plane_x, cam);
        let rdy = ray_dir(p.dir_y, p.plane_y, cam);
        match cast_ray(&g, p.pos_x, p.pos_y, rdx, rdy) {
            CastResult::Hit { perp_num, perp_den, side, cell_x, .. } => {
                assert_eq!(side, HitSide::Vertical);
                assert_eq!(cell_x, 12);
                hits.push((perp_num, perp_den));
            }
            CastResult::Miss => panic!("flat-wall cast missed"),
        }
    }
    // Equal rationals: num1 * den2 == num2 * den1.
    assert_eq!(hits[0].0 * hits[1].1, hits[1].0 * hits[0].1);
    assert_eq!(hits[0].0, 12 * FP_ONE - TWO_AND_HALF);
}

#[test]
fn horizontal_hit_down_a_column() {
    let g = get_map();
    // Straight along +y from (2.5, 2.5): the first wall below is the green
    // block at cell (2, 13), entered across a horizontal grid line.
    match cast_ray(&g, TWO_AND_HALF, TWO_AND_HALF, 0, FP_ONE) {
        CastResult::Hit { perp_num, perp_den, tile, side, cell_x, cell_y } => {
            assert_eq!(perp_num, 13 * FP_ONE - TWO_AND_HALF);
            assert_eq!(perp_den, FP_ONE);
            assert_eq!(tile, 2);
            assert_eq!(side, HitSide::Horizontal);
            assert_eq!(cell_x, 2);
            assert_eq!(cell_y, 13);
        }
        CastResult::Miss => panic!("column cast missed"),
    }
}

#[test]
fn open_grid_ray_misses_after_step_budget() {
    // A map with no walls at all: the walk leaves the grid and the step
    // budget turns the unterminated loop into a Miss.
    let g = Grid::new(8, vec![0; 64]).unwrap();
    match cast_ray(&g, 4 * FP_ONE + HALF_TILE, 4 * FP_ONE + HALF_TILE, FP_ONE, 0) {
        CastResult::Miss => {}
        CastResult::Hit { .. } => panic!("open grid produced a hit"),
    }
}

#[test]
fn try_move_applies_exact_displacement() {
    let g = get_map();
    let mut p = stock_player(&g);
    p.try_move(&g, FP_ONE, -HALF_TILE);
    assert_eq!(p.pos_x, TWO_AND_HALF + FP_ONE);
    assert_eq!(p.pos_y, TWO_AND_HALF - HALF_TILE);
    // A displacement landing in the boundary wall is rejected whole.
    p.try_move(&g, 0, -2 * FP_ONE);
    assert_eq!(p.pos_y, TWO_AND_HALF - HALF_TILE);
}

#[test]
fn camera_x_spans_the_screen() {
    assert_eq!(camera_x(0, 640), -FP_ONE);
    assert_eq!(camera_x(320, 640), 0);
    let edge = camera_x(639, 640);
    assert!(edge > 0 && edge < FP_ONE);
}

#[test]
fn wall_palette() {
    assert_eq!(wall_color(1, HitSide::Horizontal), 0xFF0000);
    assert_eq!(wall_color(1, HitSide::Vertical), 0xCC0000);
    assert_eq!(wall_color(2, HitSide::Horizontal), 0x00FF00);
    assert_eq!(wall_color(3, HitSide::Vertical), 0x0000CC);
    assert_eq!(wall_color(4, HitSide::Horizontal), 0xFFFF00);
    assert_eq!(wall_color(9, HitSide::Horizontal), 0xFFFFFF);
    assert_eq!(wall_color(0, HitSide::Vertical), 0xCCCCCC);
}

#[test]
fn stripe_bounds_center_and_clamp() {
    // A wall 2 tiles away with a unit ray: 240 pixels tall, centered.
    assert_eq!(stripe_bounds(2 * FP_ONE, FP_ONE, 480), (120, 360));
    // 9.5 tiles away: 50 pixels tall.
    assert_eq!(stripe_bounds(12 * FP_ONE - TWO_AND_HALF, FP_ONE, 480), (215, 265));
    // Zero distance: the stripe fills the column (clamped).
    assert_eq!(stripe_bounds(0, FP_ONE, 480), (0, 479));
}

#[test]
fn background_fill_splits_ceiling_and_floor() {
    let mut buf: Vec<u32> = vec![0; 8 * 6];
    fill_background(&mut buf, 8, 6);
    for y in 0..6 {
        for x in 0..8 {
            let expect = if y < 3 { CEILING_COLOR } else { FLOOR_COLOR };
            assert_eq!(buf[y * 8 + x], expect);
        }
    }
}

#[test]
fn rendered_frame_stripe_is_centered_and_shrinks_with_distance() {
    let g = get_map();
    let p = stock_player(&g);
    let mut buf: Vec<u32> = vec![0; SCREEN_WIDTH * SCREEN_HEIGHT];
    render_frame(&g, &p, &mut buf, SCREEN_WIDTH, SCREEN_HEIGHT);
    let col = 320;
    // Stripe rows 215..265 in dark red (vertical hit on tile 1), symmetric
    // about the screen center row 240.
    assert_eq!(buf[214 * SCREEN_WIDTH + col], CEILING_COLOR);
    assert_eq!(buf[215 * SCREEN_WIDTH + col], 0xCC0000);
    assert_eq!(buf[239 * SCREEN_WIDTH + col], 0xCC0000);
    assert_eq!(buf[264 * SCREEN_WIDTH + col], 0xCC0000);
    assert_eq!(buf[265 * SCREEN_WIDTH + col], FLOOR_COLOR);
    assert_eq!(265 - 240, 240 - 215);

    // One tile farther from the wall, the stripe is strictly shorter.
    let far = Player::new(&g, TWO_AND_HALF - HALF_TILE, TWO_AND_HALF, FP_ONE, 0, 0, PLANE_Y)
        .unwrap();
    let mut buf2: Vec<u32> = vec![0; SCREEN_WIDTH * SCREEN_HEIGHT];
    render_frame(&g, &far, &mut buf2, SCREEN_WIDTH, SCREEN_HEIGHT);
    let height = |b: &Vec<u32>| -> usize {
        (0..SCREEN_HEIGHT).filter(|&y| b[y * SCREEN_WIDTH + col] == 0xCC0000).count()
    };
    assert!(height(&buf2) < height(&buf));
    assert_eq!(height(&buf), 50);
    assert_eq!(height(&buf2), 48);
}
