use watch_rs::pong::{
    ball_rect, ball_sweep_rect, even_flush_rect, merge_rect, new_pong_state, pong_attach_radius, pong_ball_start,
    pong_banner, pong_collision_radius, pong_contact, pong_play_radius, pong_rand_u32, pong_reset_on_exit,
    pong_score_shown, pong_step_time, PongBanner, PongContact,
};
use watch_rs::snake::{
    board_origin, cell_top_left, clear_status_text, grass_is_light, play_snake, random_cell, score_center_y,
    snake_active, snake_contains, snake_reset_on_exit, snake_start, snake_turn_button, snake_turn_steps, snake_update,
    spawn_apple, CellPaint, Dir, SnakeBanner, SnakeState, SNAKE_STEP_MS,
};

#[test]
fn snake_board_geometry() {
    assert_eq!(board_origin(), (71, 71));
    assert_eq!(cell_top_left(0, 0), (71, 71));
    assert_eq!(cell_top_left(35, 2), (71 + 315, 71 + 18));
    assert_eq!(score_center_y(), 59);
    assert_eq!(clear_status_text(), (8, 14, 27, 21));
    assert!(grass_is_light(0, 0));
    assert!(!grass_is_light(1, 0));
    assert!(grass_is_light(3, 5));
}

#[test]
fn snake_start_places_snake_and_apple() {
    let mut s = SnakeState::new();
    assert!(!snake_active(&s));
    assert!(snake_start(&mut s, 1234));
    assert!(snake_active(&s));
    assert_eq!(s.len, 4);
    assert_eq!(&s.body[..4], &[(18, 18), (17, 18), (16, 18), (15, 18)]);
    assert_eq!(s.dir, Dir::Right);
    let apple = s.apple.unwrap();
    assert!(!snake_contains(&s, apple));
    assert!(apple.0 < 36 && apple.1 < 36);
    assert!(!snake_start(&mut s, 2000));
}

#[test]
fn snake_moves_after_step_interval() {
    let mut s = SnakeState::new();
    snake_start(&mut s, 0);
    s.apple = Some((0, 0));
    assert!(!snake_update(&mut s, SNAKE_STEP_MS - 1));
    assert!(snake_update(&mut s, SNAKE_STEP_MS));
    assert_eq!(s.body[0], (19, 18));
    assert_eq!(s.len, 4);
    assert_eq!(s.last_tail, Some((15, 18)));
}

#[test]
fn snake_eats_apple_and_grows() {
    let mut s = SnakeState::new();
    snake_start(&mut s, 0);
    s.apple = Some((19, 18));
    assert!(snake_update(&mut s, SNAKE_STEP_MS));
    assert_eq!(s.len, 5);
    assert_eq!(s.score, 1);
    assert_eq!(s.body[0], (19, 18));
    let a = s.apple.unwrap();
    assert!(!snake_contains(&s, a));
}

#[test]
fn snake_hits_wall_and_ends() {
    let mut s = SnakeState::new();
    snake_start(&mut s, 0);
    s.apple = Some((0, 0));
    let mut t = 0;
    for _ in 0..17 {
        t += SNAKE_STEP_MS;
        snake_update(&mut s, t);
    }
    assert_eq!(s.body[0], (35, 18));
    assert!(!s.game_over);
    t += SNAKE_STEP_MS;
    snake_update(&mut s, t);
    assert!(s.game_over);
    assert!(!snake_active(&s));
}

#[test]
fn snake_turns() {
    let mut s = SnakeState::new();
    snake_start(&mut s, 0);
    assert!(snake_turn_button(&mut s, true));
    assert_eq!(s.dir, Dir::Down);
    snake_turn_button(&mut s, false);
    assert_eq!(s.dir, Dir::Right);
    assert!(!snake_turn_steps(&mut s, 1));
    assert!(snake_turn_steps(&mut s, 1));
    assert_eq!(s.dir, Dir::Down);
    assert!(snake_turn_steps(&mut s, -4));
    assert_eq!(s.dir, Dir::Up);
    assert!(!snake_turn_steps(&mut s, 0));
}

#[test]
fn snake_rng_cells_and_apples() {
    let mut s = SnakeState::new();
    let c = random_cell(&mut s);
    let r = 1u32.wrapping_mul(1664525).wrapping_add(1013904223);
    assert_eq!(s.rng, r);
    assert_eq!(c, ((r % 36) as i16, ((r >> 16) % 36) as i16));
    snake_reset_on_exit(&mut s);
    let a = spawn_apple(&mut s).unwrap();
    assert!(!snake_contains(&s, a));
}

#[test]
fn snake_frame_plan_first_and_partial() {
    let mut s = SnakeState::new();
    let f = play_snake(&mut s);
    assert!(f.draw_board);
    assert_eq!(f.banner, Some(SnakeBanner::Start));
    assert!(f.cells.is_empty());
    assert_eq!(s.len, 4);
    snake_start(&mut s, 0);
    let apple = s.apple.unwrap();
    let f = play_snake(&mut s);
    assert!(!f.draw_board);
    assert!(f.clear_status);
    assert_eq!(f.banner, None);
    assert_eq!(f.cells.len(), 5);
    assert_eq!(f.cells[0], (apple.0, apple.1, CellPaint::Apple));
    assert_eq!(f.cells[1], (18, 18, CellPaint::Snake));
    s.apple = Some((0, 0));
    snake_update(&mut s, SNAKE_STEP_MS);
    let f = play_snake(&mut s);
    assert_eq!(f.cells, vec![(15, 18, CellPaint::Grass), (19, 18, CellPaint::Snake), (0, 0, CellPaint::Apple)]);
    assert_eq!(f.score, 0);
}

#[test]
fn pong_radii_and_score() {
    assert_eq!(pong_play_radius(), 233);
    assert_eq!(pong_attach_radius(233), 217);
    assert_eq!(pong_attach_radius(10), 2);
    assert_eq!(pong_collision_radius(233), 216);
    assert_eq!(pong_collision_radius(5), 1);
}

#[test]
fn pong_rng_seeds_from_clock() {
    let mut p = new_pong_state();
    let r = pong_rand_u32(&mut p, 7);
    let seed = 7u32 ^ 0xA5A5_5A5A;
    assert_eq!(r, seed.wrapping_mul(1664525).wrapping_add(1013904223));
    let r2 = pong_rand_u32(&mut p, 9999);
    assert_eq!(r2, r.wrapping_mul(1664525).wrapping_add(1013904223));
}

#[test]
fn pong_serve_hit_and_miss() {
    let mut p = new_pong_state();
    assert_eq!(pong_banner(&p), Some(PongBanner::PressToStart));
    let j = pong_ball_start(&mut p, 1_000);
    assert!((-5..=5).contains(&j));
    assert!(p.ball_active);
    assert_eq!(pong_banner(&p), None);
    assert_eq!(pong_step_time(&mut p, 1_000), 0);
    assert_eq!(pong_step_time(&mut p, 1_016), 16);
    match pong_contact(&mut p, 1_050, true) {
        PongContact::Bounce { speed_idx, jitter } => {
            assert!(speed_idx < 5);
            assert!((-35..=35).contains(&jitter));
        }
        PongContact::Miss => panic!("a covered contact bounces"),
    }
    assert_eq!(p.score, 0);
    pong_contact(&mut p, 1_200, true);
    assert_eq!(p.score, 1);
    pong_contact(&mut p, 1_250, true);
    assert_eq!(p.score, 1);
    assert_eq!(pong_contact(&mut p, 1_400, false), PongContact::Miss);
    assert!(p.game_over && !p.ball_active);
    assert_eq!(pong_banner(&p), Some(PongBanner::GameOver));
}

#[test]
fn pong_win_at_99() {
    let mut p = new_pong_state();
    pong_ball_start(&mut p, 0);
    p.score = 98;
    pong_contact(&mut p, 1_000, true);
    assert!(p.win && !p.game_over && !p.ball_active);
    assert_eq!(p.score, 0);
    assert_eq!(pong_banner(&p), Some(PongBanner::YouWin));
    p.score = 123;
    assert_eq!(pong_score_shown(&p), 23);
    pong_reset_on_exit(&mut p);
    assert!(!p.win && p.score == 0 && p.ball_last_pos.is_none());
}

#[test]
fn pong_rectangles() {
    assert_eq!(ball_sweep_rect((10, 10), (20, 5)), (4, 0, 26, 16));
    assert_eq!(ball_sweep_rect((460, 460), (464, 462)), (454, 454, 465, 465));
    assert_eq!(ball_rect(2, 300), (0, 296, 6, 304));
    assert_eq!(merge_rect(None, (1, 2, 3, 4)), (1, 2, 3, 4));
    assert_eq!(merge_rect(Some((0, 5, 2, 9)), (1, 2, 3, 4)), (0, 2, 3, 9));
    assert_eq!(even_flush_rect((3, -7, 100, 500)), (2, 0, 101, 465));
    assert_eq!(even_flush_rect((4, 4, 465, 6)), (4, 4, 465, 7));
}

#[test]
fn knob_turns_after_reset() {
    let mut s = SnakeState::new();
    snake_reset_on_exit(&mut s);
    assert_eq!(s.dir, Dir::Right);
    assert_eq!(s.pending_steps, 0);
    assert!(!snake_turn_steps(&mut s, 1));
    assert!(snake_turn_steps(&mut s, 1));
    assert_eq!(s.dir, Dir::Down);
    assert!(!snake_turn_steps(&mut s, 8));
    assert_eq!(s.dir, Dir::Down);
    assert!(snake_turn_steps(&mut s, -3));
    assert_eq!(s.dir, Dir::Right);
    assert_eq!(s.pending_steps, -1);
    assert!(!snake_turn_steps(&mut s, 0));
}
