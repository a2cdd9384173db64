use dino::game::{AppStatus, DinoGame, MenuAction, Pose, START_COOLDOWN, START_SPEED};
use dino::obstacle::{sweep_obstacles, Enemy, DESPAWN_X, SPAWN_X, TRAIL_BASE_X};
use dino::physics::{fall, scroll_distance, GRAVITY, GROUND_Y, JUMP_APEX_Y, JUMP_IMPULSE};

fn playing_on_floor() -> DinoGame {
    let mut g = DinoGame::default();
    g.state = AppStatus::PlayingGame;
    g
}

fn enemy_at(start_x: i64, end_x: i64) -> Enemy {
    Enemy { start_x, end_x, image: 1, height: 1, can_duck: false, ignore: false }
}

#[test]
fn default_game_waits_for_first_jump() {
    let g = DinoGame::default();
    assert_eq!(g.state, AppStatus::GameReadyToStart);
    assert_eq!(g.dino_y, GROUND_Y);
    assert_eq!(g.dino_speed_y, 0);
    assert_eq!(g.dino_distance, 0);
    assert_eq!(g.dino_speed, START_SPEED);
    assert_eq!(g.cooldown, START_COOLDOWN);
    assert_eq!(g.tick, 0);
    assert!(g.enemys.is_empty());
    assert!(g.fits());
}

#[test]
fn fall_on_floor_with_jump_speed_lifts() {
    assert_eq!(fall(GROUND_Y, -JUMP_IMPULSE), (GROUND_Y - JUMP_IMPULSE, -JUMP_IMPULSE));
}

#[test]
fn fall_in_air_accelerates() {
    assert_eq!(fall(800_000, -200_000), (612_000, -188_000));
}

#[test]
fn fall_on_floor_drops_downward_speed() {
    assert_eq!(fall(GROUND_Y, 50_000), (GROUND_Y, 0));
}

#[test]
fn fall_lands_on_floor() {
    assert_eq!(fall(990_000, 100_000), (GROUND_Y, 100_000 + GRAVITY));
}

#[test]
fn scroll_distance_is_three_tenths_of_speed() {
    assert_eq!(scroll_distance(250_000), 75_000);
    assert_eq!(scroll_distance(250_260), 75_078);
}

#[test]
fn first_press_starts_run_with_a_jump() {
    let mut g = DinoGame::default();
    g.ready(0);
    assert_eq!(g.state, AppStatus::GameReadyToStart);
    g.ready(1);
    assert_eq!(g.state, AppStatus::PlayingGame);
    assert_eq!(g.dino_speed_y, -JUMP_IMPULSE);
    assert_eq!(g.dino_y, GROUND_Y);
}

#[test]
fn two_presses_give_two_impulses() {
    let mut g = DinoGame::default();
    g.ready(2);
    assert_eq!(g.dino_speed_y, -2 * JUMP_IMPULSE);
}

#[test]
fn flight_stays_between_floor_and_apex() {
    let mut g = DinoGame::default();
    g.ready(1);
    let mut lowest = GROUND_Y;
    for _ in 0..2000 {
        assert!(g.fits());
        g.tick_game(0);
        assert!(g.dino_y <= GROUND_Y);
        assert!(g.dino_y >= -968_167);
        lowest = lowest.min(g.dino_y);
    }
    // the apex of one jump is -76.8 px
    assert_eq!(lowest, -768_000);
    assert_eq!(g.dino_y, GROUND_Y);
}

#[test]
fn single_jump_peaks_at_tick_seventeen_and_lands_at_thirty_five() {
    let mut g = DinoGame::default();
    g.ready(1);
    for n in 1..=40 {
        g.tick_game(0);
        if n == 17 {
            assert_eq!(g.dino_y, JUMP_APEX_Y);
        }
        if n < 35 {
            assert!(g.dino_y < GROUND_Y, "tick {}", n);
        } else {
            assert_eq!(g.dino_y, GROUND_Y, "tick {}", n);
        }
    }
}

#[test]
fn tick_ignores_order_of_obstacles() {
    let a = enemy_at(500_000, 900_000);
    let b = enemy_at(-250_000, -150_000);
    let c = enemy_at(9_000_000, 9_400_000);
    let mut g1 = playing_on_floor();
    g1.tick = 4;
    g1.enemys = vec![a, b, c];
    let mut g2 = playing_on_floor();
    g2.tick = 4;
    g2.enemys = vec![c, a, b];
    g1.advance(1300, 1, 0);
    g2.advance(1300, 1, 0);
    assert_eq!(g1.state, AppStatus::Died);
    assert_eq!(g2.state, AppStatus::Died);
    assert_eq!(g1.enemys.len(), 2);
    let mut k1: Vec<i64> = g1.enemys.iter().map(|e| e.start_x).collect();
    let mut k2: Vec<i64> = g2.enemys.iter().map(|e| e.start_x).collect();
    k1.sort();
    k2.sort();
    assert_eq!(k1, k2);
    assert_eq!(g1.dino_y, g2.dino_y);
    assert_eq!(g1.tick, g2.tick);
}

#[test]
fn jump_from_rest_leaves_floor_next_tick() {
    let mut g = playing_on_floor();
    g.tick = 5;
    g.jump();
    g.tick_game(0);
    assert!(g.dino_y < GROUND_Y);
}

#[test]
fn jump_from_rest_leaves_floor_through_tick_presses() {
    let mut g = playing_on_floor();
    g.tick = 5;
    g.tick_game(1);
    assert_eq!(g.dino_y, GROUND_Y);
    assert_eq!(g.dino_speed_y, -JUMP_IMPULSE);
    g.tick_game(0);
    assert_eq!(g.dino_y, GROUND_Y - JUMP_IMPULSE);
}

#[test]
fn tick_before_run_begins_keeps_distance() {
    let mut g = playing_on_floor();
    g.tick_game(0);
    assert_eq!(g.tick, 0);
    assert_eq!(g.dino_distance, 0);
    assert_eq!(g.dino_speed, START_SPEED + 260);
    assert_eq!(g.cooldown, START_COOLDOWN - 1);
}

#[test]
fn tick_after_run_begins_counts_distance() {
    let mut g = playing_on_floor();
    g.tick = 1;
    g.advance(1300, 1, 0);
    assert_eq!(g.tick, 2);
    assert_eq!(g.dino_distance, 75_060);
    assert_eq!(g.dino_speed, 250_260);
}

#[test]
fn advance_spawns_when_draw_is_in_window() {
    let mut g = playing_on_floor();
    g.tick = 1;
    g.cooldown = 0;
    g.advance(31, 2, 0);
    assert_eq!(g.enemys.len(), 1);
    assert_eq!(g.cooldown, 31);
    let e = g.enemys[0];
    assert_eq!(e.height, 2);
    assert_eq!(e.image, 2);
    assert_eq!(e.start_x, SPAWN_X - 75_078);
    assert_eq!(e.end_x, TRAIL_BASE_X + 200_000 - 75_078);
}

#[test]
fn advance_uses_wide_window_only_on_empty_screen() {
    let mut empty = playing_on_floor();
    empty.tick = 1;
    empty.cooldown = 0;
    empty.advance(100, 1, 0);
    assert_eq!(empty.enemys.len(), 1);

    let mut busy = playing_on_floor();
    busy.tick = 1;
    busy.cooldown = 0;
    busy.enemys.push(enemy_at(10_000_000, 10_500_000));
    busy.advance(100, 1, 0);
    assert_eq!(busy.enemys.len(), 1);
    assert_eq!(busy.cooldown, 0);
    busy.advance(31, 1, 0);
    assert_eq!(busy.enemys.len(), 2);
}

#[test]
fn advance_waits_for_cooldown() {
    let mut g = playing_on_floor();
    g.tick = 1;
    g.cooldown = 3;
    g.advance(1, 1, 0);
    assert!(g.enemys.is_empty());
    assert_eq!(g.cooldown, 2);
}

#[test]
fn spawn_rate_is_higher_on_empty_screen() {
    let trials = 20_000;
    let mut empty_spawns = 0;
    let mut busy_spawns = 0;
    for _ in 0..trials {
        let mut g = playing_on_floor();
        g.tick = 1;
        g.cooldown = 0;
        g.tick_game(0);
        if g.enemys.len() == 1 {
            empty_spawns += 1;
        }
        let mut b = playing_on_floor();
        b.tick = 1;
        b.cooldown = 0;
        b.enemys.push(enemy_at(10_000_000, 10_500_000));
        b.tick_game(0);
        if b.enemys.len() == 2 {
            busy_spawns += 1;
        }
    }
    // expected rates: 100 and 31 in 1300
    assert!(empty_spawns > 1200 && empty_spawns < 1900, "{}", empty_spawns);
    assert!(busy_spawns > 250 && busy_spawns < 750, "{}", busy_spawns);
    assert!(empty_spawns > busy_spawns + 500);
}

#[test]
fn random_enemy_has_both_kinds() {
    let mut seen = [false; 3];
    for _ in 0..200 {
        let e = Enemy::default();
        assert!(e.height == 1 || e.height == 2);
        assert_eq!(e, Enemy::of_kind(e.height));
        seen[e.height as usize] = true;
    }
    assert!(seen[1] && seen[2]);
}

#[test]
fn of_kind_sets_width() {
    let e = Enemy::of_kind(1);
    assert_eq!(e.start_x, 18_000_000);
    assert_eq!(e.end_x, 17_400_000);
    assert!(!e.ignore);
    assert!(!e.can_duck);
}

#[test]
fn sweep_drops_only_the_expired_one() {
    let enemies = vec![
        enemy_at(5_000_000, 5_400_000),
        enemy_at(-500_000, -100_000),
        enemy_at(9_000_000, 9_400_000),
    ];
    let (kept, hit) = sweep_obstacles(&enemies, 200_000, GROUND_Y);
    assert!(!hit);
    assert_eq!(kept, vec![enemy_at(4_800_000, 5_200_000), enemy_at(8_800_000, 9_200_000)]);
    let (again, _) = sweep_obstacles(&kept, 0, GROUND_Y);
    assert_eq!(again, kept);
}

#[test]
fn sweep_keeps_mark_of_obstacle_still_on_screen() {
    let mut marked = enemy_at(5_000_000, 5_400_000);
    marked.ignore = true;
    let (kept, _) = sweep_obstacles(&vec![marked], 100_000, GROUND_Y);
    assert_eq!(kept.len(), 1);
    assert!(kept[0].ignore);
    assert_eq!(kept[0].start_x, 4_900_000);
}

#[test]
fn sweep_keeps_obstacle_at_despawn_line() {
    let enemies = vec![enemy_at(-600_000, DESPAWN_X + 100_000)];
    let (kept, _) = sweep_obstacles(&enemies, 100_000, GROUND_Y);
    assert_eq!(kept.len(), 1);
    let (gone, _) = sweep_obstacles(&kept, 1, GROUND_Y);
    assert!(gone.is_empty());
}

#[test]
fn sweep_reports_hit_only_when_low_enough() {
    let enemies = vec![enemy_at(500_000, 900_000)];
    let (_, hit) = sweep_obstacles(&enemies, 0, 640_000);
    assert!(hit);
    let (_, missed) = sweep_obstacles(&enemies, 0, 639_999);
    assert!(!missed);
}

#[test]
fn sweep_misses_obstacle_right_of_runner() {
    let enemies = vec![enemy_at(1_000_000, 1_400_000)];
    let (_, hit) = sweep_obstacles(&enemies, 0, GROUND_Y);
    assert!(!hit);
}

#[test]
fn two_hits_in_one_tick_end_run_once() {
    let mut g = playing_on_floor();
    g.tick = 3;
    g.enemys.push(enemy_at(500_000, 900_000));
    g.enemys.push(enemy_at(600_000, 950_000));
    g.advance(1300, 1, 0);
    assert_eq!(g.state, AppStatus::Died);
    assert_eq!(g.enemys.len(), 2);
    g.advance(1300, 1, 0);
    assert_eq!(g.state, AppStatus::Died);
}

#[test]
fn restart_from_death_resets_everything() {
    let mut g = playing_on_floor();
    g.state = AppStatus::Died;
    g.tick = 300;
    g.dino_distance = 9_000_000;
    g.dino_speed = 400_000;
    g.dino_y = 700_000;
    g.cooldown = 7;
    g.enemys.push(enemy_at(500_000, 900_000));
    g.update_death(0);
    assert_eq!(g.state, AppStatus::Died);
    assert_eq!(g.tick, 300);
    g.update_death(2);
    assert_eq!(g.state, AppStatus::PlayingGame);
    assert!(g.enemys.is_empty());
    assert_eq!(g.dino_distance, 0);
    assert_eq!(g.dino_speed, START_SPEED);
    assert_eq!(g.dino_y, GROUND_Y);
    assert_eq!(g.dino_speed_y, -JUMP_IMPULSE);
    assert_eq!(g.tick, 0);
    assert_eq!(g.cooldown, START_COOLDOWN);
}

#[test]
fn menu_leads_to_game_and_credits() {
    let mut g = DinoGame::default();
    g.state = AppStatus::Menu;
    g.select(MenuAction::Back);
    assert_eq!(g.state, AppStatus::Menu);
    g.select(MenuAction::Credits);
    assert_eq!(g.state, AppStatus::Credits);
    g.select(MenuAction::Play);
    assert_eq!(g.state, AppStatus::Credits);
    g.select(MenuAction::Back);
    assert_eq!(g.state, AppStatus::Menu);
    g.select(MenuAction::Play);
    assert_eq!(g.state, AppStatus::GameReadyToStart);
}

#[test]
fn step_frame_follows_mode() {
    let mut g = DinoGame::default();
    g.state = AppStatus::Menu;
    g.step_frame(3);
    assert_eq!(g.state, AppStatus::Menu);
    assert_eq!(g.dino_speed_y, 0);

    let mut g = DinoGame::default();
    assert!(!g.repaint_wanted());
    g.step_frame(1);
    assert_eq!(g.state, AppStatus::PlayingGame);
    assert!(g.repaint_wanted());
    g.step_frame(0);
    assert_eq!(g.dino_y, GROUND_Y - JUMP_IMPULSE);
    assert_eq!(g.tick, 0);
    g.step_frame(0);
    assert_eq!(g.tick, 1);

    g.state = AppStatus::Died;
    assert!(!g.repaint_wanted());
    g.step_frame(1);
    assert_eq!(g.state, AppStatus::PlayingGame);
    assert_eq!(g.tick, 0);
}

#[test]
fn pose_follows_mode_and_stride() {
    let mut g = DinoGame::default();
    assert_eq!(g.dino_pose(), Pose::Rest);
    g.state = AppStatus::PlayingGame;
    g.tick = 0;
    assert_eq!(g.dino_pose(), Pose::Right);
    g.tick = 6;
    assert_eq!(g.dino_pose(), Pose::Right);
    g.tick = 7;
    assert_eq!(g.dino_pose(), Pose::Left);
    g.tick = 14;
    assert_eq!(g.dino_pose(), Pose::Right);
    g.dino_y = 900_000;
    assert_eq!(g.dino_pose(), Pose::Still);
    g.dino_y = GROUND_Y;
    g.state = AppStatus::Died;
    assert_eq!(g.dino_pose(), Pose::Still);
}

#[test]
fn floor_scrolls_with_distance() {
    let mut g = DinoGame::default();
    assert_eq!(g.floor_positions(), None);
    g.tick = 1;
    g.dino_distance = 24_000_000 + 1_000_000;
    assert_eq!(g.floor_positions(), Some((23_300_000, -700_000)));
}

#[test]
fn fits_rejects_huge_values() {
    let mut g = DinoGame::default();
    g.dino_distance = i64::MAX;
    assert!(!g.fits());
    let mut g = DinoGame::default();
    g.enemys.push(enemy_at(i64::MIN, 0));
    assert!(!g.fits());
}
