use starship_arena::component::{
    BoxDirection, BoxEntity, Fireball, FireballAnimationTimer, GameTimer, Laser, LaserType, Ship,
    ShipLives,
};
use starship_arena::geometry::{isqrt, normalize_direction, Vec2};
use starship_arena::input::{
    dir_from_keys, rotate_ship_follow_cursor, rotate_ship_on_click, ship_movement, shoot_laser,
};
use starship_arena::state::{GameOutcome, GameState};
use starship_arena::system::{
    animate_fireball, box_movement, box_ship_collision, check_end_point_reached,
    box_proximity_swap, detect_laser_collision, detect_starship_box_collision, game_tick,
    move_laser, setup,
    step_box, try_place_box, update_timer_display, TickInput,
};

fn running_game() -> GameState {
    let mut g = GameState::new();
    g.timer.elapsed_ms = Some(0);
    g
}

fn a_box(x: i64, y: i64, dx: i64, dy: i64) -> BoxEntity {
    BoxEntity {
        pos: Vec2 { x, y },
        dir: BoxDirection(Vec2 { x: dx, y: dy }),
    }
}

#[test]
fn lives_drop_by_one_on_collision() {
    // lives after a collision equal max(lives_before - 1, 0)
    let mut g = running_game();
    g.lives = ShipLives(3);
    g.ship = Some(Ship {
        pos: Vec2 { x: 0, y: 0 },
        facing: Vec2 { x: 0, y: 1000 },
    });
    g.boxes.push(a_box(10, 10, 1000, 0));
    detect_starship_box_collision(&mut g);
    assert_eq!(g.lives.0, 2);

    let mut g2 = running_game();
    g2.lives = ShipLives(1);
    g2.ship = Some(Ship {
        pos: Vec2 { x: 0, y: 0 },
        facing: Vec2 { x: 0, y: 1000 },
    });
    g2.boxes.push(a_box(0, 5, 1000, 0));
    detect_starship_box_collision(&mut g2);
    assert_eq!(g2.lives.0, 0);
    // a second pass cannot push the count below zero
    detect_starship_box_collision(&mut g2);
    assert_eq!(g2.lives.0, 0);
}

#[test]
fn reflection_flips_only_the_crossed_axis() {
    // box at 395 heading right at full speed for one second: the
    // target 495 leaves the arena, so the x direction flips and the
    // y direction stays
    let mut g = running_game();
    g.boxes.push(a_box(395, 120, 1000, 250));
    box_movement(&mut g, 1000);
    let b = g.boxes[0];
    assert_eq!(b.dir.0.x, -1000);
    assert_eq!(b.dir.0.y, 250);
    assert_eq!(b.pos.x, 400);
    assert_eq!(b.pos.y, 145);
}

#[test]
fn reflection_lower_y_bound() {
    let mut g = running_game();
    g.boxes.push(a_box(0, -295, 0, -1000));
    box_movement(&mut g, 1000);
    let b = g.boxes[0];
    assert_eq!(b.dir.0.y, 1000);
    assert_eq!(b.dir.0.x, 0);
    assert_eq!(b.pos.y, -300);
}

#[test]
fn huge_tick_still_bounces_and_clamps() {
    let mut g = running_game();
    g.boxes.push(a_box(0, 0, 1000, 0));
    box_movement(&mut g, u32::MAX);
    let b = g.boxes[0];
    assert_eq!(b.pos.x, 400);
    assert_eq!(b.dir.0.x, -1000);
}

#[test]
fn boxes_stand_still_once_game_ended() {
    let mut g = running_game();
    g.boxes.push(a_box(100, 100, 1000, 1000));
    g.timer.stopped = true;
    g.outcome = Some(GameOutcome::Lost);
    g.ship = None;
    box_movement(&mut g, 1000);
    assert_eq!(g.boxes[0].pos, Vec2 { x: 100, y: 100 });
    assert_eq!(g.boxes[0].dir.0, Vec2 { x: 1000, y: 1000 });
}

#[test]
fn clock_is_monotone_and_frozen_after_stop() {
    let mut g = running_game();
    let mut last = 0u64;
    for dt in [0u32, 16, 1000, 3] {
        update_timer_display(&mut g, dt);
        let now = g.timer.elapsed_ms.unwrap();
        assert!(now >= last);
        last = now;
    }
    assert_eq!(last, 1019);
    g.timer.stopped = true;
    g.outcome = Some(GameOutcome::Lost);
    g.ship = None;
    for dt in [5u32, 500] {
        update_timer_display(&mut g, dt);
        assert_eq!(g.timer.elapsed_ms, Some(1019));
    }
}

#[test]
fn clock_does_not_run_before_first_input() {
    let mut g = GameState::new();
    update_timer_display(&mut g, 250);
    assert_eq!(g.timer.elapsed_ms, None);
}

#[test]
fn resolver_is_idempotent_on_destroyed_ship() {
    let mut g = running_game();
    g.lives = ShipLives(1);
    g.ship = Some(Ship {
        pos: Vec2 { x: 0, y: 0 },
        facing: Vec2 { x: 0, y: 1000 },
    });
    g.boxes.push(a_box(0, 0, 500, 0));
    detect_starship_box_collision(&mut g);
    assert!(g.ship.is_none());
    let lives = g.lives.0;
    let fireballs = g.fireballs.len();
    let outcome = g.outcome;
    detect_starship_box_collision(&mut g);
    assert!(g.ship.is_none());
    assert_eq!(g.lives.0, lives);
    assert_eq!(g.fireballs.len(), fireballs);
    assert_eq!(g.outcome, outcome);
}

#[test]
fn fatal_collision_ends_the_game() {
    // ship at lives=1 collides with an obstacle within 30 units
    let mut g = running_game();
    g.lives = ShipLives(1);
    g.ship = Some(Ship {
        pos: Vec2 { x: 50, y: 60 },
        facing: Vec2 { x: 0, y: 1000 },
    });
    g.boxes.push(a_box(60, 70, -1000, 0));
    detect_starship_box_collision(&mut g);
    assert_eq!(g.lives.0, 0);
    assert!(g.ship.is_none());
    assert!(g.timer.stopped);
    assert_eq!(g.outcome, Some(GameOutcome::Lost));
    // a fireball marks the collision; no respawn happened
    assert_eq!(g.fireballs.len(), 1);
    assert_eq!(g.fireballs[0].pos, Vec2 { x: 50, y: 60 });
}

#[test]
fn nonfatal_collision_respawns_at_start() {
    // ship at lives=3 collides with an obstacle
    let mut g = running_game();
    g.lives = ShipLives(3);
    g.ship = Some(Ship {
        pos: Vec2 { x: 100, y: 100 },
        facing: Vec2 { x: 1000, y: 0 },
    });
    g.boxes.push(a_box(110, 100, 0, 1000));
    detect_starship_box_collision(&mut g);
    assert_eq!(g.lives.0, 2);
    let ship = g.ship.expect("ship respawns while lives remain");
    assert_eq!(ship.pos, g.start.pos);
    assert_eq!(ship.pos, Vec2 { x: -400, y: 300 });
    assert!(!g.timer.stopped);
    assert_eq!(g.outcome, None);
    assert_eq!(g.fireballs.len(), 1);
    assert_eq!(g.fireballs[0].pos, Vec2 { x: 100, y: 100 });
}

#[test]
fn only_first_touching_box_is_processed() {
    let mut g = running_game();
    g.lives = ShipLives(5);
    g.ship = Some(Ship {
        pos: Vec2 { x: 0, y: 0 },
        facing: Vec2 { x: 0, y: 1000 },
    });
    g.boxes.push(a_box(5, 0, 0, 0));
    g.boxes.push(a_box(0, 5, 0, 0));
    detect_starship_box_collision(&mut g);
    // one life for the tick, not one per touching obstacle
    assert_eq!(g.lives.0, 4);
    assert_eq!(g.fireballs.len(), 1);
}

#[test]
fn reaching_the_goal_wins() {
    // ship within 30 units of the goal marker
    let mut g = running_game();
    g.ship = Some(Ship {
        pos: Vec2 { x: 395, y: -290 },
        facing: Vec2 { x: 0, y: 1000 },
    });
    check_end_point_reached(&mut g);
    assert!(g.ship.is_none());
    assert!(g.timer.stopped);
    assert_eq!(g.outcome, Some(GameOutcome::Won));
}

#[test]
fn goal_out_of_reach_changes_nothing() {
    let mut g = running_game();
    g.ship = Some(Ship {
        pos: Vec2 { x: 0, y: 0 },
        facing: Vec2 { x: 0, y: 1000 },
    });
    check_end_point_reached(&mut g);
    assert!(g.ship.is_some());
    assert!(!g.timer.stopped);
    assert_eq!(g.outcome, None);
}

#[test]
fn laser_past_travel_bound_is_removed() {
    // a projectile whose position exceeds the travel bound (y > 800)
    let mut g = running_game();
    g.lasers.push(Laser {
        laser_type: LaserType::A,
        pos: Vec2 { x: 0, y: 795 },
        dir: Vec2 { x: 0, y: 1000 },
    });
    move_laser(&mut g, 1000);
    assert!(g.lasers.is_empty());
}

#[test]
fn laser_inside_bounds_advances_exactly() {
    let mut g = running_game();
    g.lasers.push(Laser {
        laser_type: LaserType::A,
        pos: Vec2 { x: 0, y: 0 },
        dir: Vec2 { x: 0, y: 1000 },
    });
    // 500 units per second for half a second
    move_laser(&mut g, 500);
    assert_eq!(g.lasers.len(), 1);
    assert_eq!(g.lasers[0].pos, Vec2 { x: 0, y: 250 });
}

#[test]
fn laser_past_x_bound_is_removed() {
    let mut g = running_game();
    g.lasers.push(Laser {
        laser_type: LaserType::A,
        pos: Vec2 { x: 1195, y: 0 },
        dir: Vec2 { x: 1000, y: 0 },
    });
    g.lasers.push(Laser {
        laser_type: LaserType::A,
        pos: Vec2 { x: 0, y: -400 },
        dir: Vec2 { x: 0, y: -707 },
    });
    move_laser(&mut g, 1000);
    // the first leaves through +x; the second only reaches -753
    assert_eq!(g.lasers.len(), 1);
    assert_eq!(g.lasers[0].pos, Vec2 { x: 0, y: -400 - 353 });
}

#[test]
fn obstacle_at_405_bounces_rightward_direction() {
    // obstacle at x=405, arena half-width 400, rightward direction:
    // the x component is negated on the next update
    let b = a_box(405, 0, 1000, 0);
    let stepped = step_box(&b, 0);
    assert_eq!(stepped.dir.0.x, -1000);
    assert_eq!(stepped.dir.0.y, 0);
    assert_eq!(stepped.pos.x, 400);
}

#[test]
fn laser_destroys_first_obstacle_it_touches() {
    let mut g = running_game();
    g.boxes.push(a_box(0, 0, 0, 0));
    g.lasers.push(Laser {
        laser_type: LaserType::A,
        pos: Vec2 { x: 10, y: 0 },
        dir: Vec2 { x: 0, y: 1000 },
    });
    g.lasers.push(Laser {
        laser_type: LaserType::A,
        pos: Vec2 { x: 5, y: 5 },
        dir: Vec2 { x: 0, y: 1000 },
    });
    detect_laser_collision(&mut g);
    // the first laser destroys the only obstacle; the second one then
    // has nothing to hit and survives
    assert!(g.boxes.is_empty());
    assert_eq!(g.lasers.len(), 1);
    assert_eq!(g.lasers[0].pos, Vec2 { x: 5, y: 5 });
}

#[test]
fn far_laser_hits_nothing() {
    let mut g = running_game();
    g.boxes.push(a_box(200, 200, 0, 0));
    g.lasers.push(Laser {
        laser_type: LaserType::A,
        pos: Vec2 { x: 0, y: 0 },
        dir: Vec2 { x: 0, y: 1000 },
    });
    detect_laser_collision(&mut g);
    assert_eq!(g.boxes.len(), 1);
    assert_eq!(g.lasers.len(), 1);
}

#[test]
fn collision_threshold_is_strict() {
    // two positions exactly 30 units apart do not touch
    let mut g = running_game();
    g.boxes.push(a_box(30, 0, 0, 0));
    g.lasers.push(Laser {
        laser_type: LaserType::A,
        pos: Vec2 { x: 0, y: 0 },
        dir: Vec2 { x: 0, y: 1000 },
    });
    detect_laser_collision(&mut g);
    assert_eq!(g.boxes.len(), 1);
    assert_eq!(g.lasers.len(), 1);
}

#[test]
fn fireball_advances_one_frame_per_elapsed_period() {
    let mut g = running_game();
    g.fireballs.push(Fireball {
        pos: Vec2 { x: 1, y: 2 },
        timer: FireballAnimationTimer(0),
        frame: 0,
    });
    animate_fireball(&mut g, 60);
    assert_eq!(g.fireballs[0].frame, 0);
    assert_eq!(g.fireballs[0].timer.0, 60);
    animate_fireball(&mut g, 60);
    assert_eq!(g.fireballs[0].frame, 1);
    assert_eq!(g.fireballs[0].timer.0, 20);
}

#[test]
fn fireball_is_removed_after_last_frame() {
    let mut g = running_game();
    g.fireballs.push(Fireball {
        pos: Vec2 { x: 0, y: 0 },
        timer: FireballAnimationTimer(99),
        frame: 15,
    });
    animate_fireball(&mut g, 1);
    assert!(g.fireballs.is_empty());
}

#[test]
fn effect_watcher_spawns_one_fireball_per_touching_box() {
    let mut g = running_game();
    g.ship = Some(Ship {
        pos: Vec2 { x: 0, y: 0 },
        facing: Vec2 { x: 0, y: 1000 },
    });
    g.boxes.push(a_box(10, 0, 0, 0));
    g.boxes.push(a_box(0, 10, 0, 0));
    g.boxes.push(a_box(300, 300, 0, 0));
    box_ship_collision(&mut g);
    assert_eq!(g.fireballs.len(), 2);
    assert_eq!(g.fireballs[0].pos, Vec2 { x: 0, y: 0 });
    assert_eq!(g.fireballs[1].pos, Vec2 { x: 0, y: 0 });
    // bookkeeping untouched: that is the resolver's job
    assert_eq!(g.lives.0, 5);
    assert!(g.ship.is_some());
}

#[test]
fn first_movement_input_starts_the_clock() {
    let mut g = GameState::new();
    assert_eq!(g.timer.elapsed_ms, None);
    ship_movement(&mut g, false, false, false, false, 16, 640, 360);
    assert_eq!(g.timer.elapsed_ms, None);
    ship_movement(&mut g, true, false, false, false, 16, 640, 360);
    assert_eq!(g.timer.elapsed_ms, Some(0));
}

#[test]
fn ship_moves_at_speed_and_clamps_to_window() {
    let mut g = GameState::new();
    g.ship = Some(Ship {
        pos: Vec2 { x: 0, y: 0 },
        facing: Vec2 { x: 0, y: 1000 },
    });
    // 200 units per second straight right for one second
    ship_movement(&mut g, false, false, false, true, 1000, 640, 360);
    assert_eq!(g.ship.unwrap().pos, Vec2 { x: 200, y: 0 });
    // four more seconds would reach 1000, but the window stops it
    ship_movement(&mut g, false, false, false, true, 4000, 640, 360);
    assert_eq!(g.ship.unwrap().pos, Vec2 { x: 640, y: 0 });
}

#[test]
fn diagonal_movement_is_not_faster() {
    let mut g = GameState::new();
    g.ship = Some(Ship {
        pos: Vec2 { x: 0, y: 0 },
        facing: Vec2 { x: 0, y: 1000 },
    });
    ship_movement(&mut g, true, false, false, true, 1000, 640, 360);
    // 707/1000 of the straight speed on each axis
    assert_eq!(g.ship.unwrap().pos, Vec2 { x: 141, y: 141 });
}

#[test]
fn opposite_keys_cancel_but_still_start_the_clock() {
    let mut g = GameState::new();
    let before = g.ship.unwrap().pos;
    ship_movement(&mut g, true, true, false, false, 1000, 640, 360);
    assert_eq!(g.ship.unwrap().pos, before);
    assert_eq!(g.timer.elapsed_ms, Some(0));
}

#[test]
fn key_direction_components() {
    assert_eq!(dir_from_keys(true, false, false, false), Vec2 { x: 0, y: 1000 });
    assert_eq!(dir_from_keys(false, true, false, false), Vec2 { x: 0, y: -1000 });
    assert_eq!(dir_from_keys(false, false, true, false), Vec2 { x: -1000, y: 0 });
    assert_eq!(dir_from_keys(false, false, false, true), Vec2 { x: 1000, y: 0 });
    assert_eq!(dir_from_keys(true, false, true, false), Vec2 { x: -707, y: 707 });
    assert_eq!(dir_from_keys(false, false, false, false), Vec2 { x: 0, y: 0 });
}

#[test]
fn four_quarter_turns_come_back_around() {
    let mut g = GameState::new();
    g.ship = Some(Ship {
        pos: Vec2 { x: 0, y: 0 },
        facing: Vec2 { x: 0, y: 1000 },
    });
    rotate_ship_on_click(&mut g);
    assert_eq!(g.ship.unwrap().facing, Vec2 { x: -1000, y: 0 });
    rotate_ship_on_click(&mut g);
    assert_eq!(g.ship.unwrap().facing, Vec2 { x: 0, y: -1000 });
    rotate_ship_on_click(&mut g);
    assert_eq!(g.ship.unwrap().facing, Vec2 { x: 1000, y: 0 });
    rotate_ship_on_click(&mut g);
    assert_eq!(g.ship.unwrap().facing, Vec2 { x: 0, y: 1000 });
}

#[test]
fn facing_follows_the_cursor() {
    let mut g = GameState::new();
    g.ship = Some(Ship {
        pos: Vec2 { x: 0, y: 0 },
        facing: Vec2 { x: 0, y: 1000 },
    });
    rotate_ship_follow_cursor(&mut g, Vec2 { x: 600, y: -800 });
    assert_eq!(g.ship.unwrap().facing, Vec2 { x: 600, y: -800 });
}

#[test]
fn laser_spawns_at_the_ships_tip() {
    let mut g = GameState::new();
    g.ship = Some(Ship {
        pos: Vec2 { x: 100, y: -50 },
        facing: Vec2 { x: 0, y: 1000 },
    });
    shoot_laser(&mut g);
    assert_eq!(g.lasers.len(), 1);
    let l = &g.lasers[0];
    assert_eq!(l.pos, Vec2 { x: 100, y: 0 });
    assert_eq!(l.dir, Vec2 { x: 0, y: 1000 });
    assert!(matches!(l.laser_type, LaserType::A));
}

#[test]
fn laser_tip_follows_a_turned_facing() {
    let mut g = GameState::new();
    g.ship = Some(Ship {
        pos: Vec2 { x: 0, y: 0 },
        facing: Vec2 { x: -707, y: -707 },
    });
    shoot_laser(&mut g);
    // 707 * 50 / 1000 truncates to 35, toward zero on both axes
    assert_eq!(g.lasers[0].pos, Vec2 { x: -35, y: -35 });
}

#[test]
fn no_ship_no_laser_no_movement() {
    let mut g = GameState::new();
    g.ship = None;
    shoot_laser(&mut g);
    assert!(g.lasers.is_empty());
    let moved = ship_movement(&mut g, true, false, false, false, 16, 640, 360);
    assert!(!moved);
    assert_eq!(g.timer.elapsed_ms, None);
    rotate_ship_on_click(&mut g);
    detect_starship_box_collision(&mut g);
    check_end_point_reached(&mut g);
    assert!(g.ship.is_none());
    assert_eq!(g.lives.0, 5);
}

#[test]
fn setup_places_separated_obstacles_in_the_arena() {
    let g = setup();
    assert_eq!(g.lives.0, 5);
    let ship = g.ship.expect("setup spawns the ship");
    assert_eq!(ship.pos, Vec2 { x: -400, y: 300 });
    assert_eq!(g.start.pos, Vec2 { x: -400, y: 300 });
    assert_eq!(g.goal.pos, Vec2 { x: 400, y: -300 });
    assert_eq!(g.timer.elapsed_ms, None);
    assert!(!g.timer.stopped);
    assert!(g.lasers.is_empty());
    assert!(g.fireballs.is_empty());
    // the batch is complete, whatever the draws did
    assert_eq!(g.boxes.len(), 10);
    for b in &g.boxes {
        assert!(b.pos.x >= -400 && b.pos.x <= 400);
        assert!(b.pos.y >= -300 && b.pos.y <= 300);
        assert!(b.dir.0.x >= -1000 && b.dir.0.x <= 1000);
        assert!(b.dir.0.y >= -1000 && b.dir.0.y <= 1000);
        // every direction is unit length, up to the fixed-point
        // truncation error
        let len_sq = b.dir.0.x * b.dir.0.x + b.dir.0.y * b.dir.0.y;
        assert!((995998..=1004000).contains(&len_sq));
    }
    for i in 0..g.boxes.len() {
        for j in (i + 1)..g.boxes.len() {
            let dx = g.boxes[i].pos.x - g.boxes[j].pos.x;
            let dy = g.boxes[i].pos.y - g.boxes[j].pos.y;
            assert!(dx * dx + dy * dy >= 40 * 40);
        }
    }
}

#[test]
fn close_obstacles_exchange_directions() {
    let mut g = running_game();
    g.boxes.push(a_box(0, 0, 100, 0));
    g.boxes.push(a_box(30, 0, 0, 200));
    g.boxes.push(a_box(300, 0, 7, 7));
    box_proximity_swap(&mut g);
    assert_eq!(g.boxes[0].dir.0, Vec2 { x: 0, y: 200 });
    assert_eq!(g.boxes[1].dir.0, Vec2 { x: 100, y: 0 });
    // the far obstacle keeps its direction, and nobody moves
    assert_eq!(g.boxes[2].dir.0, Vec2 { x: 7, y: 7 });
    assert_eq!(g.boxes[0].pos, Vec2 { x: 0, y: 0 });
    assert_eq!(g.boxes[1].pos, Vec2 { x: 30, y: 0 });
}

#[test]
fn proximity_pass_runs_pairs_in_order() {
    // three obstacles all within the bounce threshold of each other:
    // the pairs (0,1), (0,2), (1,2) swap in order, which reverses
    // the three directions
    let mut g = running_game();
    g.boxes.push(a_box(0, 0, 100, 0));
    g.boxes.push(a_box(10, 0, 200, 0));
    g.boxes.push(a_box(20, 0, 300, 0));
    box_proximity_swap(&mut g);
    assert_eq!(g.boxes[0].dir.0, Vec2 { x: 300, y: 0 });
    assert_eq!(g.boxes[1].dir.0, Vec2 { x: 200, y: 0 });
    assert_eq!(g.boxes[2].dir.0, Vec2 { x: 100, y: 0 });
}

#[test]
fn placement_rejects_crowded_spots() {
    let mut g = GameState::new();
    assert!(try_place_box(&mut g, Vec2 { x: 0, y: 0 }, Vec2 { x: 1000, y: 0 }));
    // 10 right and 10 up is within 40 units of the first obstacle
    assert!(!try_place_box(&mut g, Vec2 { x: 10, y: 10 }, Vec2 { x: 0, y: 1000 }));
    assert_eq!(g.boxes.len(), 1);
    // 39.something away on the diagonal is still too close
    assert!(!try_place_box(&mut g, Vec2 { x: 28, y: 28 }, Vec2 { x: 0, y: 1000 }));
    // exactly 40 away along an axis is far enough
    assert!(try_place_box(&mut g, Vec2 { x: 40, y: 0 }, Vec2 { x: 0, y: 1000 }));
    assert_eq!(g.boxes.len(), 2);
}

#[test]
fn integer_square_root_brackets_its_input() {
    assert_eq!(isqrt(0), 0);
    assert_eq!(isqrt(1), 1);
    assert_eq!(isqrt(3), 1);
    assert_eq!(isqrt(4), 2);
    assert_eq!(isqrt(999999), 999);
    assert_eq!(isqrt(1000000), 1000);
    assert_eq!(isqrt(2000000), 1414);
}

#[test]
fn normalization_scales_to_unit_length() {
    // a 3-4-5 triangle draw at the redraw threshold scales exactly
    assert_eq!(normalize_direction(300, 400), Vec2 { x: 600, y: 800 });
    // an exactly unit draw is untouched, whatever the signs
    assert_eq!(normalize_direction(600, -800), Vec2 { x: 600, y: -800 });
    assert_eq!(normalize_direction(-1000, 0), Vec2 { x: -1000, y: 0 });
    // a diagonal draw keeps its heading and lands near unit length
    assert_eq!(normalize_direction(707, 707), Vec2 { x: 707, y: 707 });
    // the zero draw stays zero
    assert_eq!(normalize_direction(0, 0), Vec2 { x: 0, y: 0 });
}

#[test]
fn display_hands_back_lives_and_elapsed() {
    let mut g = running_game();
    g.lives = ShipLives(4);
    let (lives, elapsed) = update_timer_display(&mut g, 2500);
    assert_eq!(lives, 4);
    assert_eq!(elapsed, Some(2500));
}

#[test]
fn timer_saturates_instead_of_wrapping() {
    let mut g = running_game();
    g.timer.elapsed_ms = Some(u64::MAX - 10);
    update_timer_display(&mut g, 100);
    assert_eq!(g.timer.elapsed_ms, Some(u64::MAX));
}

#[test]
fn full_round_from_setup_to_win() {
    let mut g = setup();
    g.boxes.clear();
    // the player moves; the clock starts and runs
    ship_movement(&mut g, false, false, false, true, 100, 1150, 750);
    update_timer_display(&mut g, 100);
    assert_eq!(g.timer.elapsed_ms, Some(100));
    // walk the ship onto the goal
    g.ship = Some(Ship {
        pos: Vec2 { x: 390, y: -295 },
        facing: Vec2 { x: 1000, y: 0 },
    });
    check_end_point_reached(&mut g);
    assert_eq!(g.outcome, Some(GameOutcome::Won));
    // afterwards every updater is a no-op on the frozen game
    let lasers = g.lasers.len();
    box_movement(&mut g, 1000);
    update_timer_display(&mut g, 1000);
    detect_starship_box_collision(&mut g);
    check_end_point_reached(&mut g);
    assert_eq!(g.timer.elapsed_ms, Some(100));
    assert_eq!(g.lasers.len(), lasers);
    assert!(g.ship.is_none());
}

#[test]
fn one_frame_runs_every_updater_in_order() {
    let mut g = running_game();
    g.boxes.push(a_box(0, 0, 1000, 0));
    g.lasers.push(Laser {
        laser_type: LaserType::A,
        pos: Vec2 { x: 500, y: 0 },
        dir: Vec2 { x: 0, y: 1000 },
    });
    g.fireballs.push(Fireball {
        pos: Vec2 { x: 7, y: 7 },
        timer: FireballAnimationTimer(0),
        frame: 0,
    });
    let input = TickInput {
        up: false,
        down: false,
        left: false,
        right: false,
        fire: true,
        cursor: None,
    };
    game_tick(&mut g, input, 1000, 640, 360);
    // the obstacle advanced at 100 units per second
    assert_eq!(g.boxes[0].pos, Vec2 { x: 100, y: 0 });
    // the clock ran
    assert_eq!(g.timer.elapsed_ms, Some(1000));
    // the laser fired from the ship's tip at (-400, 350) flew to
    // y = 850, past the travel bound, and is already gone; the old
    // laser survives at (500, 500)
    assert_eq!(g.lasers.len(), 1);
    assert_eq!(g.lasers[0].pos, Vec2 { x: 500, y: 500 });
    // the effect showed its next frame
    assert_eq!(g.fireballs[0].frame, 1);
    assert_eq!(g.fireballs[0].timer.0, 0);
    // nothing collided: full lives, game still running
    assert_eq!(g.lives.0, 5);
    assert_eq!(g.outcome, None);
}

#[test]
fn default_score_and_tracker() {
    let s = starship_arena::component::Score::default();
    assert_eq!(s.0, 0);
    let t = starship_arena::input::LaserTypeTracker::default();
    assert!(!t.shoot_a);
}

#[test]
fn game_timer_holds_elapsed_and_stopped() {
    let t = GameTimer {
        elapsed_ms: None,
        stopped: false,
    };
    assert_eq!(t.elapsed_ms, None);
    assert!(!t.stopped);
}
