use hbot::robot::{step_game, step_robot, Action, Field, Robot};

fn field() -> Field {
    Field {
        width: 10,
        height: 10,
    }
}

fn robot_at(x: i32, y: i32, dir: (i32, i32), src: &str) -> Robot {
    let mut r = Robot::default();
    r.x = x;
    r.y = y;
    r.direction = dir;
    r.core.source = src.to_string();
    r.core.compile();
    r
}

#[test]
fn facing_robots_swap_cells_in_one_tick() {
    // Both decide against pre-tick positions, so each ends the tick on
    // the other's old cell; naive sequential application would differ.
    let f = field();
    let mut pop = vec![
        robot_at(4, 5, (1, 0), "fwd"),
        robot_at(5, 5, (-1, 0), "fwd"),
    ];
    step_game(&mut pop, &f);
    assert_eq!(pop.len(), 2);
    assert_eq!((pop[0].x, pop[0].y), (5, 5));
    assert_eq!((pop[1].x, pop[1].y), (4, 5));
}

#[test]
fn shot_without_candidates_costs_a_bullet() {
    // No robot stands ahead of the shooter: ammo is consumed and the gun
    // unloads, but no health changes anywhere.
    let f = field();
    let mut pop = vec![
        robot_at(5, 5, (0, 1), "sht"),
        robot_at(5, 2, (0, 1), "nop"), // behind the shooter
    ];
    step_game(&mut pop, &f);
    assert_eq!(pop[0].bullets, 99);
    assert!(!pop[0].gun_loaded);
    assert_eq!(pop[0].health, 100);
    assert_eq!(pop[1].health, 100);
}

#[test]
fn shot_hits_nearest_candidate_ahead() {
    let f = field();
    let mut pop = vec![
        robot_at(5, 0, (0, 1), "sht"),
        robot_at(5, 7, (0, 1), "nop"), // further
        robot_at(5, 2, (0, 1), "nop"), // nearer: the target
        robot_at(4, 1, (0, 1), "nop"), // off the firing line
    ];
    step_game(&mut pop, &f);
    assert_eq!(pop[1].health, 100);
    assert_eq!(pop[2].health, 90);
    assert_eq!(pop[3].health, 100);
}

#[test]
fn equal_distance_keeps_lowest_index_target() {
    // Two candidates on the same cell are equally far: the one met first
    // in index order keeps the pick, a later equal distance does not
    // overwrite it.
    let f = field();
    let mut pop = vec![
        robot_at(5, 0, (0, 1), "sht"),
        robot_at(5, 3, (0, 1), "nop"),
        robot_at(5, 3, (1, 0), "nop"),
    ];
    step_game(&mut pop, &f);
    assert_eq!(pop[1].health, 90);
    assert_eq!(pop[2].health, 100);
}

#[test]
fn unloaded_gun_holds_fire() {
    let f = field();
    let mut shooter = robot_at(5, 0, (0, 1), "sht");
    shooter.gun_loaded = false;
    let mut pop = vec![shooter, robot_at(5, 3, (0, 1), "nop")];
    step_game(&mut pop, &f);
    // Nothing is recorded and ammo state does not change.
    assert_eq!(pop[0].bullets, 100);
    assert!(!pop[0].gun_loaded);
    assert_eq!(pop[1].health, 100);
}

#[test]
fn empty_magazine_holds_fire() {
    let f = field();
    let mut shooter = robot_at(5, 0, (0, 1), "sht");
    shooter.bullets = 0;
    let mut pop = vec![shooter, robot_at(5, 3, (0, 1), "nop")];
    step_game(&mut pop, &f);
    assert_eq!(pop[0].bullets, 0);
    assert!(pop[0].gun_loaded);
    assert_eq!(pop[1].health, 100);
}

#[test]
fn dying_robot_is_targetable_this_tick_gone_next() {
    // The victim drops to zero or below during the tick, but both shots
    // of the same tick land on it: targeting ran against pre-tick state.
    // Only at the end of the tick does it leave the population.
    let f = field();
    let mut victim = robot_at(5, 5, (0, 1), "nop");
    victim.health = 20;
    victim.name = "victim".to_string();
    let mut pop = vec![
        robot_at(5, 0, (0, 1), "sht"),
        robot_at(5, 9, (0, -1), "sht"),
        victim,
    ];
    step_game(&mut pop, &f);
    // Both shooters found and hit it: 20 - 10 - 10 = 0, then cleanup.
    assert_eq!(pop.len(), 2);
    assert!(pop.iter().all(|r| r.name != "victim"));
    assert_eq!(pop[0].bullets, 99);
    assert_eq!(pop[1].bullets, 99);
}

#[test]
fn survivor_keeps_damage() {
    let f = field();
    let mut pop = vec![
        robot_at(5, 0, (0, 1), "sht"),
        robot_at(5, 5, (0, 1), "nop"),
    ];
    step_game(&mut pop, &f);
    assert_eq!(pop.len(), 2);
    assert_eq!(pop[1].health, 90);
}

#[test]
fn dead_robots_are_removed_in_order() {
    let f = field();
    let mut a = robot_at(1, 1, (0, 1), "nop");
    a.health = 0;
    let mut b = robot_at(2, 2, (0, 1), "nop");
    b.name = "keep1".to_string();
    let mut c = robot_at(3, 3, (0, 1), "nop");
    c.health = -5;
    let mut d = robot_at(4, 4, (0, 1), "nop");
    d.name = "keep2".to_string();
    let mut pop = vec![a, b, c, d];
    step_game(&mut pop, &f);
    assert_eq!(pop.len(), 2);
    assert_eq!(pop[0].name, "keep1");
    assert_eq!(pop[1].name, "keep2");
}

#[test]
fn each_robot_executes_exactly_one_instruction() {
    let f = field();
    let mut pop = vec![
        robot_at(1, 1, (0, 1), "add a, 1 \n add a, 1"),
        robot_at(2, 2, (0, 1), "add b, 5"),
    ];
    step_game(&mut pop, &f);
    assert_eq!(pop[0].core.a, 1);
    assert_eq!(pop[1].core.b, 5);
    step_game(&mut pop, &f);
    assert_eq!(pop[0].core.a, 2);
    // The single-instruction program looped back to its only line.
    assert_eq!(pop[1].core.b, 10);
}

#[test]
fn step_robot_defers_shot_to_recorded_target() {
    let f = field();
    let mut pop = vec![
        robot_at(5, 0, (0, 1), "sht"),
        robot_at(5, 4, (0, 1), "nop"),
    ];
    let a = step_robot(0, &mut pop, &f);
    assert_eq!(a, Action::Shoot(1));
    // Phase 1 records the action; health is untouched until phase 3.
    assert_eq!(pop[1].health, 100);
    assert_eq!(pop[0].bullets, 99);
}

#[test]
fn horizontal_targeting_uses_row() {
    let f = field();
    let mut pop = vec![
        robot_at(0, 4, (1, 0), "sht"),
        robot_at(7, 4, (0, 1), "nop"),
        robot_at(3, 5, (0, 1), "nop"), // wrong row
    ];
    step_game(&mut pop, &f);
    assert_eq!(pop[1].health, 90);
    assert_eq!(pop[2].health, 100);
}

#[test]
fn default_robot_snapshot_surface() {
    let r = Robot::default();
    assert_eq!((r.x, r.y), (0, 0));
    assert_eq!(r.direction, (0, 1));
    assert_eq!(r.health, 100);
    assert_eq!(r.max_health, 100);
    assert_eq!(r.bullets, 100);
    assert!(r.gun_loaded);
    assert_eq!(r.team, 1);
    assert_eq!(r.name, "Unnamed");
    assert_eq!(r.core.instructions.len(), 0);
}
