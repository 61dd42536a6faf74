use slugout::basic_npc::{approach_ball, approach_player, evade_ball, States as BasicStates};
use slugout::behavior_tree::{
    behavior_tree, execute_node, Node, NodeStatus, AGGRESSION_CHECK, DANGER_CHECK, PERFORM_A_STAR,
    PLAYER_PROXIMITY_CHECK, SET_TAG_TO_CLOSEST_BALL, SIDESTEP, SWING, SWING_COOLDOWN_CHECK,
    TAG_IS_NULL,
};
use slugout::combat::{ball_hit, Axis, BallHit};
use slugout::grid::{get_neighbours, manhattan_distance, Point};
use slugout::movement::{
    avoid_collision, bat_swing, collision_check_map1, collision_check_map4,
    collision_check_no_objects, collision_response, input_direction, player_npc_collisions,
    AxisLocks, AxisPush, Collision, CollisionResponse, MoveKeys, Obstacle,
};
use slugout::npc::{
    approach_direction, closest_furniture, difficulty_check, hiding_spot, hit_deviation, selection,
    set_tag_to_closest_object, sidestep_direction, Furniture, GoalChoice, Selection,
    SelectionFacts, Sign, States,
};
use slugout::pathfinding::{a_star, Maps};
use slugout::swing::{hit_speed, swing_at_rest, swing_step, BatPose, SwingState};
use slugout::powerups::{player_powerups, power_up_name, spawn_powerups, PowerUp, PowerUpKind};

fn maps() -> Maps {
    let mut maps = Maps { path_map: Vec::new(), cost_map: Vec::new() };
    maps.load_map_path();
    maps.load_map_cost();
    maps
}

fn tiles_adjacent(a: Point, b: Point) -> bool {
    let (ax, ay, bx, by) = (a.x / 4, a.y / 4, b.x / 4, b.y / 4);
    (ax - bx).abs() + (ay - by).abs() == 1
}

#[test]
fn a_star_finds_route_over_neighbouring_tiles() {
    let start = Point { x: 0, y: 0 };
    let goal = Point { x: 40, y: 40 };
    let path = a_star(start, goal, &maps());
    assert_eq!(path[0], start);
    assert_eq!(*path.last().unwrap(), goal);
    assert!(path.len() >= 21);
    for w in path.windows(2) {
        assert!(tiles_adjacent(w[0], w[1]));
    }
    for p in &path[1..] {
        assert!(p.x % 4 == 0 && p.y % 4 == 0 && p.x < 1280 && p.y < 720);
    }
}

#[test]
fn a_star_from_unaligned_start() {
    let start = Point { x: 642, y: 361 };
    let goal = Point { x: 600, y: 380 };
    let path = a_star(start, goal, &maps());
    assert_eq!(path[0], start);
    assert_eq!(*path.last().unwrap(), goal);
    for w in path.windows(2) {
        assert!(tiles_adjacent(w[0], w[1]));
    }
}

#[test]
fn a_star_unreachable_goal_gives_origin() {
    let start = Point { x: 100, y: 100 };
    assert_eq!(a_star(start, Point { x: 41, y: 40 }, &maps()), vec![Point { x: 0, y: 0 }]);
    assert_eq!(a_star(start, Point { x: 1280, y: 40 }, &maps()), vec![Point { x: 0, y: 0 }]);
    assert_eq!(a_star(start, Point { x: -4, y: 40 }, &maps()), vec![Point { x: 0, y: 0 }]);
}

#[test]
fn a_star_to_start_stays_put() {
    let start = Point { x: 13, y: 7 };
    let path = a_star(start, start, &maps());
    assert_eq!(path[0], start);
    assert_eq!(*path.last().unwrap(), start);
}

#[test]
fn map_tables_have_their_shape() {
    let m = maps();
    let path = &m.path_map;
    assert_eq!(path.len(), 320);
    assert!(path.iter().all(|row| row.len() == 180));
    assert_eq!(path[3][5], Point { x: 12, y: 20 });
    assert_eq!(path[319][179], Point { x: 1276, y: 716 });
    let cost = &m.cost_map;
    assert_eq!(cost.len(), 320);
    assert_eq!(cost[0].len(), 360);
    assert_eq!(cost[10][0], i32::MAX);
    assert_eq!(cost[10][1], -1);
}

#[test]
fn neighbours_in_order_left_up_right_down() {
    let map = maps().path_map;
    assert_eq!(
        get_neighbours(&map, Point { x: 0, y: 0 }),
        vec![Point { x: 0, y: 4 }, Point { x: 4, y: 0 }]
    );
    assert_eq!(
        get_neighbours(&map, Point { x: 41, y: 42 }),
        vec![
            Point { x: 36, y: 40 },
            Point { x: 40, y: 44 },
            Point { x: 44, y: 40 },
            Point { x: 40, y: 36 }
        ]
    );
    assert_eq!(
        get_neighbours(&map, Point { x: 1279, y: 719 }),
        vec![Point { x: 1272, y: 716 }, Point { x: 1276, y: 712 }]
    );
}

#[test]
fn manhattan_distance_values() {
    assert_eq!(manhattan_distance(Point { x: 0, y: 0 }, Point { x: 3, y: -4 }), 7);
    assert_eq!(manhattan_distance(Point { x: i32::MIN, y: 0 }, Point { x: i32::MAX, y: 0 }), 4294967295);
}

fn run(node: &Node, checks: &[bool], actions: &[NodeStatus]) -> (NodeStatus, Vec<u32>) {
    let mut trace = Vec::new();
    let s = execute_node(node, &checks.to_vec(), &actions.to_vec(), &mut trace);
    (s, trace)
}

#[test]
fn sequence_succeeds_only_when_every_child_succeeds() {
    let node = Node::Sequence(vec![Node::Condition(0), Node::Action(1), Node::Action(0)]);
    let all = [NodeStatus::Success, NodeStatus::Success];
    assert_eq!(run(&node, &[true], &all), (NodeStatus::Success, vec![0, 1, 0]));
    let running = [NodeStatus::Success, NodeStatus::Running];
    assert_eq!(run(&node, &[true], &running), (NodeStatus::Running, vec![0, 1]));
    assert_eq!(run(&node, &[false], &all), (NodeStatus::Failure, vec![0]));
    assert_eq!(run(&Node::Sequence(vec![]), &[], &[]), (NodeStatus::Success, vec![]));
}

#[test]
fn fallback_fails_only_when_every_child_fails() {
    let node = Node::Fallback(vec![Node::Condition(0), Node::Condition(1), Node::Action(0)]);
    assert_eq!(run(&node, &[false, false], &[NodeStatus::Failure]), (NodeStatus::Failure, vec![0, 1, 0]));
    assert_eq!(run(&node, &[false, true], &[NodeStatus::Failure]), (NodeStatus::Success, vec![0, 1]));
    assert_eq!(run(&node, &[false, false], &[NodeStatus::Running]), (NodeStatus::Running, vec![0, 1, 0]));
    assert_eq!(run(&Node::Fallback(vec![]), &[], &[]), (NodeStatus::Failure, vec![]));
}

#[test]
fn decorator_runs_child_only_when_check_holds() {
    let node = Node::Decorator(0, Box::new(Node::Action(0)));
    assert_eq!(run(&node, &[false], &[NodeStatus::Success]), (NodeStatus::Failure, vec![0]));
    assert_eq!(run(&node, &[true], &[NodeStatus::Running]), (NodeStatus::Running, vec![0, 0]));
}

#[test]
fn npc_tree_in_danger_sidesteps() {
    let tree = behavior_tree();
    let mut checks = vec![false; 5];
    checks[DANGER_CHECK as usize] = true;
    let actions = vec![NodeStatus::Success; 5];
    let (status, trace) = run(&tree, &checks, &actions);
    assert_eq!(status, NodeStatus::Success);
    assert_eq!(trace, vec![DANGER_CHECK, AGGRESSION_CHECK, SWING_COOLDOWN_CHECK, SWING, SIDESTEP]);
}

#[test]
fn npc_tree_without_danger_walks_its_path() {
    let tree = behavior_tree();
    let checks = vec![false; 5];
    let actions = vec![NodeStatus::Success; 5];
    let (status, trace) = run(&tree, &checks, &actions);
    assert_eq!(status, NodeStatus::Failure);
    assert_eq!(trace, vec![DANGER_CHECK, PLAYER_PROXIMITY_CHECK]);
    let mut checks = vec![false; 5];
    checks[PLAYER_PROXIMITY_CHECK as usize] = true;
    checks[AGGRESSION_CHECK as usize] = true;
    checks[TAG_IS_NULL as usize] = true;
    let (status, trace) = run(&tree, &checks, &actions);
    assert_eq!(status, NodeStatus::Success);
    assert_eq!(
        trace,
        vec![
            DANGER_CHECK,
            PLAYER_PROXIMITY_CHECK,
            AGGRESSION_CHECK,
            SWING,
            TAG_IS_NULL,
            AGGRESSION_CHECK,
            SET_TAG_TO_CLOSEST_BALL,
            PERFORM_A_STAR
        ]
    );
}

#[test]
fn sidestep_moves_across_the_ball() {
    assert_eq!(sidestep_direction(Sign::Negative, Sign::Negative, false), (-1000, 1000));
    assert_eq!(sidestep_direction(Sign::Negative, Sign::Positive, false), (1000, 1000));
    assert_eq!(sidestep_direction(Sign::Positive, Sign::Negative, false), (-1000, -1000));
    assert_eq!(sidestep_direction(Sign::Positive, Sign::Positive, false), (1000, -1000));
    assert_eq!(sidestep_direction(Sign::Negative, Sign::Zero, false), (0, 1000));
    assert_eq!(sidestep_direction(Sign::Zero, Sign::Positive, false), (1000, 0));
    assert_eq!(sidestep_direction(Sign::Zero, Sign::Zero, false), (0, 0));
    assert_eq!(sidestep_direction(Sign::Negative, Sign::Negative, true), (1000, -1000));
}

#[test]
fn approach_moves_toward_the_point() {
    assert_eq!(approach_direction(Sign::Positive, Sign::Zero, false), (1000, 0));
    assert_eq!(approach_direction(Sign::Negative, Sign::Positive, false), (-1000, 1000));
    assert_eq!(approach_direction(Sign::Negative, Sign::Positive, true), (1000, -1000));
}

#[test]
fn difficulty_check_compares_with_roll() {
    assert!(difficulty_check(60, 59));
    assert!(!difficulty_check(60, 60));
    assert!(!difficulty_check(0, 0));
    assert!(difficulty_check(100, 99));
}

#[test]
fn selection_decisions() {
    let facts = SelectionFacts { danger: true, tag_is_null: false, player_close: false, ball_exists: true };
    assert_eq!(
        selection(facts, 60, [10, 99, 99]),
        Selection { state: States::Aggression, goal: GoalChoice::ClosestBall, plan_path: true }
    );
    assert_eq!(
        selection(facts, 60, [70, 0, 0]),
        Selection { state: States::Danger, goal: GoalChoice::Keep, plan_path: false }
    );
    let facts = SelectionFacts { danger: false, tag_is_null: true, player_close: true, ball_exists: true };
    assert_eq!(
        selection(facts, 60, [10, 99, 99]),
        Selection { state: States::Aggression, goal: GoalChoice::Player, plan_path: true }
    );
    assert_eq!(
        selection(facts, 60, [99, 10, 99]),
        Selection { state: States::Aggression, goal: GoalChoice::ClosestBall, plan_path: true }
    );
    assert_eq!(
        selection(facts, 60, [99, 99, 10]),
        Selection { state: States::Evade, goal: GoalChoice::BehindClosestObject, plan_path: true }
    );
    assert_eq!(
        selection(facts, 60, [99, 99, 99]),
        Selection { state: States::Idle, goal: GoalChoice::Keep, plan_path: false }
    );
    let facts = SelectionFacts { danger: false, tag_is_null: false, player_close: true, ball_exists: false };
    assert_eq!(
        selection(facts, 60, [10, 10, 99]),
        Selection { state: States::Evade, goal: GoalChoice::BehindClosestObject, plan_path: true }
    );
}

#[test]
fn state_predicates() {
    assert!(States::Danger.is_danger());
    assert!(!States::Idle.is_danger());
    assert!(States::Aggression.is_aggression());
    assert!(States::Evade.is_evade());
    assert!(!States::Default.is_evade());
}

#[test]
fn hiding_spots_around_furniture() {
    assert_eq!(closest_furniture(true, true, false), Furniture::Recliner);
    assert_eq!(closest_furniture(true, false, true), Furniture::TvStand);
    assert_eq!(closest_furniture(false, false, true), Furniture::SideTable);
    assert_eq!(closest_furniture(false, true, false), Furniture::TvStand);
    assert_eq!(hiding_spot(Furniture::Recliner, 0), (-60, 402));
    assert_eq!(hiding_spot(Furniture::Recliner, 1), (-228, 210));
    assert_eq!(hiding_spot(Furniture::TvStand, 2), (0, -442));
    assert_eq!(hiding_spot(Furniture::SideTable, 3), (288, 170));
    let spot = set_tag_to_closest_object(true, true, false);
    assert!([(-60, 402), (-228, 210), (-60, 18), (108, 210)].contains(&spot));
}

#[test]
fn keyboard_direction() {
    let keys = MoveKeys { left: true, right: false, up: true, down: false };
    assert_eq!(input_direction(keys, false), (-1000, 1000));
    assert_eq!(input_direction(keys, true), (1000, -1000));
    let both = MoveKeys { left: true, right: true, up: false, down: true };
    assert_eq!(input_direction(both, false), (0, -1000));
}

#[test]
fn later_collision_overrides_earlier_push() {
    let hits = vec![
        (Obstacle::Recliner, Some(Collision::Left)),
        (Obstacle::TvStand, Some(Collision::Bottom)),
        (Obstacle::Player, Some(Collision::Right)),
        (Obstacle::SideTable, None),
    ];
    assert_eq!(
        collision_response(&hits),
        CollisionResponse {
            x: Some(AxisPush { positive: false, by: Obstacle::Player }),
            y: Some(AxisPush { positive: true, by: Obstacle::TvStand }),
        }
    );
    assert_eq!(collision_response(&vec![]), CollisionResponse { x: None, y: None });
}

#[test]
fn map_collision_checks() {
    assert_eq!(
        collision_check_map1(Some(Collision::Left), None, Some(Collision::Top), None),
        CollisionResponse {
            x: Some(AxisPush { positive: true, by: Obstacle::Recliner }),
            y: Some(AxisPush { positive: false, by: Obstacle::SideTable }),
        }
    );
    assert_eq!(
        collision_check_map1(None, Some(Collision::Inside), None, None),
        CollisionResponse { x: None, y: None }
    );
    assert_eq!(
        collision_check_map4([None, Some(Collision::Right), None, None, None, None], Some(Collision::Bottom)),
        CollisionResponse {
            x: Some(AxisPush { positive: false, by: Obstacle::Coral }),
            y: Some(AxisPush { positive: true, by: Obstacle::Player }),
        }
    );
    assert_eq!(
        collision_check_no_objects(Some(Collision::Inside)),
        CollisionResponse {
            x: Some(AxisPush { positive: false, by: Obstacle::Player }),
            y: Some(AxisPush { positive: false, by: Obstacle::Player }),
        }
    );
    assert_eq!(collision_check_no_objects(None), CollisionResponse { x: None, y: None });
}

#[test]
fn touching_characters_are_pushed_apart() {
    assert_eq!(player_npc_collisions(Some(Collision::Right)), ((-5, 0), (5, 0)));
    assert_eq!(player_npc_collisions(Some(Collision::Left)), ((5, 0), (-5, 0)));
    assert_eq!(player_npc_collisions(Some(Collision::Top)), ((0, -5), (0, 5)));
    assert_eq!(player_npc_collisions(Some(Collision::Bottom)), ((0, 5), (0, -5)));
    assert_eq!(player_npc_collisions(Some(Collision::Inside)), ((0, 0), (0, 0)));
    assert_eq!(player_npc_collisions(None), ((0, 0), (0, 0)));
}

#[test]
fn axis_locks_from_first_side_hit() {
    assert_eq!(avoid_collision(&vec![]), None);
    assert_eq!(avoid_collision(&vec![None, Some(Collision::Inside)]), Some(AxisLocks { x: false, y: false }));
    assert_eq!(
        avoid_collision(&vec![None, Some(Collision::Top), Some(Collision::Left)]),
        Some(AxisLocks { x: false, y: true })
    );
    assert_eq!(avoid_collision(&vec![Some(Collision::Right)]), Some(AxisLocks { x: true, y: false }));
}

#[test]
fn bat_swing_follows_npc_motion() {
    assert_eq!(bat_swing(Sign::Positive, Sign::Negative), (500, -500));
    assert_eq!(bat_swing(Sign::Zero, Sign::Positive), (0, 500));
    assert_eq!(bat_swing(Sign::Zero, Sign::Zero), (0, 0));
}

#[test]
fn ball_hit_takes_one_life() {
    assert_eq!(
        ball_hit(Some(Collision::Left), 3, false, false),
        BallHit { reflect: Some(Axis::X), nudge_x: 10, nudge_y: 0, damaged: true, health: 2, hide_bar: Some(3) }
    );
    assert_eq!(
        ball_hit(Some(Collision::Top), 1, false, false),
        BallHit { reflect: Some(Axis::Y), nudge_x: 0, nudge_y: -10, damaged: true, health: 0, hide_bar: Some(1) }
    );
    assert_eq!(
        ball_hit(Some(Collision::Right), 3, true, false),
        BallHit { reflect: Some(Axis::X), nudge_x: -10, nudge_y: 0, damaged: false, health: 3, hide_bar: None }
    );
    assert_eq!(
        ball_hit(Some(Collision::Bottom), 2, false, true),
        BallHit { reflect: Some(Axis::Y), nudge_x: 0, nudge_y: 10, damaged: false, health: 2, hide_bar: None }
    );
    let nothing = BallHit { reflect: None, nudge_x: 0, nudge_y: 0, damaged: false, health: 0, hide_bar: None };
    assert_eq!(ball_hit(Some(Collision::Left), 0, false, false), nothing);
    assert_eq!(
        ball_hit(Some(Collision::Inside), 2, false, false),
        BallHit { health: 2, ..nothing }
    );
}

#[test]
fn power_ups_of_a_new_game() {
    let spawns = spawn_powerups();
    assert_eq!(spawns.len(), 3);
    assert_eq!((spawns[0].kind, spawns[0].x, spawns[0].y), (PowerUpKind::BigBat, 80, -80));
    assert_eq!((spawns[1].kind, spawns[1].x, spawns[1].y), (PowerUpKind::Confusion, 220, 130));
    assert_eq!((spawns[2].kind, spawns[2].x, spawns[2].y), (PowerUpKind::Invisibility, -200, -230));
    assert_eq!((spawns[0].red, spawns[0].green, spawns[0].blue), (240, 140, 100));
    assert_eq!(power_up_name(PowerUpKind::BigBat), "bigbat");
    assert_eq!(power_up_name(PowerUpKind::Confusion), "confusion");
    assert_eq!(power_up_name(PowerUpKind::Invisibility), "invisibility");
}

#[test]
fn power_up_is_picked_once() {
    let mut holding = None;
    let mut p = PowerUp { kind: PowerUpKind::Confusion, active: true };
    assert!(!player_powerups(&mut holding, &mut p, Some(Collision::Left), false));
    assert!(!player_powerups(&mut holding, &mut p, Some(Collision::Inside), true));
    assert!(player_powerups(&mut holding, &mut p, Some(Collision::Left), true));
    assert_eq!(holding, Some(PowerUpKind::Confusion));
    assert_eq!(p, PowerUp { kind: PowerUpKind::Confusion, active: false });
    let mut later = None;
    assert!(!player_powerups(&mut later, &mut p, Some(Collision::Top), true));
    assert_eq!(later, None);
    let mut other = PowerUp { kind: PowerUpKind::BigBat, active: true };
    assert!(!player_powerups(&mut holding, &mut other, Some(Collision::Top), true));
    assert!(other.active);
}

#[test]
fn basic_npc_moves() {
    let mut s = BasicStates::Idle;
    s.to_aggression();
    assert_eq!(s, BasicStates::Evade);
    let mut a = BasicStates::Aggression;
    a.to_aggression();
    assert_eq!(a, BasicStates::Aggression);
    assert_eq!(approach_player(Sign::Positive, Sign::Negative), (10, -10));
    assert_eq!(approach_ball(Sign::Zero, Sign::Positive), (0, 10));
    assert_eq!(evade_ball(Sign::Positive, Sign::Zero), (-10, 0));
}

#[test]
fn aim_error_shrinks_with_difficulty() {
    assert_eq!(hit_deviation(true, true, 60), (0, -40));
    assert_eq!(hit_deviation(true, false, 60), (0, 40));
    assert_eq!(hit_deviation(false, true, 20), (-80, 0));
    assert_eq!(hit_deviation(false, false, 100), (0, 0));
}

#[test]
fn swing_strikes_once_after_release() {
    let rest = swing_at_rest();
    assert_eq!(rest, SwingState { pressed: false, transformed: false, just_released: false });
    let held = swing_step(rest, true, false, true);
    assert_eq!(held.pose, BatPose::Horizontal);
    assert!(!held.strike);
    let still = swing_step(held.state, false, false, true);
    assert_eq!(still.pose, BatPose::Horizontal);
    assert!(!still.strike);
    let released = swing_step(still.state, false, true, true);
    assert_eq!(released.pose, BatPose::Upright);
    assert!(released.strike);
    assert_eq!(released.state, SwingState { pressed: false, transformed: false, just_released: false });
    let after = swing_step(released.state, false, true, true);
    assert!(!after.strike);
    assert_eq!(after.pose, BatPose::Unchanged);
}

#[test]
fn swing_waits_for_cursor_in_window() {
    let held = swing_step(swing_at_rest(), true, false, false);
    let released = swing_step(held.state, false, true, false);
    assert!(!released.strike);
    assert_eq!(released.state, SwingState { pressed: false, transformed: true, just_released: true });
    let back = swing_step(released.state, false, false, true);
    assert!(back.strike);
    assert_eq!(back.pose, BatPose::Upright);
    assert!(!swing_step(swing_at_rest(), false, true, true).strike);
}

#[test]
fn spin_changes_hit_speed() {
    assert_eq!(hit_speed(false, false), 500);
    assert_eq!(hit_speed(true, false), 250);
    assert_eq!(hit_speed(false, true), 750);
    assert_eq!(hit_speed(true, true), 375);
}

#[test]
fn a_star_short_route_along_a_row() {
    let path = a_star(Point { x: 0, y: 0 }, Point { x: 8, y: 0 }, &maps());
    assert_eq!(path, vec![Point { x: 0, y: 0 }, Point { x: 4, y: 0 }, Point { x: 8, y: 0 }]);
}

#[test]
fn a_star_routes_are_shortest_on_the_open_grid() {
    let cases = [
        ((0, 0), (40, 40)),
        ((100, 200), (40, 80)),
        ((1276, 716), (1200, 700)),
        ((640, 360), (640, 300)),
        ((12, 700), (400, 8)),
    ];
    let m = maps();
    for ((sx, sy), (gx, gy)) in cases {
        let path = a_star(Point { x: sx, y: sy }, Point { x: gx, y: gy }, &m);
        assert_eq!(path.len() as i32, ((gx - sx).abs() + (gy - sy).abs()) / 4 + 1);
        for w in path.windows(2) {
            assert_eq!((w[0].x - w[1].x).abs() + (w[0].y - w[1].y).abs(), 4);
        }
    }
}
