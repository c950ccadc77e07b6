use snake2::grid::{Direction, Position};
use snake2::snake::{Snake, SnakeElement};

fn snake_at(dir: Direction, cells: &[(i32, i32)]) -> Snake {
    let mut elements = Vec::new();
    for (i, &(x, y)) in cells.iter().enumerate() {
        elements.push(SnakeElement { entity: i as u64, pos: Position { x, y } });
    }
    Snake { dir, input_dir: None, elements }
}

fn positions(s: &Snake) -> Vec<Position> {
    s.elements.iter().map(|e| e.pos).collect()
}

#[test]
fn reverse_turn_request_is_dropped() {
    let mut s = snake_at(Direction::Up, &[(8, 8), (8, 7), (8, 6)]);
    s.request_turn(Direction::Down);
    let out = s.tick(None, 99);
    assert_eq!(s.dir, Direction::Up);
    assert_eq!(s.elements[0].pos, Position { x: 8, y: 9 });
    assert!(!out.ate);
    assert!(!out.game_over);
}

#[test]
fn sideways_turn_request_is_committed() {
    let mut s = snake_at(Direction::Up, &[(8, 8), (8, 7), (8, 6)]);
    s.request_turn(Direction::Left);
    s.tick(None, 99);
    assert_eq!(s.dir, Direction::Left);
    assert_eq!(s.elements[0].pos, Position { x: 7, y: 8 });
}

#[test]
fn last_turn_request_before_the_tick_wins() {
    let mut s = snake_at(Direction::Up, &[(8, 8), (8, 7), (8, 6)]);
    s.request_turn(Direction::Left);
    s.request_turn(Direction::Right);
    s.tick(None, 99);
    assert_eq!(s.dir, Direction::Right);
    assert_eq!(s.elements[0].pos, Position { x: 9, y: 8 });
}

#[test]
fn dropped_reverse_keeps_an_earlier_valid_request() {
    let mut s = snake_at(Direction::Up, &[(8, 8), (8, 7), (8, 6)]);
    s.request_turn(Direction::Left);
    s.request_turn(Direction::Down);
    s.tick(None, 99);
    assert_eq!(s.dir, Direction::Left);
}

#[test]
fn body_follows_the_leader_without_growth() {
    let mut s = snake_at(Direction::Up, &[(8, 8), (8, 7), (8, 6)]);
    let before = positions(&s);
    let out = s.tick(None, 99);
    assert!(!out.ate);
    assert_eq!(s.elements.len(), 3);
    assert_eq!(s.elements[0].pos, Position { x: 8, y: 9 });
    assert_eq!(s.elements[1].pos, before[0]);
    assert_eq!(s.elements[2].pos, before[1]);
}

#[test]
fn repeated_noop_turns_leave_the_progression_unchanged() {
    let mut plain = snake_at(Direction::Up, &[(8, 8), (8, 7), (8, 6)]);
    let mut noisy = snake_at(Direction::Up, &[(8, 8), (8, 7), (8, 6)]);
    for _ in 0..3 {
        noisy.request_turn(Direction::Up);
    }
    plain.tick(None, 99);
    noisy.tick(None, 99);
    assert_eq!(plain.dir, noisy.dir);
    assert_eq!(plain.input_dir, noisy.input_dir);
    assert_eq!(positions(&plain), positions(&noisy));
}

#[test]
fn pickup_grows_the_body_on_the_freed_tail_cell() {
    let mut s = snake_at(Direction::Up, &[(8, 8), (8, 7), (8, 6)]);
    let out = s.tick(Some(Position { x: 8, y: 9 }), 42);
    assert!(out.ate);
    assert!(!out.game_over);
    assert_eq!(s.elements.len(), 4);
    assert_eq!(s.elements[0].pos, Position { x: 8, y: 9 });
    assert_eq!(s.elements[1].pos, Position { x: 8, y: 8 });
    assert_eq!(s.elements[2].pos, Position { x: 8, y: 7 });
    assert_eq!(s.elements[3].pos, Position { x: 8, y: 6 });
    assert_eq!(s.elements[3].entity, 42);
}

#[test]
fn food_elsewhere_is_not_eaten() {
    let mut s = snake_at(Direction::Up, &[(8, 8), (8, 7), (8, 6)]);
    let out = s.tick(Some(Position { x: 2, y: 2 }), 42);
    assert!(!out.ate);
    assert_eq!(s.elements.len(), 3);
}

#[test]
fn head_hitting_the_body_reports_game_over() {
    // Heading up from (8,8) into (8,9), which a non-tail segment holds.
    let mut s = snake_at(Direction::Up, &[(8, 8), (7, 8), (7, 9), (8, 9), (9, 9)]);
    let out = s.tick(None, 99);
    assert!(out.game_over);
}

#[test]
fn moving_into_the_vacated_tail_cell_is_safe() {
    // A 2x2 loop: the head enters the cell the tail leaves this tick.
    let mut s = snake_at(Direction::Up, &[(8, 8), (9, 8), (9, 9), (8, 9)]);
    let out = s.tick(None, 99);
    assert!(!out.game_over);
    assert_eq!(s.elements[0].pos, Position { x: 8, y: 9 });
}

#[test]
fn growth_onto_the_old_tail_cell_collides() {
    // Same loop, but the head eats: the new tail keeps the old tail cell,
    // which is exactly where the head lands.
    let mut s = snake_at(Direction::Up, &[(8, 8), (9, 8), (9, 9), (8, 9)]);
    let out = s.tick(Some(Position { x: 8, y: 9 }), 42);
    assert!(out.ate);
    assert!(out.game_over);
}

#[test]
fn tick_wraps_the_head_at_the_grid_edge() {
    let mut s = snake_at(Direction::Left, &[(0, 4), (1, 4), (2, 4)]);
    s.tick(None, 99);
    assert_eq!(s.elements[0].pos, Position { x: 15, y: 4 });
}
