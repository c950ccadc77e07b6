use snake2::grid::{advance, screen_coord, wrap, Direction, Position};

#[test]
fn advance_wraps_left_edge() {
    let p = advance(Position { x: 0, y: 5 }, Direction::Left);
    assert_eq!(p, Position { x: 15, y: 5 });
}

#[test]
fn advance_wraps_right_edge() {
    let p = advance(Position { x: 15, y: 5 }, Direction::Right);
    assert_eq!(p, Position { x: 0, y: 5 });
}

#[test]
fn advance_wraps_top_edge() {
    let p = advance(Position { x: 3, y: 15 }, Direction::Up);
    assert_eq!(p, Position { x: 3, y: 0 });
}

#[test]
fn advance_wraps_bottom_edge() {
    let p = advance(Position { x: 3, y: 0 }, Direction::Down);
    assert_eq!(p, Position { x: 3, y: 15 });
}

#[test]
fn advance_moves_one_cell_in_the_interior() {
    assert_eq!(advance(Position { x: 8, y: 8 }, Direction::Up), Position { x: 8, y: 9 });
    assert_eq!(advance(Position { x: 8, y: 8 }, Direction::Down), Position { x: 8, y: 7 });
    assert_eq!(advance(Position { x: 8, y: 8 }, Direction::Left), Position { x: 7, y: 8 });
    assert_eq!(advance(Position { x: 8, y: 8 }, Direction::Right), Position { x: 9, y: 8 });
}

#[test]
fn advance_stays_in_bounds_everywhere() {
    let dirs = [Direction::Left, Direction::Right, Direction::Up, Direction::Down];
    for x in 0..16 {
        for y in 0..16 {
            for d in dirs {
                let p = advance(Position { x, y }, d);
                assert!(0 <= p.x && p.x < 16);
                assert!(0 <= p.y && p.y < 16);
            }
        }
    }
}

#[test]
fn wrap_pulls_stray_coordinates_back() {
    assert_eq!(wrap(Position { x: -1, y: 16 }), Position { x: 15, y: 0 });
    assert_eq!(wrap(Position { x: -17, y: 33 }), Position { x: 15, y: 1 });
    assert_eq!(wrap(Position { x: 7, y: 9 }), Position { x: 7, y: 9 });
}

#[test]
fn is_opposite_holds_exactly_for_reverse_pairs() {
    assert!(Direction::Left.is_opposite(Direction::Right));
    assert!(Direction::Right.is_opposite(Direction::Left));
    assert!(Direction::Up.is_opposite(Direction::Down));
    assert!(Direction::Down.is_opposite(Direction::Up));
    assert!(!Direction::Up.is_opposite(Direction::Up));
    assert!(!Direction::Up.is_opposite(Direction::Left));
    assert!(!Direction::Up.is_opposite(Direction::Right));
    assert!(!Direction::Left.is_opposite(Direction::Up));
    assert!(!Direction::Left.is_opposite(Direction::Down));
    assert!(!Direction::Left.is_opposite(Direction::Left));
}

#[test]
fn screen_coord_maps_cells_of_an_800_pixel_window() {
    // cell size 50: screen = cell * 50 - 400 + 25
    assert_eq!(screen_coord(0, 800, 16), -375);
    assert_eq!(screen_coord(8, 800, 16), 25);
    assert_eq!(screen_coord(15, 800, 16), 375);
}

#[test]
fn screen_coord_handles_a_degenerate_window() {
    assert_eq!(screen_coord(5, 0, 16), 0);
}
