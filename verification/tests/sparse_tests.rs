use life::sparse::{Board, Position, State};

#[test]
fn position_from_copies_the_coordinates() {
    let p = Position(3, 4);
    let q = Position::from(&p);
    assert_eq!(q, Position(3, 4));
}

#[test]
fn sparse_domain_omits_the_border() {
    // Stored positions span 1..width by 1..height, so in a 3-by-3 bounding
    // box only four cells are modeled; the border renders dead even when
    // every stored cell is alive.
    let b = Board::uniform(3, 3, State::Alive);
    assert_eq!(b.render(), "OO \nOO \n   \n");
}

#[test]
fn sparse_block_is_a_still_life() {
    // The four stored cells of a 3-by-3 box form a block: each has exactly
    // three living neighbors and survives.
    let mut b = Board::uniform(3, 3, State::Alive);
    b.tick();
    assert_eq!(b.render(), "OO \nOO \n   \n");
}

#[test]
fn sparse_render_all_dead() {
    let b = Board::uniform(4, 3, State::Dead);
    assert_eq!(b.render(), "    \n    \n    \n");
}

#[test]
fn sparse_blinker_oscillates() {
    let mut b = Board::uniform(7, 7, State::Dead);
    b.set_state(2, 3, State::Alive);
    b.set_state(3, 3, State::Alive);
    b.set_state(4, 3, State::Alive);
    b.tick();
    assert!(!b.alive_at_pos(2, 3));
    assert!(!b.alive_at_pos(4, 3));
    assert!(b.alive_at_pos(3, 2));
    assert!(b.alive_at_pos(3, 3));
    assert!(b.alive_at_pos(3, 4));
    b.tick();
    assert!(b.alive_at_pos(2, 3));
    assert!(b.alive_at_pos(3, 3));
    assert!(b.alive_at_pos(4, 3));
    assert!(!b.alive_at_pos(3, 2));
    assert!(!b.alive_at_pos(3, 4));
}

#[test]
fn sparse_neighbor_counts() {
    let mut b = Board::uniform(5, 5, State::Dead);
    b.set_state(2, 2, State::Alive);
    // The cell itself is not its own neighbor.
    assert_eq!(b.count_neighbors(2, 2), 0);
    assert_eq!(b.count_neighbors(1, 1), 1);
    assert_eq!(b.count_neighbors(3, 3), 1);
    assert_eq!(b.count_neighbors(4, 4), 0);
    b.set_state(1, 1, State::Alive);
    assert_eq!(b.count_neighbors(2, 2), 1);
    assert_eq!(b.count_neighbors(1, 2), 2);
}

#[test]
fn sparse_tick_is_deterministic() {
    let mut a = Board::uniform(6, 6, State::Dead);
    let mut b = Board::uniform(6, 6, State::Dead);
    for (x, y) in [(1, 1), (2, 1), (3, 2), (4, 4), (3, 3)] {
        a.set_state(x, y, State::Alive);
        b.set_state(x, y, State::Alive);
    }
    a.tick();
    b.tick();
    assert_eq!(a.render(), b.render());
}

#[test]
fn sparse_tick_preserves_dimensions() {
    let mut b = Board::new(4, 6);
    b.tick();
    let text = b.render();
    let lines: Vec<&str> = text.split('\n').collect();
    assert_eq!(lines.len(), 7);
    assert_eq!(lines[6], "");
    for y in 0..6 {
        assert_eq!(lines[y].len(), 4);
        assert!(lines[y].chars().all(|c| c == 'O' || c == ' '));
    }
}

#[test]
fn sparse_last_box_row_and_column_stay_dead() {
    let mut b = Board::uniform(4, 4, State::Alive);
    let text = b.render();
    let lines: Vec<&str> = text.split('\n').collect();
    assert_eq!(lines[3], "    ");
    for y in 0..4 {
        assert_eq!(&lines[y][3..4], " ");
    }
    b.tick();
    let after: Vec<String> = b.render().split('\n').map(|s| s.to_string()).collect();
    assert_eq!(after[3], "    ");
    for y in 0..4 {
        assert_eq!(&after[y][3..4], " ");
    }
}
