use life::grid::{Board, Cell};

fn board_from_pattern(pattern: &[&str]) -> Board {
    let length = pattern.len() as u8;
    let width = if pattern.is_empty() { 0 } else { pattern[0].len() as u8 };
    let mut b = Board::uniform(length, width, Cell::Dead);
    for (y, row) in pattern.iter().enumerate() {
        for (x, ch) in row.chars().enumerate() {
            if ch == 'O' {
                b.set(x, y, Cell::Alive);
            }
        }
    }
    b
}

#[test]
fn tick_preserves_dimensions() {
    let mut b = Board::uniform(4, 7, Cell::Dead);
    b.tick();
    let text = b.render();
    let lines: Vec<&str> = text.split('\n').collect();
    assert_eq!(lines.len(), 5);
    assert_eq!(lines[4], "");
    for y in 0..4 {
        assert_eq!(lines[y].len(), 7);
    }
}

#[test]
fn birth_on_three_neighbors() {
    // (2, 2) is dead with exactly three living neighbors and must be born.
    let mut b = board_from_pattern(&[
        "     ", //
        " OO  ", //
        " O   ", //
        "     ", //
        "     ",
    ]);
    b.tick();
    assert!(matches!(b.get(2, 2), Cell::Alive));
}

#[test]
fn survival_on_three_neighbors() {
    // (2, 2) is alive with exactly three living neighbors and must survive.
    let mut b = board_from_pattern(&[
        "     ", //
        " OO  ", //
        " OO  ", //
        "     ", //
        "     ",
    ]);
    b.tick();
    assert!(matches!(b.get(2, 2), Cell::Alive));
}

#[test]
fn death_by_isolation() {
    // A lone living cell has no neighbors and dies.
    let mut b = board_from_pattern(&[
        "     ", //
        "     ", //
        "  O  ", //
        "     ", //
        "     ",
    ]);
    b.tick();
    assert!(matches!(b.get(2, 2), Cell::Dead));
}

#[test]
fn death_by_overcrowding() {
    // (2, 2) is alive with four living neighbors and dies.
    let mut b = board_from_pattern(&[
        "     ", //
        " OOO ", //
        " OO  ", //
        "     ", //
        "     ",
    ]);
    b.tick();
    assert!(matches!(b.get(2, 2), Cell::Dead));
}

#[test]
fn tick_is_deterministic() {
    let pattern = [
        "O O  ", //
        " OO  ", //
        " O O ", //
        "  OO ", //
        "O   O",
    ];
    let mut a = board_from_pattern(&pattern);
    let mut b = board_from_pattern(&pattern);
    a.tick();
    b.tick();
    assert_eq!(a.render(), b.render());
}

#[test]
fn corner_contributes_without_wraparound() {
    // A living cell at (0, 0) is counted by its three on-board neighbors
    // and by no position near the opposite edges.
    let b = board_from_pattern(&[
        "O    ", //
        "     ", //
        "     ", //
        "     ", //
        "     ",
    ]);
    assert_eq!(b.count_neighbors(1, 0), 1);
    assert_eq!(b.count_neighbors(0, 1), 1);
    assert_eq!(b.count_neighbors(1, 1), 1);
    assert_eq!(b.count_neighbors(4, 0), 0);
    assert_eq!(b.count_neighbors(0, 4), 0);
    assert_eq!(b.count_neighbors(4, 4), 0);
    assert_eq!(b.count_neighbors(3, 4), 0);
    assert_eq!(b.count_neighbors(4, 3), 0);
}

#[test]
fn full_neighborhood_counts_eight() {
    let b = board_from_pattern(&[
        "OOO", //
        "OOO", //
        "OOO",
    ]);
    assert_eq!(b.count_neighbors(1, 1), 8);
    assert_eq!(b.count_neighbors(0, 0), 3);
    assert_eq!(b.count_neighbors(1, 0), 5);
}

#[test]
fn block_is_a_still_life() {
    let pattern = [
        "    ", //
        " OO ", //
        " OO ", //
        "    ",
    ];
    let mut b = board_from_pattern(&pattern);
    let before = b.render();
    b.tick();
    assert_eq!(b.render(), before);
    assert_eq!(b.render(), "    \n OO \n OO \n    \n");
}

#[test]
fn blinker_oscillates() {
    let mut b = board_from_pattern(&[
        "     ", //
        "     ", //
        " OOO ", //
        "     ", //
        "     ",
    ]);
    b.tick();
    assert_eq!(b.render(), "     \n  O  \n  O  \n  O  \n     \n");
    b.tick();
    assert_eq!(b.render(), "     \n     \n OOO \n     \n     \n");
}

#[test]
fn render_all_dead() {
    let b = Board::uniform(3, 2, Cell::Dead);
    assert_eq!(b.render(), "  \n  \n  \n");
}

#[test]
fn render_all_alive() {
    let b = Board::uniform(3, 2, Cell::Alive);
    assert_eq!(b.render(), "OO\nOO\nOO\n");
}

#[test]
fn set_then_get() {
    let mut b = Board::uniform(2, 2, Cell::Dead);
    assert!(matches!(b.get(1, 0), Cell::Dead));
    b.set(1, 0, Cell::Alive);
    assert!(matches!(b.get(1, 0), Cell::Alive));
    assert!(matches!(b.get(0, 0), Cell::Dead));
    assert!(matches!(b.get(0, 1), Cell::Dead));
    assert!(matches!(b.get(1, 1), Cell::Dead));
}

#[test]
fn new_board_has_requested_dimensions() {
    let b = Board::new(3, 4);
    let text = b.render();
    let lines: Vec<&str> = text.split('\n').collect();
    assert_eq!(lines.len(), 4);
    assert_eq!(lines[3], "");
    for y in 0..3 {
        assert_eq!(lines[y].len(), 4);
        assert!(lines[y].chars().all(|c| c == 'O' || c == ' '));
    }
}
