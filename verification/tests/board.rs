use xonix::board::{Board, BoardError, Field};
use xonix::geometry::Position;

/// A fresh board has a two-cell land border and an all-sea interior.
#[test]
fn fresh_board_has_land_border_and_sea_interior() {
    let b = Board::new(10, 7);
    for y in 0..7usize {
        for x in 0..10usize {
            let border = x < 2 || x >= 8 || y < 2 || y >= 5;
            let expected = if border { Field::Land } else { Field::Sea };
            assert_eq!(b.get(x, y), expected);
        }
    }
    assert_eq!(b.remaining_sea, 6 * 3);
    assert_eq!(b.fill_ratio_percent(), 0);
}

#[test]
fn within_bounds_matches_the_grid() {
    let b = Board::new(10, 7);
    assert!(b.within_bounds(&Position { x: 0, y: 0 }));
    assert!(b.within_bounds(&Position { x: 9, y: 6 }));
    assert!(!b.within_bounds(&Position { x: 10, y: 0 }));
    assert!(!b.within_bounds(&Position { x: 0, y: 7 }));
    assert!(!b.within_bounds(&Position { x: -1, y: 3 }));
}

/// With no sources to defend it, the whole sea is captured.
#[test]
fn fill_with_no_sources_captures_everything() {
    let mut b = Board::new(10, 7);
    let captured = b.fill(&Vec::new());
    assert_eq!(captured, 6 * 3);
    for y in 0..7usize {
        for x in 0..10usize {
            assert_eq!(b.get(x, y), Field::Land);
        }
    }
    assert_eq!(b.remaining_sea, 0);
    assert_eq!(b.fill_ratio_percent(), 100);
}

/// A source inside the one connected sea region keeps all of it.
#[test]
fn fill_with_a_source_in_open_sea_captures_nothing() {
    let mut b = Board::new(10, 7);
    let sources = vec![Position { x: 3, y: 3 }];
    let captured = b.fill(&sources);
    assert_eq!(captured, 0);
    assert_eq!(b.get(3, 3), Field::Sea);
    assert_eq!(b.remaining_sea, 6 * 3);
}

/// A sand wall splits the sea; the half without a source becomes land, the
/// half with one stays sea, and the wall itself is claimed.  Every
/// surviving sea cell stays 4-connected to the source.
#[test]
fn fill_captures_the_sourceless_side_of_a_trail() {
    let mut b = Board::new(10, 7);
    // vertical trail at x = 4 across the interior rows y = 2..5
    for y in 2..5usize {
        b.set(4, y, Field::Sand);
    }
    let sources = vec![Position { x: 2, y: 2 }];
    let captured = b.fill(&sources);
    // left of the wall: x = 2, 3 stay sea
    for y in 2..5usize {
        for x in 2..4usize {
            assert_eq!(b.get(x, y), Field::Sea);
        }
        // the wall and the right side are captured
        for x in 4..8usize {
            assert_eq!(b.get(x, y), Field::Land);
        }
    }
    // wall (3 cells) plus right region (3 columns x 3 rows)
    assert_eq!(captured, 3 + 9);
    assert_eq!(b.remaining_sea, 6);
}

/// Running the capture again with the same sources is a no-op.
#[test]
fn fill_is_idempotent_for_a_stable_source_set() {
    let mut b = Board::new(10, 7);
    for y in 2..5usize {
        b.set(4, y, Field::Sand);
    }
    let sources = vec![Position { x: 2, y: 2 }];
    b.fill(&sources);
    let snapshot: Vec<Vec<Field>> = b.rows().clone();
    let captured_again = b.fill(&sources);
    assert_eq!(captured_again, 0);
    assert_eq!(b.rows().clone(), snapshot);
    assert_eq!(b.remaining_sea, 6);
}

/// The fill ratio never goes down across successive captures.
#[test]
fn fill_ratio_is_non_decreasing_across_captures() {
    let mut b = Board::new(10, 7);
    let sources = vec![Position { x: 2, y: 2 }];
    let p0 = b.fill_ratio_percent();
    for y in 2..5usize {
        b.set(4, y, Field::Sand);
    }
    b.fill(&sources);
    let p1 = b.fill_ratio_percent();
    assert!(p1 >= p0);
    for y in 2..5usize {
        b.set(3, y, Field::Sand);
    }
    b.fill(&sources);
    let p2 = b.fill_ratio_percent();
    assert!(p2 >= p1);
}

/// The percentage is computed exactly: 12 of 18 interior cells captured.
#[test]
fn fill_ratio_percent_is_exact() {
    let mut b = Board::new(10, 7);
    for y in 2..5usize {
        b.set(4, y, Field::Sand);
    }
    b.fill(&vec![Position { x: 2, y: 2 }]);
    // 6 sea cells remain of 18 interior cells: 12/18 = 66%
    assert_eq!(b.remaining_sea, 6);
    assert_eq!(b.fill_ratio_percent(), 66);
}

/// `clean` reverts the unfinished trail and nothing else.
#[test]
fn clean_reverts_sand_to_sea() {
    let mut b = Board::new(10, 7);
    b.set(3, 3, Field::Sand);
    b.set(4, 3, Field::Sand);
    b.clean();
    assert_eq!(b.get(3, 3), Field::Sea);
    assert_eq!(b.get(4, 3), Field::Sea);
    assert_eq!(b.get(0, 0), Field::Land);
    assert_eq!(b.get(5, 3), Field::Sea);
}

/// The random cell query returns a matching cell when it finds one.
#[test]
fn random_position_of_type_finds_matching_cells() {
    let b = Board::new(10, 7);
    for _ in 0..20 {
        let p = b.random_position_of_type(Field::Sea).unwrap();
        assert_eq!(b.get(p.x as usize, p.y as usize), Field::Sea);
        let q = b.random_position_of_type(Field::Land).unwrap();
        assert_eq!(b.get(q.x as usize, q.y as usize), Field::Land);
    }
}

/// When no cell of the requested state exists the query reports the
/// explicit error instead of looping forever.
#[test]
fn random_position_of_type_fails_without_matching_cells() {
    let mut b = Board::new(10, 7);
    b.fill(&Vec::new());  // capture everything: no sea is left
    assert_eq!(b.random_position_of_type(Field::Sea), Err(BoardError::NoMatchingCell));
    assert_eq!(b.random_position_of_type(Field::Sand), Err(BoardError::NoMatchingCell));
    assert_eq!(b.random_position_of_type(Field::DeepSea), Err(BoardError::NoMatchingCell));
}

/// Positions drawn at random always land on the grid.
#[test]
fn random_positions_stay_on_the_grid() {
    let b = Board::new(5, 5);
    for _ in 0..200 {
        let p = b.random_position();
        assert!(b.within_bounds(&p));
    }
}
