use labyrinth::map::{glyph_for, Board};
use labyrinth::player::{change_coordinates, Player};
use labyrinth::project_errors::GameError;
use labyrinth::{directions, Position};

fn pattern_board() -> Board {
    let pattern: &[&[i8]] = &[&[0, 1, 1, 0], &[0, 0, 1, 0], &[1, 0, 0, 0], &[1, 1, 0, 0]];
    Board::from_matrix(4, pattern)
}

fn open_board() -> Board {
    let pattern: &[&[i8]] = &[&[0, 0, 0], &[0, 0, 0], &[0, 0, 0]];
    Board::from_matrix(3, pattern)
}

fn rows(board: &Board) -> Vec<String> {
    board.display().lines().map(|line| line.to_string()).collect()
}

#[test]
fn generated_boards_are_connected() {
    for size in 1..6 {
        for _ in 0..5 {
            let board = Board::new(size);
            assert_eq!(board.size, size);
            assert!(board.is_connected());
            let text = board.display();
            assert_eq!(text.len(), size * (2 * size + 1));
            assert!(text.chars().all(|c| c == '.' || c == '#' || c == ' ' || c == '\n'));
            assert!(text.contains('.'));
        }
    }
}

#[test]
fn boards_for_every_side() {
    assert!(Board::try_new(0).is_none());
    assert!(Board::try_new(46341).is_none());
    assert!(Board::try_new(usize::MAX).is_none());
    for size in 1..5 {
        let board = Board::try_new(size).unwrap();
        assert_eq!(board.size, size);
        assert!(board.is_connected());
    }
}

#[test]
fn board_of_one_cell_is_open() {
    assert_eq!(Board::new(1).display(), ". \n");
}

#[test]
fn connectedness_of_patterns() {
    assert!(pattern_board().is_connected());
    assert!(open_board().is_connected());
    let split: &[&[i8]] = &[&[0, 1], &[1, 0]];
    assert!(!Board::from_matrix(2, split).is_connected());
    let walls: &[&[i8]] = &[&[1, 1], &[1, 1]];
    assert!(!Board::from_matrix(2, walls).is_connected());
    let gate: &[&[i8]] = &[&[0, 2], &[1, 1]];
    assert!(Board::from_matrix(2, gate).is_connected());
    let ring: &[&[i8]] = &[&[0, 0, 0], &[0, 1, 0], &[0, 0, 0]];
    assert!(Board::from_matrix(3, ring).is_connected());
    let far: &[&[i8]] = &[&[0, 1, 0], &[1, 1, 1], &[0, 1, 0]];
    assert!(!Board::from_matrix(3, far).is_connected());
}

#[test]
fn checking_leaves_the_board_alone() {
    let board = pattern_board();
    let before = board.display();
    assert!(board.is_connected());
    assert_eq!(board.display(), before);
}

#[test]
fn drawn_glyphs() {
    assert_eq!(glyph_for(0), '.');
    assert_eq!(glyph_for(1), '#');
    assert_eq!(glyph_for(-1), '#');
    assert_eq!(glyph_for(-2), '.');
    assert_eq!(glyph_for(127), '#');
    assert_eq!(glyph_for(-128), '.');
}

#[test]
fn pattern_with_portal_and_short_row() {
    let pattern: &[&[i8]] = &[&[0, 2], &[1]];
    let board = Board::from_matrix(2, pattern);
    assert_eq!(board.display(), ". 0 \n# \0 \n");
}

#[test]
fn free_cells_in_reading_order() {
    let cells = pattern_board().free_cells();
    let expected = vec![
        Position(0, 0),
        Position(0, 3),
        Position(1, 0),
        Position(1, 1),
        Position(1, 3),
        Position(2, 1),
        Position(2, 2),
        Position(2, 3),
        Position(3, 2),
        Position(3, 3),
    ];
    assert_eq!(cells, expected);
}

#[test]
fn spawn_on_taken_cell_changes_nothing() {
    let mut board = pattern_board();
    let before = board.display();
    let mut player = Player::with_code("ann".to_string(), 1);
    assert_eq!(board.spawn_player(&mut player, Position(0, 1)), Err(GameError::InvalidCoordinates));
    assert_eq!(board.display(), before);
    assert_eq!(player.coordinates, None);
    assert_eq!(board.spawn_portal(Position(0, 1)), Err(GameError::InvalidCoordinates));
    assert_eq!(board.display(), before);

    assert_eq!(board.spawn_portal(Position(0, 0)), Ok(()));
    let with_portal = board.display();
    assert_eq!(board.spawn_player(&mut player, Position(0, 0)), Err(GameError::InvalidCoordinates));
    assert_eq!(board.spawn_portal(Position(0, 0)), Err(GameError::InvalidCoordinates));
    assert_eq!(board.display(), with_portal);

    assert_eq!(board.spawn_player(&mut player, Position(1, 0)), Ok(()));
    let mut other = Player::with_code("bob".to_string(), 2);
    assert_eq!(board.spawn_player(&mut other, Position(1, 0)), Err(GameError::InvalidCoordinates));
    assert_eq!(other.coordinates, None);
}

#[test]
fn spawned_player_shows_in_first_row() {
    let mut board = pattern_board();
    let mut player = Player::with_code("ann".to_string(), 1);
    board.spawn_player(&mut player, Position(0, 0)).unwrap();
    assert_eq!(rows(&board)[0], "1 # # . ");
    assert_eq!(player.coordinates, Some(Position(0, 0)));
}

#[test]
fn move_down_frees_the_first_row() {
    let mut board = pattern_board();
    let mut player = Player::with_code("ann".to_string(), 1);
    board.spawn_player(&mut player, Position(0, 0)).unwrap();
    assert_eq!(board.move_player(&mut player, directions::DOWN), Ok(()));
    assert_eq!(rows(&board)[0], ". # # . ");
    assert_eq!(rows(&board)[1], "1 . # . ");
    assert_eq!(player.coordinates, Some(Position(1, 0)));
}

#[test]
fn move_round_trip_in_every_direction() {
    let steps = [
        (directions::DOWN, Position(2, 1)),
        (directions::UP, Position(0, 1)),
        (directions::LEFT, Position(1, 0)),
        (directions::RIGHT, Position(1, 2)),
    ];
    for (direction, target) in steps {
        let mut board = open_board();
        let mut player = Player::with_code("ann".to_string(), 3);
        board.spawn_player(&mut player, Position(1, 1)).unwrap();
        assert_eq!(board.target(Position(1, 1), direction), Ok(target));
        assert_eq!(board.move_player(&mut player, direction), Ok(()));
        assert_eq!(board.get_field(Position(1, 1)), '.');
        assert_eq!(board.get_field(target), '3');
        assert_eq!(player.coordinates, Some(target));
    }
}

#[test]
fn every_refusal_of_a_move() {
    let mut board = pattern_board();
    let mut player = Player::with_code("ann".to_string(), 1);
    board.spawn_player(&mut player, Position(1, 1)).unwrap();
    board.spawn_portal(Position(2, 1)).unwrap();
    let mut other = Player::with_code("bob".to_string(), 2);
    board.spawn_player(&mut other, Position(1, 0)).unwrap();
    let before = board.display();

    assert_eq!(board.move_player(&mut player, "x"), Err(GameError::InvalidDirection));
    assert_eq!(board.move_player(&mut player, ""), Err(GameError::InvalidDirection));
    assert_eq!(board.move_player(&mut player, "ww"), Err(GameError::InvalidDirection));
    assert_eq!(board.move_player(&mut player, "u"), Err(GameError::InvalidDirection));
    assert_eq!(board.move_player(&mut player, directions::UP), Err(GameError::InvalidField));
    assert_eq!(board.move_player(&mut player, directions::RIGHT), Err(GameError::InvalidField));
    assert_eq!(board.move_player(&mut player, directions::DOWN), Err(GameError::Portal));
    assert_eq!(board.move_player(&mut player, directions::LEFT), Err(GameError::AnotherPlayer));
    assert_eq!(board.move_player(&mut other, directions::LEFT), Err(GameError::Outside));
    assert_eq!(board.display(), before);
    assert_eq!(player.coordinates, Some(Position(1, 1)));
    assert_eq!(other.coordinates, Some(Position(1, 0)));
}

#[test]
fn bounds_come_before_the_cell() {
    let mut board = pattern_board();
    let mut player = Player::with_code("ann".to_string(), 1);
    board.spawn_player(&mut player, Position(3, 3)).unwrap();
    assert_eq!(board.move_player(&mut player, directions::DOWN), Err(GameError::Outside));
    assert_eq!(board.move_player(&mut player, directions::RIGHT), Err(GameError::Outside));
    assert_eq!(board.target(Position(7, 7), directions::UP), Err(GameError::Outside));
}

#[test]
fn steps_from_the_corner() {
    assert_eq!(change_coordinates(Position(0, 0), directions::UP), Err(GameError::Outside));
    assert_eq!(change_coordinates(Position(0, 0), directions::LEFT), Err(GameError::Outside));
    assert_eq!(change_coordinates(Position(0, 9), directions::UP), Err(GameError::Outside));
    assert_eq!(change_coordinates(Position(9, 0), directions::LEFT), Err(GameError::Outside));
    assert_eq!(change_coordinates(Position(0, 0), directions::DOWN), Ok(Position(1, 0)));
    assert_eq!(change_coordinates(Position(0, 0), directions::RIGHT), Ok(Position(0, 1)));
    assert_eq!(
        change_coordinates(Position(usize::MAX, 0), directions::DOWN),
        Err(GameError::Outside)
    );
    assert_eq!(
        change_coordinates(Position(0, usize::MAX), directions::RIGHT),
        Err(GameError::Outside)
    );
}

#[test]
fn unknown_direction_anywhere() {
    for position in [Position(0, 0), Position(3, 4), Position(usize::MAX, usize::MAX)] {
        for token in ["unrecognized", "", "W", "u", "sd", " "] {
            assert_eq!(change_coordinates(position, token), Err(GameError::InvalidDirection));
        }
    }
}

#[test]
fn kill_clears_the_cell() {
    let mut board = pattern_board();
    let mut player = Player::with_code("ann".to_string(), 4);
    board.spawn_player(&mut player, Position(2, 2)).unwrap();
    assert_eq!(board.get_field(Position(2, 2)), '4');
    board.kill_player(&mut player);
    assert_eq!(board.get_field(Position(2, 2)), '.');
    assert_eq!(player.coordinates, None);
    assert!(!player.is_alive());
    assert_eq!(board.display(), pattern_board().display());
}

#[test]
fn display_twice_is_the_same() {
    let mut board = pattern_board();
    assert_eq!(board.display(), board.display());
    let mut player = Player::with_code("ann".to_string(), 1);
    board.spawn_player(&mut player, Position(0, 0)).unwrap();
    let first = board.display();
    let second = board.display();
    assert_eq!(first, second);
    assert_eq!(first, "1 # # . \n. . # . \n# . . . \n# # . . \n");
}

#[test]
fn messages_of_the_outcomes() {
    assert_eq!(GameError::InvalidCoordinates.description(), "Invalid coordinates!\n");
    assert_eq!(
        GameError::InvalidDirection.description(),
        "Invalid direction! Allowed: up, down, left, right.\n"
    );
    assert_eq!(GameError::Outside.description(), "Coordinates outside the field!\n");
    assert_eq!(GameError::InvalidField.description(), "Invalid field! You can't reach it.\n");
    assert_eq!(GameError::AnotherPlayer.description(), "Battle!");
    assert_eq!(GameError::Portal.description(), "Portal has been found!");
}
