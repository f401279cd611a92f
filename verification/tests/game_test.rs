use labyrinth::controllers::{next_state, pick, MoveOutcome, TurnState};
use labyrinth::game::Game;
use labyrinth::map::Board;
use labyrinth::project_errors::GameError;
use labyrinth::{directions, Position, BATTLE_SCORE, PORTAL_SCORE};

fn names(list: &[&str]) -> Vec<String> {
    list.iter().map(|name| name.to_string()).collect()
}

fn pattern_game(list: &[&str]) -> Game {
    let pattern: &[&[i8]] = &[&[0, 1, 1, 0], &[0, 0, 1, 0], &[1, 0, 0, 0], &[1, 1, 0, 0]];
    Game::with_map(names(list), Board::from_matrix(4, pattern))
}

fn count(text: &str, glyph: char) -> usize {
    text.chars().filter(|c| *c == glyph).count()
}

#[test]
fn new_match_has_a_connected_board_and_nobody_on_it() {
    let game = Game::new(names(&["ann", "bob", "cid"]), 3, 4);
    assert_eq!(game.num_of_players, 4);
    assert_eq!(game.map_size, 4);
    assert_eq!(game.seats_taken(), 4);
    assert_eq!(game.board_side(), 4);
    assert_eq!(game.get_player_name(0), "");
    assert_eq!(game.get_player_name(1), "ann");
    assert_eq!(game.get_player_name(3), "cid");
    for code in 0..4 {
        assert!(!game.in_game(code));
        assert_eq!(game.score(code), 0);
    }
    let text = game.display_map();
    assert_eq!(text.len(), 4 * 9);
    assert!(text.chars().all(|c| c == '.' || c == '#' || c == ' ' || c == '\n'));
}

#[test]
fn match_as_text() {
    let game = pattern_game(&["ann", "bob"]);
    assert_eq!(game.display_map(), ". # # . \n. . # . \n# . . . \n# # . . \n");
    assert_eq!(
        game.display(),
        "Player 0\nann\nscore: 0\n\nPlayer 1\nbob\nscore: 0\n\n. # # . \n. . # . \n# . . . \n# # . . \n\n"
    );
}

#[test]
fn spawning_through_the_match() {
    let mut game = pattern_game(&["ann", "bob"]);
    assert!(!game.spawn_player(1, Position(0, 1)));
    assert!(!game.in_game(1));
    assert!(game.spawn_player(1, Position(0, 0)));
    assert!(game.in_game(1));
    assert!(!game.spawn_player(2, Position(0, 0)));
    assert!(!game.spawn_portal(Position(0, 0)));
    assert!(!game.spawn_portal(Position(3, 0)));
    assert!(game.spawn_portal(Position(3, 3)));
    assert_eq!(game.display_map(), "1 # # . \n. . # . \n# . . . \n# # . 0 \n");
}

#[test]
fn battle_takes_the_loser_off_the_board() {
    let mut game = pattern_game(&["ann", "bob"]);
    assert!(game.spawn_player(1, Position(0, 0)));
    assert!(game.spawn_player(2, Position(1, 0)));
    assert_eq!(game.make_move(2, directions::UP), Err(GameError::AnotherPlayer));
    assert_eq!(game.display_map(), "1 # # . \n2 . # . \n# . . . \n# # . . \n");
    let loser = game.battle(2, directions::UP);
    assert_eq!(loser, 1);
    assert_eq!(game.get_player_name(loser), "ann");
    assert!(!game.in_game(1));
    assert!(game.in_game(2));
    assert_eq!(game.score(2), BATTLE_SCORE);
    assert_eq!(game.score(2), 15);
    assert_eq!(game.score(1), 0);
    assert_eq!(game.display_map(), "2 # # . \n. . # . \n# . . . \n# # . . \n");
}

#[test]
fn driving_out_wins_no_points() {
    let mut game = pattern_game(&["ann", "bob"]);
    assert!(game.spawn_player(1, Position(2, 2)));
    assert!(game.spawn_player(2, Position(2, 3)));
    assert_eq!(game.defeat(1, directions::RIGHT), 2);
    assert!(!game.in_game(2));
    assert!(game.in_game(1));
    assert_eq!(game.score(1), 0);
    assert_eq!(game.score(2), 0);
    assert_eq!(game.display_map(), ". # # . \n. . # . \n# . . 1 \n# # . . \n");
}

#[test]
fn moves_through_the_match() {
    let mut game = pattern_game(&["ann", "bob"]);
    assert!(game.spawn_player(1, Position(1, 1)));
    assert!(game.spawn_portal(Position(2, 1)));
    assert_eq!(game.make_move(1, directions::LEFT), Ok(true));
    assert_eq!(game.make_move(1, directions::LEFT), Err(GameError::Outside));
    assert_eq!(game.make_move(1, "sideways"), Err(GameError::InvalidDirection));
    assert_eq!(game.display_map(), ". # # . \n1 . # . \n# 0 . . \n# # . . \n");
    assert_eq!(game.make_move(1, directions::RIGHT), Ok(true));
    assert_eq!(game.make_move(1, directions::RIGHT), Err(GameError::InvalidField));
    assert_eq!(game.make_move(1, directions::UP), Err(GameError::InvalidField));
    assert_eq!(game.make_move(1, directions::DOWN), Err(GameError::Portal));
    assert_eq!(game.display_map(), ". # # . \n. 1 # . \n# 0 . . \n# # . . \n");
    game.portal(1);
    assert_eq!(game.score(1), PORTAL_SCORE);
    assert_eq!(game.score(1), 50);
    assert_eq!(game.display_map(), ". # # . \n. 1 # . \n# 0 . . \n# # . . \n");
}

#[test]
fn settled_moves() {
    let mut game = pattern_game(&["ann", "bob", "cid"]);
    assert!(game.spawn_player(1, Position(1, 1)));
    assert!(game.spawn_player(2, Position(1, 0)));
    assert!(game.spawn_player(3, Position(2, 2)));
    assert!(game.spawn_portal(Position(2, 1)));
    assert_eq!(game.resolve_move(1, "north"), MoveOutcome::Rejected(GameError::InvalidDirection));
    assert_eq!(game.resolve_move(1, directions::UP), MoveOutcome::Rejected(GameError::InvalidField));
    assert_eq!(game.resolve_move(2, directions::LEFT), MoveOutcome::Rejected(GameError::Outside));
    assert_eq!(game.display_map(), ". # # . \n2 1 # . \n# 0 3 . \n# # . . \n");
    assert_eq!(game.resolve_move(3, directions::RIGHT), MoveOutcome::Moved);
    assert_eq!(game.resolve_move(3, directions::LEFT), MoveOutcome::Moved);
    assert_eq!(game.resolve_move(1, directions::LEFT), MoveOutcome::Battled(2));
    assert_eq!(game.display_map(), ". # # . \n1 . # . \n# 0 3 . \n# # . . \n");
    assert!(!game.in_game(2));
    assert_eq!(game.score(1), 15);
    assert_eq!(game.resolve_move(3, directions::LEFT), MoveOutcome::PortalFound);
    assert_eq!(game.score(3), 50);
    assert_eq!(game.display_map(), ". # # . \n1 . # . \n# 0 3 . \n# # . . \n");
}

#[test]
fn turn_states() {
    assert_eq!(next_state(3, MoveOutcome::Moved), TurnState::AwaitingInput(2));
    assert_eq!(next_state(1, MoveOutcome::Moved), TurnState::TurnOver);
    assert_eq!(next_state(3, MoveOutcome::Battled(2)), TurnState::TurnOver);
    assert_eq!(next_state(3, MoveOutcome::PortalFound), TurnState::GameOver);
    assert_eq!(
        next_state(3, MoveOutcome::Rejected(GameError::Outside)),
        TurnState::AwaitingInput(3)
    );
    assert_eq!(
        next_state(1, MoveOutcome::Rejected(GameError::InvalidField)),
        TurnState::AwaitingInput(1)
    );
}

#[test]
fn a_turn_step_by_step() {
    let mut game = pattern_game(&["ann", "bob"]);
    assert!(game.spawn_player(1, Position(0, 0)));
    assert!(game.spawn_player(2, Position(2, 1)));
    assert_eq!(
        game.play_turn(1, directions::RIGHT, 3),
        (MoveOutcome::Rejected(GameError::InvalidField), TurnState::AwaitingInput(3))
    );
    assert_eq!(
        game.play_turn(1, directions::DOWN, 3),
        (MoveOutcome::Moved, TurnState::AwaitingInput(2))
    );
    assert_eq!(
        game.play_turn(1, directions::RIGHT, 2),
        (MoveOutcome::Moved, TurnState::AwaitingInput(1))
    );
    assert_eq!(
        game.play_turn(1, directions::DOWN, 1),
        (MoveOutcome::Battled(2), TurnState::TurnOver)
    );
    assert_eq!(game.display_map(), ". # # . \n. . # . \n# 1 . . \n# # . . \n");
}

#[test]
fn whose_turn_is_next() {
    let mut game = pattern_game(&["ann", "bob", "cid"]);
    assert_eq!(game.next_player(0), None);
    assert!(game.spawn_player(1, Position(0, 0)));
    assert!(game.spawn_player(3, Position(3, 3)));
    assert_eq!(game.next_player(0), Some(1));
    assert_eq!(game.next_player(1), Some(3));
    assert_eq!(game.next_player(2), Some(3));
    assert_eq!(game.next_player(3), None);
    assert_eq!(game.next_player(100), None);
    assert_eq!(game.next_player(usize::MAX), None);
}

#[test]
fn picking_from_a_list() {
    let cells = vec![Position(0, 0), Position(0, 3), Position(1, 0)];
    assert_eq!(pick(&cells, 0), Some(Position(0, 0)));
    assert_eq!(pick(&cells, 4), Some(Position(0, 3)));
    assert_eq!(pick(&cells, 5), Some(Position(1, 0)));
    assert_eq!(pick(&Vec::new(), 5), None);
}

#[test]
fn placing_by_a_given_number() {
    let mut game = pattern_game(&["ann", "bob"]);
    assert!(game.place_player(1, 13));
    assert_eq!(game.display_map(), ". # # . \n. 1 # . \n# . . . \n# # . . \n");
    assert!(game.place_player(2, 0));
    assert_eq!(game.display_map(), "2 # # . \n. 1 # . \n# . . . \n# # . . \n");
    assert!(game.place_portal(7));
    assert_eq!(game.display_map(), "2 # # . \n. 1 # . \n# . . . \n# # . 0 \n");
}

#[test]
fn start_places_everybody_and_the_portal() {
    for _ in 0..20 {
        let mut game = pattern_game(&["ann", "bob", "cid", "dee"]);
        assert!(game.start());
        let text = game.display_map();
        for glyph in ['1', '2', '3', '4', '0'] {
            assert_eq!(count(&text, glyph), 1);
        }
        assert_eq!(count(&text, '.'), 5);
        assert_eq!(count(&text, '#'), 6);
        for code in 1..5 {
            assert!(game.in_game(code));
            assert_eq!(game.score(code), 0);
        }
        assert!(!game.in_game(0));
    }
}

#[test]
fn start_on_a_drawn_board() {
    let mut game = Game::new(names(&["ann", "bob"]), 2, 5);
    let free = game.free_cells().len();
    let done = game.start();
    assert_eq!(done, free >= 3);
    if done {
        let text = game.display_map();
        assert_eq!(count(&text, '1'), 1);
        assert_eq!(count(&text, '2'), 1);
        assert_eq!(count(&text, '0'), 1);
        assert_eq!(count(&text, '.'), free - 3);
    }
}

#[test]
fn start_needs_room_for_all() {
    let tight: &[&[i8]] = &[&[0, 1], &[0, 1]];
    let mut game = Game::with_map(names(&["ann", "bob"]), Board::from_matrix(2, tight));
    assert!(!game.start());
    assert_eq!(game.display_map(), ". # \n. # \n");
    assert!(!game.in_game(1));
    assert!(!game.in_game(2));

    let fitting: &[&[i8]] = &[&[0, 1], &[0, 0]];
    let mut game = Game::with_map(names(&["ann", "bob"]), Board::from_matrix(2, fitting));
    assert!(game.start());
    let text = game.display_map();
    assert_eq!(count(&text, '.'), 0);
    assert_eq!(count(&text, '#'), 1);
}

#[test]
fn final_list() {
    let mut game = pattern_game(&["ann", "bob", "cid"]);
    assert!(game.spawn_player(1, Position(0, 0)));
    assert!(game.spawn_player(2, Position(1, 0)));
    assert!(game.spawn_player(3, Position(3, 3)));
    assert_eq!(game.resolve_move(2, directions::UP), MoveOutcome::Battled(1));
    game.portal(3);
    assert_eq!(
        game.finish(),
        "--- 1 ---\ncid\nscore: 50\n\n--- 2 ---\nbob\nscore: 15\n\n--- 3 ---\nann\nscore: 0\n\n"
    );
}

#[test]
fn final_list_of_equals_follows_the_roster() {
    let game = pattern_game(&["ann", "bob", "cid"]);
    assert_eq!(
        game.finish(),
        "--- 1 ---\nann\nscore: 0\n\n--- 2 ---\nbob\nscore: 0\n\n--- 3 ---\ncid\nscore: 0\n\n"
    );
    let game = pattern_game(&["ann", "bob"]);
    let ranking = game.ranking();
    assert_eq!(ranking.len(), 2);
    assert_eq!(ranking[0].name, "ann");
    assert_eq!(ranking[1].name, "bob");
}
