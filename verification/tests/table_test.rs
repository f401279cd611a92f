use labyrinth::player::Player;
use labyrinth::utills::{add_player, dice_value, headcount, roll_a_dice, tint, Headcount, Tint};

fn named(name: &str, points: u32) -> Player {
    let mut player = Player::new(name.to_string());
    player.win_points(points);
    player
}

#[test]
fn names_are_entered_once() {
    let mut names: Vec<String> = Vec::new();
    assert!(add_player(&mut names, "ann".to_string()));
    assert!(add_player(&mut names, "bob".to_string()));
    assert!(!add_player(&mut names, "ann".to_string()));
    assert!(add_player(&mut names, "Ann".to_string()));
    assert!(add_player(&mut names, "".to_string()));
    assert!(!add_player(&mut names, "".to_string()));
    assert_eq!(names, vec!["ann".to_string(), "bob".to_string(), "Ann".to_string(), "".to_string()]);
}

#[test]
fn headcount_limits() {
    assert_eq!(headcount(0), Headcount::TooFew);
    assert_eq!(headcount(1), Headcount::TooFew);
    assert_eq!(headcount(2), Headcount::Accepted);
    assert_eq!(headcount(4), Headcount::Accepted);
    assert_eq!(headcount(5), Headcount::TooMany);
    assert_eq!(headcount(usize::MAX), Headcount::TooMany);
}

#[test]
fn dice_values() {
    assert_eq!(dice_value(0), 2);
    assert_eq!(dice_value(4), 6);
    assert_eq!(dice_value(5), 2);
    assert_eq!(dice_value(7), 4);
    assert_eq!(dice_value(usize::MAX), 2 + usize::MAX % 5);
    for _ in 0..200 {
        let moves = roll_a_dice();
        assert!(2 <= moves && moves <= 6);
    }
}

#[test]
fn tints_of_glyphs() {
    assert_eq!(tint('.', 1), Tint::Free);
    assert_eq!(tint('0', 1), Tint::Gate);
    assert_eq!(tint('1', 1), Tint::Own);
    assert_eq!(tint('2', 1), Tint::Foe);
    assert_eq!(tint('4', 4), Tint::Own);
    assert_eq!(tint(' ', 2), Tint::Foe);
    assert_eq!(tint(' ', 0), Tint::Own);
    assert_eq!(tint('#', 3), Tint::Plain);
    assert_eq!(tint('\n', 3), Tint::Plain);
    assert_eq!(tint('5', 3), Tint::Plain);
}

#[test]
fn ranking_keeps_roster_order_among_equals() {
    let ranked = Player::rank(vec![
        named("ann", 20),
        named("bob", 0),
        named("cid", 100),
        named("dee", 20),
        named("eve", 0),
    ]);
    let names: Vec<&str> = ranked.iter().map(|player| player.name.as_str()).collect();
    assert_eq!(names, vec!["cid", "ann", "dee", "bob", "eve"]);
    let scores: Vec<u32> = ranked.iter().map(|player| player.score()).collect();
    assert_eq!(scores, vec![100, 20, 20, 0, 0]);
}

#[test]
fn ranking_of_three_scores() {
    let ranked = Player::rank(vec![named("ann", 20), named("bob", 0), named("cid", 100)]);
    let scores: Vec<u32> = ranked.iter().map(|player| player.score()).collect();
    assert_eq!(scores, vec![100, 20, 0]);
}

#[test]
fn ranking_of_nobody_and_of_one() {
    assert_eq!(Player::rank(Vec::new()).len(), 0);
    let ranked = Player::rank(vec![named("ann", 7)]);
    assert_eq!(ranked.len(), 1);
    assert_eq!(ranked[0].name, "ann");
}

#[test]
fn scores_in_decimal() {
    assert_eq!(named("ann", 0).display(), "ann\nscore: 0\n");
    assert_eq!(named("ann", 9).display(), "ann\nscore: 9\n");
    assert_eq!(named("ann", 10).display(), "ann\nscore: 10\n");
    assert_eq!(named("ann", 1050).display(), "ann\nscore: 1050\n");
    assert_eq!(named("", 4294967295).display(), "\nscore: 4294967295\n");
}

#[test]
fn points_add_up() {
    let mut player = named("ann", 15);
    player.win_points(50);
    player.win_points(0);
    assert_eq!(player.score(), 65);
    assert_eq!(player.get_code(), 0);
    assert_eq!(player.get_name(), "ann");
    assert_eq!(player.get_position(), None);
}
