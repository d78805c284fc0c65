use go_rules::{find_group, Board, Markup, Rules, Stone};
use std::collections::HashSet;

fn set_of(v: &Vec<(usize, usize)>) -> HashSet<(usize, usize)> {
    v.iter().cloned().collect()
}

#[test]
fn correct_index() {
    let board = Board::new(9, 9);

    assert_eq!(board.index(0, 0), 0);
    assert_eq!(board.index(4, 4), 40);
    assert_eq!(board.index(8, 8), 80);
}

#[test]
fn top_left_corner_group() {
    let mut board = Board::new(9, 9);

    board.set(0, 0, Stone::Black);
    board.set(1, 0, Stone::Black);
    board.set(0, 1, Stone::Black);
    board.set(0, 2, Stone::Black);

    board.set(2, 0, Stone::White);
    board.set(1, 1, Stone::White);
    board.set(1, 2, Stone::White);

    let group = find_group(&board, 0, 0, Stone::Black);

    assert_eq!(set_of(&group.inside), HashSet::from([(0, 0), (1, 0), (0, 1), (0, 2)]));
    assert_eq!(set_of(&group.neighbors), HashSet::from([(2, 0), (1, 1), (1, 2)]));
    assert_eq!(set_of(&group.liberties), HashSet::from([(0, 3)]));
}

#[test]
fn bottom_right_corner_group() {
    let mut board = Board::new(9, 9);

    board.set(8, 8, Stone::Black);
    board.set(8, 7, Stone::Black);
    board.set(7, 7, Stone::Black);
    board.set(7, 6, Stone::Black);

    board.set(7, 5, Stone::White);
    board.set(6, 6, Stone::White);
    board.set(6, 7, Stone::White);

    let group = find_group(&board, 8, 8, Stone::Black);

    assert_eq!(set_of(&group.inside), HashSet::from([(8, 8), (8, 7), (7, 7), (7, 6)]));
    assert_eq!(set_of(&group.neighbors), HashSet::from([(7, 5), (6, 6), (6, 7)]));
    assert_eq!(set_of(&group.liberties), HashSet::from([(7, 8), (8, 6)]));
}

#[test]
fn single_group_middle() {
    let mut board = Board::new(9, 9);

    board.set(5, 4, Stone::Black);

    let group = find_group(&board, 5, 4, Stone::Black);

    assert_eq!(set_of(&group.inside), HashSet::from([(5, 4)]));
    assert_eq!(set_of(&group.liberties), HashSet::from([(5, 5), (4, 4), (5, 3), (6, 4)]));
}

#[test]
fn seed_counts_as_the_color() {
    let mut board = Board::new(5, 5);
    board.set(1, 0, Stone::Black);
    board.set(2, 2, Stone::White);

    // (0, 0) is empty, but resolving it as Black joins it to (1, 0).
    let group = find_group(&board, 0, 0, Stone::Black);
    assert_eq!(set_of(&group.inside), HashSet::from([(0, 0), (1, 0)]));
    assert_eq!(set_of(&group.liberties), HashSet::from([(0, 1), (1, 1), (2, 0)]));
    assert!(group.neighbors.is_empty());
    assert_eq!(group.color, Stone::Black);
}

#[test]
fn resolving_twice_gives_the_same_sets() {
    let mut board = Board::new(9, 9);
    board.set(3, 3, Stone::White);
    board.set(3, 4, Stone::White);
    board.set(4, 4, Stone::Black);
    let g1 = find_group(&board, 3, 3, Stone::White);
    let g2 = find_group(&board, 3, 3, Stone::White);
    assert_eq!(set_of(&g1.inside), set_of(&g2.inside));
    assert_eq!(set_of(&g1.liberties), set_of(&g2.liberties));
    assert_eq!(set_of(&g1.neighbors), set_of(&g2.neighbors));
    assert_eq!(g1.liberties.len(), 5);
}

#[test]
fn corner_capture_counts_one_black_prisoner() {
    let rules = Rules::chinese();
    let mut board = Board::new(9, 9);
    assert!(board.attempt_set(0, 0, Stone::Black, rules));
    assert!(board.attempt_set(1, 0, Stone::White, rules));
    assert_eq!(board.black_captured(), 0);
    assert!(board.attempt_set(0, 1, Stone::White, rules));
    assert_eq!(board.get(0, 0), Stone::Empty);
    assert_eq!(board.black_captured(), 1);
    assert_eq!(board.white_captured(), 0);
    assert_eq!(board.hashes().len(), 3);
}

#[test]
fn capture_of_a_group_of_two() {
    let rules = Rules::japanese();
    let mut board = Board::new(9, 9);
    assert!(board.attempt_set(0, 0, Stone::White, rules));
    assert!(board.attempt_set(1, 0, Stone::White, rules));
    assert!(board.attempt_set(2, 0, Stone::Black, rules));
    assert!(board.attempt_set(0, 1, Stone::Black, rules));
    assert!(board.attempt_set(1, 1, Stone::Black, rules));
    assert_eq!(board.get(0, 0), Stone::Empty);
    assert_eq!(board.get(1, 0), Stone::Empty);
    assert_eq!(board.white_captured(), 2);
    assert_eq!(board.black_captured(), 0);
}

#[test]
fn suicide_is_refused_and_nothing_changes() {
    let rules = Rules::chinese();
    let mut board = Board::new(9, 9);
    assert!(board.attempt_set(3, 4, Stone::Black, rules));
    assert!(board.attempt_set(5, 4, Stone::Black, rules));
    assert!(board.attempt_set(4, 3, Stone::Black, rules));
    assert!(board.attempt_set(4, 5, Stone::Black, rules));
    let stones = board.stones().clone();
    let hashes = board.hashes().clone();
    assert!(!board.attempt_set(4, 4, Stone::White, rules));
    assert_eq!(board.stones(), &stones);
    assert_eq!(board.hashes(), &hashes);
    assert_eq!(board.get(4, 4), Stone::Empty);
    assert_eq!(board.white_captured(), 0);
}

#[test]
fn suicide_allowed_removes_the_own_group() {
    let rules = Rules::new_zealand();
    let mut board = Board::new(9, 9);
    assert!(board.attempt_set(0, 0, Stone::White, rules));
    assert!(board.attempt_set(2, 0, Stone::Black, rules));
    assert!(board.attempt_set(1, 1, Stone::Black, rules));
    assert!(board.attempt_set(0, 1, Stone::Black, rules));
    assert!(board.attempt_set(1, 0, Stone::White, rules));
    assert_eq!(board.get(0, 0), Stone::Empty);
    assert_eq!(board.get(1, 0), Stone::Empty);
    assert_eq!(board.white_captured(), 2);
    assert_eq!(board.black_captured(), 0);
}

#[test]
fn single_stone_suicide_repeats_the_position_under_superko() {
    let rules = Rules::new_zealand();
    let mut board = Board::new(9, 9);
    assert!(board.attempt_set(3, 4, Stone::Black, rules));
    assert!(board.attempt_set(5, 4, Stone::Black, rules));
    assert!(board.attempt_set(4, 3, Stone::Black, rules));
    assert!(board.attempt_set(4, 5, Stone::Black, rules));
    assert!(!board.attempt_set(4, 4, Stone::White, rules));
    assert_eq!(board.white_captured(), 0);
    assert_eq!(board.hashes().len(), 4);
}

#[test]
fn capture_comes_before_suicide() {
    let rules = Rules::chinese();
    let mut board = Board::new(9, 9);
    // White at (0,0) has one liberty left at (1,0) once Black holds (0,1);
    // Black at (1,0) would have no liberty but captures first.
    assert!(board.attempt_set(0, 0, Stone::White, rules));
    assert!(board.attempt_set(0, 1, Stone::Black, rules));
    assert!(board.attempt_set(2, 0, Stone::White, rules));
    assert!(board.attempt_set(1, 1, Stone::White, rules));
    assert!(board.attempt_set(1, 0, Stone::Black, rules));
    assert_eq!(board.get(0, 0), Stone::Empty);
    assert_eq!(board.get(1, 0), Stone::Black);
    assert_eq!(board.white_captured(), 1);
}

#[test]
fn play_off_board_or_on_a_stone_is_refused() {
    let rules = Rules::japanese();
    let mut board = Board::new(9, 9);
    assert!(!board.attempt_set(9, 0, Stone::Black, rules));
    assert!(!board.attempt_set(0, 9, Stone::Black, rules));
    assert!(board.attempt_set(2, 2, Stone::Black, rules));
    assert!(!board.attempt_set(2, 2, Stone::White, rules));
    assert_eq!(board.hashes().len(), 1);
}

fn ko_board(rules: Rules) -> Board {
    let mut board = Board::new(9, 9);
    assert!(board.attempt_set(1, 0, Stone::Black, rules));
    assert!(board.attempt_set(2, 0, Stone::White, rules));
    assert!(board.attempt_set(0, 1, Stone::Black, rules));
    assert!(board.attempt_set(3, 1, Stone::White, rules));
    assert!(board.attempt_set(1, 2, Stone::Black, rules));
    assert!(board.attempt_set(2, 2, Stone::White, rules));
    assert!(board.attempt_set(8, 8, Stone::Black, rules));
    assert!(board.attempt_set(1, 1, Stone::White, rules));
    board
}

#[test]
fn ko_recapture_is_refused() {
    for rules in [Rules::japanese(), Rules::chinese(), Rules::new_zealand()] {
        let mut board = ko_board(rules);
        assert!(board.attempt_set(2, 1, Stone::Black, rules));
        assert_eq!(board.get(1, 1), Stone::Empty);
        assert_eq!(board.white_captured(), 1);
        let stones = board.stones().clone();
        let hashes = board.hashes().clone();
        assert!(!board.attempt_set(1, 1, Stone::White, rules));
        assert_eq!(board.stones(), &stones);
        assert_eq!(board.hashes(), &hashes);
        assert_eq!(board.black_captured(), 0);
        assert_eq!(board.white_captured(), 1);
    }
}

#[test]
fn ko_may_be_retaken_after_a_move_elsewhere() {
    let rules = Rules::japanese();
    let mut board = ko_board(rules);
    assert!(board.attempt_set(2, 1, Stone::Black, rules));
    assert!(board.attempt_set(7, 7, Stone::White, rules));
    assert!(board.attempt_set(6, 6, Stone::Black, rules));
    assert!(board.attempt_set(1, 1, Stone::White, rules));
    assert_eq!(board.get(2, 1), Stone::Empty);
    assert_eq!(board.black_captured(), 1);
}

#[test]
fn set_markup_reports_a_change() {
    let mut board = Board::new(5, 5);
    assert!(board.set_markup(1, 1, Markup::Circle));
    assert!(!board.set_markup(1, 1, Markup::Circle));
    assert!(board.set_markup(1, 1, Markup::Square));
    assert_eq!(board.get_markup(1, 1), Markup::Square);
    assert!(!board.set_markup(2, 2, Markup::Empty));
    assert!(board.set_markup(1, 1, Markup::Label("A".to_string())));
    assert!(!board.set_markup(1, 1, Markup::Label("A".to_string())));
    assert!(board.set_markup(1, 1, Markup::Label("B".to_string())));
    assert_eq!(board.get_markup(1, 1), Markup::Label("B".to_string()));
    board.remove_markup(1, 1);
    assert_eq!(board.get_markup(1, 1), Markup::Empty);
    assert!(board.set_markup(1, 1, Markup::Arrow(2, 2)));
    board.clear_markup();
    assert_eq!(board.get_markup(1, 1), Markup::Empty);
}

#[test]
fn stone_not_swaps_colors() {
    assert_eq!(Stone::Black.not(), Stone::White);
    assert_eq!(Stone::White.not(), Stone::Black);
    assert_eq!(Stone::Empty.not(), Stone::Empty);
}

#[test]
fn rule_presets() {
    let c = Rules::chinese();
    assert_eq!((c.komi, c.suicide_allowed, c.superko), (15, false, true));
    let j = Rules::japanese();
    assert_eq!((j.komi, j.suicide_allowed, j.superko), (13, false, false));
    let n = Rules::new_zealand();
    assert_eq!((n.komi, n.suicide_allowed, n.superko), (14, true, true));
}

#[test]
fn without_superko_only_the_position_two_plies_back_is_refused() {
    let rules = Rules { komi: 0, suicide_allowed: true, superko: false };
    let mut board = Board::new(9, 9);
    assert!(board.attempt_set(3, 4, Stone::Black, rules));
    assert!(board.attempt_set(5, 4, Stone::Black, rules));
    assert!(board.attempt_set(4, 3, Stone::Black, rules));
    assert!(board.attempt_set(4, 5, Stone::Black, rules));
    // The suicide brings back the position of one ply before, which only
    // superko forbids.
    assert!(board.attempt_set(4, 4, Stone::White, rules));
    assert_eq!(board.get(4, 4), Stone::Empty);
    assert_eq!(board.white_captured(), 1);
    assert_eq!(board.hashes().len(), 5);
    assert_eq!(board.hashes()[4], board.hashes()[3]);
}

#[test]
fn kill_group_counts_its_stones() {
    let mut board = Board::new(9, 9);
    board.set(3, 3, Stone::White);
    board.set(3, 4, Stone::White);
    board.set(4, 4, Stone::Black);
    let g = find_group(&board, 3, 3, Stone::White);
    board.kill_group(&g);
    assert_eq!(board.get(3, 3), Stone::Empty);
    assert_eq!(board.get(3, 4), Stone::Empty);
    assert_eq!(board.get(4, 4), Stone::Black);
    assert_eq!(board.white_captured(), 2);
    assert_eq!(board.black_captured(), 0);
}
