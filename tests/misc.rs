use go_rules::{
    calculate_hash, new_node, next_letter, star_points, Action, Board, EndGame, Event, Game, Markup, Rules, Stone,
    ToolType, UiTool,
};

#[test]
fn star_points_by_board_size() {
    assert_eq!(star_points(5, 5), vec![(2, 2)]);
    assert_eq!(star_points(8, 8), vec![]);
    assert_eq!(star_points(9, 9), vec![(4, 4), (2, 2), (2, 6), (6, 2), (6, 6)]);
    assert_eq!(star_points(13, 13), vec![(6, 6), (3, 3), (3, 9), (9, 3), (9, 9)]);
    assert_eq!(
        star_points(19, 19),
        vec![(9, 9), (3, 9), (15, 9), (9, 3), (9, 15), (3, 3), (3, 15), (15, 3), (15, 15)]
    );
    assert_eq!(star_points(14, 14), vec![(3, 3), (3, 10), (10, 3), (10, 10)]);
}

#[test]
fn moves_and_passes_start_nodes() {
    assert!(new_node(&Action::PlayBlack(0, 0)));
    assert!(new_node(&Action::PassWhite));
    assert!(!new_node(&Action::Comment("c".to_string())));
    assert!(!new_node(&Action::AddBlack(vec![(1, 1)])));
}

#[test]
fn letters_wrap_after_z() {
    assert_eq!(next_letter('A'), 'B');
    assert_eq!(next_letter('Y'), 'Z');
    assert_eq!(next_letter('Z'), 'A');
}

#[test]
fn clearing_the_tool() {
    let mut t = UiTool { tool: ToolType::Arrow, base: Some((3, 4)), letter: 'F', number: 7 };
    t.clear();
    assert_eq!(t, UiTool { tool: ToolType::Arrow, base: None, letter: 'A', number: 1 });
}

#[test]
fn results_in_words() {
    assert_eq!(EndGame::NotOver.display(), "Game not over.");
    assert_eq!(EndGame::Score(Stone::White, 15).display(), "White won by 7.5 points.");
    assert_eq!(EndGame::Score(Stone::Black, 14).display(), "Black won by 7 points.");
    assert_eq!(EndGame::Resign(Stone::Black).display(), "Black won by resignation.");
    assert_eq!(EndGame::Time(Stone::White).display(), "White won by time.");
    assert_eq!(EndGame::Forfeit(Stone::Black).display(), "Black won by forfeit.");
}

#[test]
fn equal_grids_hash_equal_and_a_stone_changes_it() {
    let a = Board::new(9, 9);
    let mut b = Board::new(9, 9);
    assert_eq!(calculate_hash(a.stones()), calculate_hash(b.stones()));
    b.set(0, 0, Stone::Black);
    assert_ne!(calculate_hash(a.stones()), calculate_hash(b.stones()));
    b.set(0, 0, Stone::Empty);
    assert_eq!(calculate_hash(a.stones()), calculate_hash(b.stones()));
}

#[test]
fn record_actions_drive_the_game() {
    let mut g = Game::new(9, 9, Rules::japanese());
    g.handle_action(&Action::AddBlack(vec![(0, 0), (1, 1)]));
    assert_eq!(g.board().get(0, 0), Stone::Black);
    assert_eq!(g.board().get(1, 1), Stone::Black);
    g.handle_action(&Action::PlayWhite(2, 2));
    assert_eq!(g.board().get(2, 2), Stone::White);
    assert_eq!(g.turn(), Stone::Black);
    g.handle_action(&Action::Circle(vec![(4, 4)]));
    assert_eq!(g.board().get_markup(4, 4), Markup::Circle);
    g.handle_action(&Action::Arrow(vec![[(5, 5), (6, 6)]]));
    assert_eq!(g.board().get_markup(5, 5), Markup::Arrow(6, 6));
    g.handle_action(&Action::Label(vec![(7, 7, "A".to_string())]));
    assert_eq!(g.board().get_markup(7, 7), Markup::Label("A".to_string()));
    // an occupied point is refused and not recorded
    let before = g.tree().get_history().len();
    g.handle_action(&Action::PlayBlack(2, 2));
    assert_eq!(g.tree().get_history().len(), before);
    g.handle_action(&Action::Comment("x".to_string()));
    assert_eq!(g.tree().get_history().len(), before);
    g.handle_action(&Action::PassBlack);
    assert_eq!(g.tree().get_history().last(), Some(&Event::Pass));
}

#[test]
fn markup_is_gathered_and_written_back() {
    let node = vec![
        Action::PlayBlack(0, 0),
        Action::Circle(vec![(1, 1), (1, 1)]),
        Action::Comment("a".to_string()),
        Action::Square(vec![(2, 2)]),
        Action::Circle(vec![(1, 1)]),
    ];
    let state = go_rules::MarkupState::from_actions(&node);
    let mut other = vec![Action::PassWhite, Action::Circle(vec![(5, 5)]), Action::Comment("old".to_string())];
    state.edit_actions(&mut other);
    assert_eq!(
        other,
        vec![
            Action::PassWhite,
            Action::Circle(vec![(1, 1)]),
            Action::Cross(vec![]),
            Action::Square(vec![(2, 2)]),
            Action::Triangle(vec![]),
            Action::Dim(vec![]),
            Action::Label(vec![]),
            Action::Arrow(vec![]),
            Action::Line(vec![]),
            Action::Comment("a".to_string()),
        ]
    );
}

#[test]
fn clicks_play_and_mark() {
    let rules = Rules::japanese();
    let mut board = Board::new(9, 9);
    let mut turn = Stone::Black;
    let mut tool = UiTool { tool: ToolType::Play, base: None, letter: 'A', number: 1 };
    assert_eq!(tool.click(&mut board, &mut turn, 2, 2, rules), Action::PlayBlack(2, 2));
    assert_eq!(turn, Stone::White);
    assert_eq!(tool.click(&mut board, &mut turn, 2, 2, rules), Action::NoOp);
    assert_eq!(turn, Stone::White);

    tool.tool = ToolType::Triangle;
    assert_eq!(tool.click(&mut board, &mut turn, 3, 3, rules), Action::Triangle(vec![(3, 3)]));
    assert_eq!(tool.click(&mut board, &mut turn, 3, 3, rules), Action::NoOp);

    tool.tool = ToolType::Arrow;
    assert_eq!(tool.click(&mut board, &mut turn, 0, 0, rules), Action::NoOp);
    assert_eq!(tool.base, Some((0, 0)));
    assert_eq!(tool.click(&mut board, &mut turn, 4, 4, rules), Action::Arrow(vec![[(0, 0), (4, 4)]]));
    assert_eq!(board.get_markup(0, 0), Markup::Arrow(4, 4));
    assert_eq!(tool.base, None);

    tool.tool = ToolType::Number;
    tool.number = 12;
    assert_eq!(tool.click(&mut board, &mut turn, 5, 5, rules), Action::Label(vec![(5, 5, "12".to_string())]));
    assert_eq!(tool.number, 13);

    tool.tool = ToolType::Letter;
    tool.letter = 'Z';
    assert_eq!(tool.click(&mut board, &mut turn, 6, 6, rules), Action::Label(vec![(6, 6, "Z".to_string())]));
    assert_eq!(tool.letter, 'A');
    assert_eq!(turn, Stone::White);
}

#[test]
fn do_action_applies_without_recording() {
    let mut g = Game::new(9, 9, Rules::japanese());
    g.do_action(&Action::PlayBlack(2, 2));
    assert_eq!(g.board().get(2, 2), Stone::Black);
    assert_eq!(g.turn(), Stone::White);
    g.do_action(&Action::AddWhite(vec![(3, 3), (4, 4)]));
    assert_eq!(g.board().get(4, 4), Stone::White);
    g.do_action(&Action::PlayBlack(2, 2));
    assert!(g.tree().get_history().is_empty());
    // the board follows the history again once it is rebuilt
    g.do_to_now();
    assert_eq!(g.board().get(2, 2), Stone::Empty);
    assert_eq!(g.turn(), Stone::Black);
}
