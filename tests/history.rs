use go_rules::{Event, EventTree, Game, GameBuilder, Markup, Rules, Stone};

#[test]
fn tree_push_and_history() {
    let mut t = EventTree::blank();
    assert!(t.get_history().is_empty());
    t.push(Event::Move(1, 1));
    t.push(Event::Pass);
    assert_eq!(t.get_history(), vec![Event::Move(1, 1), Event::Pass]);
    assert_eq!(t.num_children(), 0);
}

#[test]
fn tree_navigation_stops_at_boundaries() {
    let mut t = EventTree::blank();
    // parent of the root
    t.move_to_parent();
    assert!(t.get_history().is_empty());

    t.push(Event::Move(0, 0));
    // first child of a leaf
    t.move_to_first_child();
    assert_eq!(t.get_history(), vec![Event::Move(0, 0)]);
    // next sibling of an only child
    t.move_to_next_sibling();
    assert_eq!(t.get_history(), vec![Event::Move(0, 0)]);
    // previous sibling of a first child
    t.move_to_last_sibling();
    assert_eq!(t.get_history(), vec![Event::Move(0, 0)]);
}

#[test]
fn tree_variations() {
    let mut t = EventTree::blank();
    t.push(Event::Move(0, 0));
    t.move_to_parent();
    t.push(Event::Move(1, 1));
    assert_eq!(t.get_history(), vec![Event::Move(1, 1)]);
    t.move_to_last_sibling();
    assert_eq!(t.get_history(), vec![Event::Move(0, 0)]);
    t.move_to_next_sibling();
    assert_eq!(t.get_history(), vec![Event::Move(1, 1)]);
    t.move_to_parent();
    assert_eq!(t.num_children(), 2);
    t.move_to_first_child();
    assert_eq!(t.get_history(), vec![Event::Move(0, 0)]);
}

#[test]
fn tree_pop_removes_the_node() {
    let mut t = EventTree::blank();
    assert_eq!(t.pop(), None);
    t.push(Event::Move(2, 3));
    t.push(Event::Pass);
    assert_eq!(t.pop(), Some(Event::Pass));
    assert_eq!(t.get_history(), vec![Event::Move(2, 3)]);
    assert_eq!(t.num_children(), 0);
    assert_eq!(t.pop(), Some(Event::Move(2, 3)));
    assert_eq!(t.num_children(), 0);
}

#[test]
fn undo_at_root_does_nothing() {
    let mut g = Game::new(9, 9, Rules::japanese());
    assert_eq!(g.undo(), None);
    assert!(g.tree().get_history().is_empty());
    assert_eq!(g.turn(), Stone::Black);
}

#[test]
fn game_moves_alternate_and_illegal_moves_are_not_recorded() {
    let mut g = Game::new(9, 9, Rules::japanese());
    assert!(g.handle_event(Event::Move(2, 2)));
    assert_eq!(g.turn(), Stone::White);
    assert!(!g.handle_event(Event::Move(2, 2)));
    assert_eq!(g.turn(), Stone::White);
    assert_eq!(g.tree().get_history(), vec![Event::Move(2, 2)]);
    assert!(g.handle_event(Event::Move(3, 3)));
    assert_eq!(g.board().get(3, 3), Stone::White);
    assert_eq!(g.turn(), Stone::Black);
}

#[test]
fn unchanged_mark_is_not_recorded() {
    let mut g = Game::new(9, 9, Rules::japanese());
    assert!(g.handle_event(Event::Mark(Markup::Circle, 1, 1)));
    assert!(!g.handle_event(Event::Mark(Markup::Circle, 1, 1)));
    assert_eq!(g.tree().get_history().len(), 1);
    assert!(g.handle_event(Event::Mark(Markup::Cross, 1, 1)));
    assert_eq!(g.board().get_markup(1, 1), Markup::Cross);
    assert_eq!(g.tree().get_history().len(), 2);
    // a move clears the marks
    assert!(g.handle_event(Event::Move(4, 4)));
    assert_eq!(g.board().get_markup(1, 1), Markup::Empty);
}

#[test]
fn pass_pass_and_resign_end_the_game() {
    let mut g = Game::new(9, 9, Rules::chinese());
    assert!(!g.ended());
    assert!(g.handle_event(Event::Pass));
    assert!(!g.ended());
    assert!(g.handle_event(Event::Pass));
    assert!(g.ended());
    assert!(g.undo().is_some());
    assert!(!g.ended());
    assert!(g.handle_event(Event::Resign(Stone::White)));
    assert!(g.ended());
    assert_eq!(g.result(), go_rules::EndGame::Resign(Stone::Black));
}

#[test]
fn replaying_the_history_rebuilds_the_board() {
    let mut g = GameBuilder { size: (9, 9), rules: Rules::chinese() }.build();
    for e in [
        Event::Move(0, 0),
        Event::Move(1, 0),
        Event::Place(Stone::White, 5, 5),
        Event::Move(8, 8),
        Event::Move(0, 1),
    ] {
        g.handle_event(e);
    }
    assert_eq!(g.board().get(0, 0), Stone::Empty);
    let stones = g.board().stones().clone();
    let black = g.board().black_captured();
    let white = g.board().white_captured();
    assert_eq!(black, 1);
    g.do_to_now();
    assert_eq!(g.board().stones(), &stones);
    assert_eq!(g.board().black_captured(), black);
    assert_eq!(g.board().white_captured(), white);
}

#[test]
fn undo_rebuilds_the_previous_position() {
    let mut g = Game::new(9, 9, Rules::japanese());
    assert!(g.handle_event(Event::Move(0, 0)));
    assert!(g.handle_event(Event::Move(1, 0)));
    assert!(g.handle_event(Event::Move(5, 5)));
    assert!(g.handle_event(Event::Move(0, 1)));
    assert_eq!(g.board().get(0, 0), Stone::Empty);
    assert_eq!(g.undo(), Some(Event::Move(0, 1)));
    assert_eq!(g.board().get(0, 0), Stone::Black);
    assert_eq!(g.board().get(0, 1), Stone::Empty);
    assert_eq!(g.board().black_captured(), 0);
    assert_eq!(g.turn(), Stone::White);
}

#[test]
fn game_navigation_rebuilds_the_board() {
    let mut g = Game::new(9, 9, Rules::japanese());
    assert!(g.handle_event(Event::Move(0, 0)));
    g.move_to_parent();
    assert_eq!(g.board().get(0, 0), Stone::Empty);
    assert_eq!(g.turn(), Stone::Black);
    assert!(g.handle_event(Event::Move(4, 4)));
    g.move_to_last_sibling();
    assert_eq!(g.board().get(0, 0), Stone::Black);
    assert_eq!(g.board().get(4, 4), Stone::Empty);
    g.move_to_next_sibling();
    assert_eq!(g.board().get(4, 4), Stone::Black);
    g.move_to_parent();
    g.move_to_first_child();
    assert_eq!(g.board().get(0, 0), Stone::Black);
}

#[test]
fn default_builder_is_nineteen_by_nineteen() {
    let b = GameBuilder::default();
    assert_eq!(b.size, (19, 19));
    let g = b.build();
    assert_eq!(g.board().size(), (19, 19));
    assert_eq!(g.board().stones().len(), 361);
    assert!(!g.ended());
}
