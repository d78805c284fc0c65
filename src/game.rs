use crate::action::Action;
use crate::board::{same_markup, blank_state, in_bounds, index_of, play_result, Board, BoardState, Markup, Point, Stone};
use crate::rules::{EndGame, Rules};
use crate::tree::{Event, EventTree};
use vstd::prelude::*;

verus! {

/// What a game holds besides its history, as mathematical values.
pub struct GameState {
    pub board: BoardState,
    pub turn: Stone,
    pub result: EndGame,
}

/// Whether `e` changes the game in state `s`. A refused event is not
/// recorded.
pub open spec fn accepted(s: GameState, e: Event, rules: Rules) -> bool {
    match e {
        Event::Start => false,
        Event::Pass => true,
        Event::Resign(_) => true,
        Event::Move(x, y) => s.turn != Stone::Empty && s.board.has_room() && play_result(
            s.board,
            s.turn,
            x,
            y,
            rules,
        ) is Some,
        Event::Place(c, x, y) => c != Stone::Empty && s.board.has_room() && play_result(s.board, c, x, y, rules) is Some,
        Event::Mark(m, x, y) => in_bounds(s.board.width, s.board.height, (x, y)) && !same_markup(
            s.board.markup[index_of(s.board.width, (x, y))],
            m,
        ),
    }
}

/// The state after event `e`.
pub open spec fn apply_event(s: GameState, e: Event, rules: Rules) -> GameState {
    if !accepted(s, e, rules) {
        s
    } else {
        match e {
            Event::Move(x, y) => GameState {
                board: play_result(s.board, s.turn, x, y, rules)->0.without_markup(),
                turn: s.turn.opposite(),
                ..s
            },
            Event::Place(c, x, y) => GameState {
                board: play_result(s.board, c, x, y, rules)->0.without_markup(),
                turn: c.opposite(),
                ..s
            },
            Event::Pass => GameState { turn: s.turn.opposite(), ..s },
            Event::Resign(c) => GameState { result: EndGame::Resign(c.opposite()), ..s },
            Event::Mark(m, x, y) => GameState {
                board: BoardState {
                    markup: s.board.markup.update(index_of(s.board.width, (x, y)), m),
                    ..s.board
                },
                ..s
            },
            Event::Start => s,
        }
    }
}

/// The state reached from `start` by the events in order.
pub open spec fn replay(start: GameState, events: Seq<Event>, rules: Rules) -> GameState
    decreases events.len(),
{
    if events.len() == 0 {
        start
    } else {
        apply_event(replay(start, events.drop_last(), rules), events.last(), rules)
    }
}

/// The events among `es` that are recorded when they are handled in order
/// from state `s`.
pub open spec fn recorded(s: GameState, es: Seq<Event>, rules: Rules) -> Seq<Event>
    decreases es.len(),
{
    if es.len() == 0 {
        Seq::empty()
    } else {
        recorded(s, es.drop_last(), rules) + if accepted(replay(s, es.drop_last(), rules), es.last(), rules) {
            seq![es.last()]
        } else {
            Seq::empty()
        }
    }
}

pub open spec fn places(v: Seq<Point>, c: Stone) -> Seq<Event> {
    Seq::new(v.len(), |i: int| Event::Place(c, v[i].0, v[i].1))
}

pub open spec fn marks(v: Seq<Point>, m: Markup) -> Seq<Event> {
    Seq::new(v.len(), |i: int| Event::Mark(m, v[i].0, v[i].1))
}

/// The events a record action stands for: a move or a setup stone places a
/// stone of its colour, a pass passes, and markup marks each of its points
/// (an arrow or line at its start, pointing to its end). The others change
/// nothing on the board.
pub open spec fn action_events(a: Action) -> Seq<Event> {
    match a {
        Action::PlayBlack(x, y) => seq![Event::Place(Stone::Black, x, y)],
        Action::PlayWhite(x, y) => seq![Event::Place(Stone::White, x, y)],
        Action::AddBlack(v) => places(v@, Stone::Black),
        Action::AddWhite(v) => places(v@, Stone::White),
        Action::PassBlack | Action::PassWhite => seq![Event::Pass],
        Action::Circle(v) => marks(v@, Markup::Circle),
        Action::Cross(v) => marks(v@, Markup::Cross),
        Action::Square(v) => marks(v@, Markup::Square),
        Action::Triangle(v) => marks(v@, Markup::Triangle),
        Action::Dim(v) => marks(v@, Markup::Dim),
        Action::Label(v) => Seq::new(v@.len(), |i: int| Event::Mark(Markup::Label(v@[i].2), v@[i].0, v@[i].1)),
        Action::Arrow(v) => Seq::new(
            v@.len(),
            |i: int| Event::Mark(Markup::Arrow(v@[i][1].0, v@[i][1].1), v@[i][0].0, v@[i][0].1),
        ),
        Action::Line(v) => Seq::new(
            v@.len(),
            |i: int| Event::Mark(Markup::Line(v@[i][1].0, v@[i][1].1), v@[i][0].0, v@[i][0].1),
        ),
        _ => Seq::empty(),
    }
}

fn place_events(v: &Vec<Point>, c: Stone) -> (r: Vec<Event>)
    ensures
        r@ == places(v@, c),
{
    let mut r: Vec<Event> = Vec::new();
    let mut i: usize = 0;
    while i < v.len()
        invariant
            i <= v@.len(),
            r@ == places(v@, c).subrange(0, i as int),
        decreases v@.len() - i,
    {
        r.push(Event::Place(c, v[i].0, v[i].1));
        i += 1;
        assert(r@ =~= places(v@, c).subrange(0, i as int));
    }
    assert(places(v@, c).subrange(0, v@.len() as int) =~= places(v@, c));
    r
}

fn mark_events(v: &Vec<Point>, m: Markup) -> (r: Vec<Event>)
    ensures
        r@ == marks(v@, m),
{
    let mut r: Vec<Event> = Vec::new();
    let mut i: usize = 0;
    while i < v.len()
        invariant
            i <= v@.len(),
            r@ == marks(v@, m).subrange(0, i as int),
        decreases v@.len() - i,
    {
        r.push(Event::Mark(m.duplicate(), v[i].0, v[i].1));
        i += 1;
        assert(r@ =~= marks(v@, m).subrange(0, i as int));
    }
    assert(marks(v@, m).subrange(0, v@.len() as int) =~= marks(v@, m));
    r
}

fn events_of(a: &Action) -> (r: Vec<Event>)
    ensures
        r@ == action_events(*a),
{
    match a {
        Action::PlayBlack(x, y) => {
            let r = vec![Event::Place(Stone::Black, *x, *y)];
            assert(r@ =~= action_events(*a));
            r
        },
        Action::PlayWhite(x, y) => {
            let r = vec![Event::Place(Stone::White, *x, *y)];
            assert(r@ =~= action_events(*a));
            r
        },
        Action::AddBlack(v) => place_events(v, Stone::Black),
        Action::AddWhite(v) => place_events(v, Stone::White),
        Action::PassBlack | Action::PassWhite => {
            let r = vec![Event::Pass];
            assert(r@ =~= action_events(*a));
            r
        },
        Action::Circle(v) => mark_events(v, Markup::Circle),
        Action::Cross(v) => mark_events(v, Markup::Cross),
        Action::Square(v) => mark_events(v, Markup::Square),
        Action::Triangle(v) => mark_events(v, Markup::Triangle),
        Action::Dim(v) => mark_events(v, Markup::Dim),
        Action::Label(v) => {
            let ghost want = action_events(*a);
            let mut r: Vec<Event> = Vec::new();
            let mut i: usize = 0;
            while i < v.len()
                invariant
                    i <= v@.len(),
                    want == Seq::new(v@.len(), |j: int| Event::Mark(Markup::Label(v@[j].2), v@[j].0, v@[j].1)),
                    r@ == want.subrange(0, i as int),
                decreases v@.len() - i,
            {
                let (x, y, t) = &v[i];
                r.push(Event::Mark(Markup::Label(t.clone()), *x, *y));
                i += 1;
                assert(r@ =~= want.subrange(0, i as int));
            }
            assert(want.subrange(0, v@.len() as int) =~= want);
            r
        },
        Action::Arrow(v) | Action::Line(v) => {
            let arrow = match a {
                Action::Arrow(_) => true,
                _ => false,
            };
            let ghost want = action_events(*a);
            let mut r: Vec<Event> = Vec::new();
            let mut i: usize = 0;
            while i < v.len()
                invariant
                    i <= v@.len(),
                    arrow ==> want == Seq::new(
                        v@.len(),
                        |j: int| Event::Mark(Markup::Arrow(v@[j][1].0, v@[j][1].1), v@[j][0].0, v@[j][0].1),
                    ),
                    !arrow ==> want == Seq::new(
                        v@.len(),
                        |j: int| Event::Mark(Markup::Line(v@[j][1].0, v@[j][1].1), v@[j][0].0, v@[j][0].1),
                    ),
                    r@ == want.subrange(0, i as int),
                decreases v@.len() - i,
            {
                let p = v[i];
                let m = if arrow {
                    Markup::Arrow(p[1].0, p[1].1)
                } else {
                    Markup::Line(p[1].0, p[1].1)
                };
                r.push(Event::Mark(m, p[0].0, p[0].1));
                i += 1;
                assert(r@ =~= want.subrange(0, i as int));
            }
            assert(want.subrange(0, v@.len() as int) =~= want);
            r
        },
        _ => {
            let r: Vec<Event> = Vec::new();
            assert(r@ =~= action_events(*a));
            r
        },
    }
}

/// The game is over: the last event is a resignation, or the last two are
/// passes.
pub open spec fn is_over(h: Seq<Event>) -> bool {
    ||| h.len() >= 1 && h.last() is Resign
    ||| h.len() >= 2 && h[h.len() - 1] is Pass && h[h.len() - 2] is Pass
}

/// A board, the player to move, the rules, and the history that the board
/// is rebuilt from.
pub struct Game {
    board: Board,
    turn: Stone,
    initial_turn: Stone,
    rules: Rules,
    size: (usize, usize),
    tree: EventTree,
    result: EndGame,
}

impl Game {
    /// The state the history starts from: an empty board.
    pub closed spec fn initial(&self) -> GameState {
        GameState {
            board: blank_state(self.size.0 as nat, self.size.1 as nat),
            turn: self.initial_turn,
            result: EndGame::NotOver,
        }
    }

    /// The board's width and height.
    pub closed spec fn dims(&self) -> (nat, nat) {
        (self.size.0 as nat, self.size.1 as nat)
    }

    pub closed spec fn state(&self) -> GameState {
        GameState { board: self.board@, turn: self.turn, result: self.result }
    }

    pub closed spec fn rules(&self) -> Rules {
        self.rules
    }

    pub closed spec fn history(&self) -> Seq<Event> {
        self.tree.history()
    }

    pub closed spec fn path(&self) -> Seq<usize> {
        self.tree.path()
    }

    /// The events that follow the current one, one for each variation.
    pub closed spec fn child_events(&self) -> Seq<Event> {
        self.tree.child_events()
    }

    /// The current event and its alternatives, in order; empty at the start.
    pub closed spec fn sibling_events(&self) -> Seq<Event> {
        self.tree.sibling_events()
    }

    /// The parts are well formed, whatever the board holds.
    pub closed spec fn sound(&self) -> bool {
        &&& self.board.wf()
        &&& self.tree.wf()
        &&& self.initial_turn != Stone::Empty
        &&& self.size.0 * self.size.1 <= usize::MAX
    }

    /// The live state is what the history replays to from an empty board.
    pub closed spec fn wf(&self) -> bool {
        &&& self.sound()
        &&& self.state() == replay(self.initial(), self.tree.history(), self.rules)
    }

    /// A game on an empty `w` by `h` board, Black to move.
    pub fn new(w: usize, h: usize, rules: Rules) -> (r: Game)
        requires
            w * h <= usize::MAX,
        ensures
            r.wf(),
            r.history().len() == 0,
            r.rules() == rules,
            r.state() == (GameState { board: blank_state(w as nat, h as nat), turn: Stone::Black, result: EndGame::NotOver }),
    {
        Game {
            board: Board::new(w, h),
            turn: Stone::Black,
            initial_turn: Stone::Black,
            rules,
            size: (w, h),
            tree: EventTree::blank(),
            result: EndGame::NotOver,
        }
    }

    pub fn board(&self) -> (r: &Board)
        ensures
            r@ == self.state().board,
    {
        &self.board
    }

    pub fn turn(&self) -> (r: Stone)
        ensures
            r == self.state().turn,
    {
        self.turn
    }

    pub fn result(&self) -> (r: EndGame)
        ensures
            r == self.state().result,
    {
        self.result
    }

    pub fn get_rules(&self) -> (r: Rules)
        ensures
            r == self.rules(),
    {
        self.rules
    }

    pub fn tree(&self) -> (r: &EventTree)
        ensures
            r.history() == self.history(),
            r.path() == self.path(),
            self.wf() ==> r.wf(),
    {
        &self.tree
    }

    /// Applies `e` to the board and turn, without recording it.
    fn apply(&mut self, e: &Event) -> (r: bool)
        requires
            old(self).board.wf(),
        ensures
            final(self).board.wf(),
            r == accepted(old(self).state(), *e, old(self).rules),
            final(self).state() == apply_event(old(self).state(), *e, old(self).rules),
            final(self).tree == old(self).tree,
            final(self).rules == old(self).rules,
            final(self).size == old(self).size,
            final(self).initial_turn == old(self).initial_turn,
    {
        let (w, h) = self.board.size();
        match e {
            Event::Start => false,
            Event::Pass => {
                self.turn = self.turn.not();
                true
            },
            Event::Resign(c) => {
                self.result = EndGame::Resign(c.not());
                true
            },
            Event::Move(x, y) => {
                if self.turn == Stone::Empty || !self.board.has_room() {
                    return false;
                }
                let t = self.turn;
                if self.board.attempt_set(*x, *y, t, self.rules) {
                    self.board.clear_markup();
                    self.turn = t.not();
                    true
                } else {
                    false
                }
            },
            Event::Place(c, x, y) => {
                if *c == Stone::Empty || !self.board.has_room() {
                    return false;
                }
                if self.board.attempt_set(*x, *y, *c, self.rules) {
                    self.board.clear_markup();
                    self.turn = c.not();
                    true
                } else {
                    false
                }
            },
            Event::Mark(m, x, y) => {
                if *x >= w || *y >= h {
                    return false;
                }
                self.board.set_markup(*x, *y, m.duplicate())
            },
        }
    }

    /// Records `e` in the history and applies it, or leaves everything as it
    /// was when `e` is refused: an illegal move, or a mark that changes
    /// nothing. Returns whether it was recorded.
    pub fn handle_event(&mut self, e: Event) -> (r: bool)
        requires
            old(self).wf(),
        ensures
            final(self).wf(),
            final(self).rules() == old(self).rules(),
            r == accepted(old(self).state(), e, old(self).rules()),
            final(self).state() == apply_event(old(self).state(), e, old(self).rules()),
            final(self).history() == if r {
                old(self).history().push(e)
            } else {
                old(self).history()
            },
    {
        let ok = self.apply(&e);
        if ok {
            self.tree.push(e);
            proof {
                assert(self.tree.history().drop_last() =~= old(self).tree.history());
            }
        }
        ok
    }

    /// Rebuilds the board from an empty one by replaying the history.
    pub fn do_to_now(&mut self)
        requires
            old(self).sound(),
        ensures
            final(self).wf(),
            final(self).history() == old(self).history(),
            final(self).path() == old(self).path(),
            final(self).rules() == old(self).rules(),
            final(self).initial() == old(self).initial(),
            final(self).state() == replay(old(self).initial(), old(self).history(), old(self).rules()),
    {
        let events = self.tree.get_history();
        let (w, h) = self.size;
        self.board = Board::new(w, h);
        self.turn = self.initial_turn;
        self.result = EndGame::NotOver;
        let mut i: usize = 0;
        proof {
            assert(events@.subrange(0, 0) =~= Seq::<Event>::empty());
        }
        while i < events.len()
            invariant
                self.board.wf(),
                self.tree == old(self).tree,
                self.rules == old(self).rules,
                self.size == old(self).size,
                self.initial_turn == old(self).initial_turn,
                events@ == self.tree.history(),
                i <= events@.len(),
                self.state() == replay(self.initial(), events@.subrange(0, i as int), self.rules),
            decreases events@.len() - i,
        {
            self.apply(&events[i]);
            proof {
                assert(events@.subrange(0, i as int + 1).drop_last() =~= events@.subrange(0, i as int));
            }
            i += 1;
        }
        proof {
            assert(events@.subrange(0, events@.len() as int) =~= events@);
        }
    }

    /// Handles, in order, the events that a record action stands for; those
    /// that are refused are left out of the history.
    pub fn handle_action(&mut self, a: &Action)
        requires
            old(self).wf(),
        ensures
            final(self).wf(),
            final(self).rules() == old(self).rules(),
            final(self).state() == replay(old(self).state(), action_events(*a), old(self).rules()),
            final(self).history() == old(self).history() + recorded(
                old(self).state(),
                action_events(*a),
                old(self).rules(),
            ),
    {
        let events = events_of(a);
        let ghost s0 = self.state();
        let ghost h0 = self.history();
        let mut k: usize = 0;
        assert(events@.subrange(0, 0) =~= Seq::<Event>::empty());
        assert(h0 + recorded(s0, Seq::<Event>::empty(), self.rules()) =~= h0);
        while k < events.len()
            invariant
                self.wf(),
                self.rules() == old(self).rules(),
                s0 == old(self).state(),
                h0 == old(self).history(),
                events@ == action_events(*a),
                k <= events@.len(),
                self.state() == replay(s0, events@.subrange(0, k as int), self.rules()),
                self.history() == h0 + recorded(s0, events@.subrange(0, k as int), self.rules()),
            decreases events@.len() - k,
        {
            assert(events@.subrange(0, k as int + 1).drop_last() =~= events@.subrange(0, k as int));
            let ghost h1 = self.history();
            let ok = self.handle_event(events[k].duplicate());
            if ok {
                assert(self.history() =~= h0 + recorded(s0, events@.subrange(0, k as int + 1), self.rules()));
            } else {
                assert(self.history() =~= h0 + recorded(s0, events@.subrange(0, k as int + 1), self.rules()));
            }
            k += 1;
        }
        assert(events@.subrange(0, events@.len() as int) =~= events@);
    }

    /// Applies the events that a record action stands for to the board and
    /// the turn, in order, without recording them: the step of replaying a
    /// record. Refused events change nothing.
    pub fn do_action(&mut self, a: &Action)
        requires
            old(self).sound(),
        ensures
            final(self).sound(),
            final(self).rules() == old(self).rules(),
            final(self).history() == old(self).history(),
            final(self).path() == old(self).path(),
            final(self).initial() == old(self).initial(),
            final(self).state() == replay(old(self).state(), action_events(*a), old(self).rules()),
    {
        let events = events_of(a);
        let ghost s0 = self.state();
        let mut k: usize = 0;
        assert(events@.subrange(0, 0) =~= Seq::<Event>::empty());
        while k < events.len()
            invariant
                self.board.wf(),
                self.tree == old(self).tree,
                self.rules == old(self).rules,
                self.size == old(self).size,
                self.initial_turn == old(self).initial_turn,
                s0 == old(self).state(),
                events@ == action_events(*a),
                k <= events@.len(),
                self.state() == replay(s0, events@.subrange(0, k as int), self.rules),
            decreases events@.len() - k,
        {
            assert(events@.subrange(0, k as int + 1).drop_last() =~= events@.subrange(0, k as int));
            self.apply(&events[k]);
            k += 1;
        }
        assert(events@.subrange(0, events@.len() as int) =~= events@);
    }

    /// A game whose live state is its replayed history has well-formed parts.
    pub proof fn lemma_wf_is_sound(&self)
        requires
            self.wf(),
        ensures
            self.sound(),
    {
    }

    /// Takes back the last recorded event and rebuilds the board; nothing
    /// happens at the start of the game.
    pub fn undo(&mut self) -> (r: Option<Event>)
        requires
            old(self).wf(),
        ensures
            final(self).wf(),
            final(self).rules() == old(self).rules(),
            old(self).history().len() == 0 ==> r is None && final(self).path() == old(self).path()
                && final(self).state() == old(self).state(),
            old(self).history().len() > 0 ==> r == Some(old(self).history().last()) && final(self).history()
                == old(self).history().drop_last() && final(self).path() == old(self).path().drop_last(),
    {
        proof {
            self.tree.lemma_history_len();
        }
        let r = self.tree.pop();
        if r.is_some() {
            self.do_to_now();
        }
        r
    }

    /// Moves to the parent event and rebuilds the board; nothing happens at
    /// the start of the game.
    pub fn move_to_parent(&mut self)
        requires
            old(self).wf(),
        ensures
            final(self).wf(),
            final(self).rules() == old(self).rules(),
            old(self).path().len() == 0 ==> final(self).path() == old(self).path() && final(self).history()
                == old(self).history() && final(self).state() == old(self).state(),
            old(self).path().len() > 0 ==> final(self).path() == old(self).path().drop_last() && final(self).history()
                == old(self).history().drop_last(),
    {
        self.tree.move_to_parent();
        self.do_to_now();
    }

    /// Moves to the first following event and rebuilds the board; nothing
    /// happens at the end of a line.
    pub fn move_to_first_child(&mut self)
        requires
            old(self).wf(),
        ensures
            final(self).wf(),
            final(self).rules() == old(self).rules(),
            old(self).child_events().len() == 0 ==> final(self).path() == old(self).path() && final(self).history()
                == old(self).history() && final(self).state() == old(self).state(),
            old(self).child_events().len() > 0 ==> final(self).path() == old(self).path().push(0)
                && final(self).history() == old(self).history().push(old(self).child_events()[0]),
    {
        self.tree.move_to_first_child();
        self.do_to_now();
    }

    /// Moves to the previous variation and rebuilds the board; nothing
    /// happens on the first one.
    pub fn move_to_last_sibling(&mut self)
        requires
            old(self).wf(),
        ensures
            final(self).wf(),
            final(self).rules() == old(self).rules(),
            old(self).path().len() == 0 || old(self).path().last() == 0 ==> final(self).path() == old(self).path()
                && final(self).history() == old(self).history() && final(self).state() == old(self).state(),
            old(self).path().len() > 0 && old(self).path().last() > 0 ==> {
                let m = old(self).path().len() - 1;
                let l = old(self).path().last();
                &&& final(self).path() == old(self).path().update(m, (l - 1) as usize)
                &&& final(self).history() == old(self).history().update(m, old(self).sibling_events()[l - 1])
            },
    {
        self.tree.move_to_last_sibling();
        self.do_to_now();
    }

    /// Moves to the next variation and rebuilds the board; nothing happens
    /// on the last one.
    pub fn move_to_next_sibling(&mut self)
        requires
            old(self).wf(),
        ensures
            final(self).wf(),
            final(self).rules() == old(self).rules(),
            old(self).path().len() == 0 || old(self).path().last() + 1 >= old(self).sibling_events().len()
                ==> final(self).path() == old(self).path() && final(self).history() == old(self).history()
                && final(self).state() == old(self).state(),
            old(self).path().len() > 0 && old(self).path().last() + 1 < old(self).sibling_events().len() ==> {
                let m = old(self).path().len() - 1;
                let l = old(self).path().last();
                &&& final(self).path() == old(self).path().update(m, (l + 1) as usize)
                &&& final(self).path()[m] == l + 1
                &&& final(self).history() == old(self).history().update(m, old(self).sibling_events()[l + 1])
            },
    {
        self.tree.move_to_next_sibling();
        self.do_to_now();
    }

    /// Whether the game is over: the last event is a resignation, or the
    /// last two are passes.
    pub fn ended(&self) -> (r: bool)
        requires
            self.wf(),
        ensures
            r == is_over(self.history()),
    {
        let h = self.tree.get_history();
        let n = h.len();
        if n >= 1 && matches!(h[n - 1], Event::Resign(_)) {
            return true;
        }
        n >= 2 && matches!(h[n - 1], Event::Pass) && matches!(h[n - 2], Event::Pass)
    }
}

/// Replaying the history onto an empty board gives back the live board's
/// stones and tallies exactly, and the player to move.
pub proof fn lemma_replay_reproduces(g: &Game)
    requires
        g.wf(),
    ensures
        g.initial().board == blank_state(g.dims().0, g.dims().1),
        g.initial().result == EndGame::NotOver,
        replay(g.initial(), g.history(), g.rules()) == g.state(),
        replay(g.initial(), g.history(), g.rules()).board.stones == g.state().board.stones,
        replay(g.initial(), g.history(), g.rules()).board.black_captured == g.state().board.black_captured,
        replay(g.initial(), g.history(), g.rules()).board.white_captured == g.state().board.white_captured,
{
}

/// How to set up a new game.
pub struct GameBuilder {
    pub size: (usize, usize),
    pub rules: Rules,
}

impl Default for GameBuilder {
    /// A 19 by 19 board under Japanese rules.
    fn default() -> (r: GameBuilder)
        ensures
            r.size == (19usize, 19usize),
            r.rules == Rules::japanese_spec(),
    {
        GameBuilder { size: (19, 19), rules: Rules::japanese() }
    }
}

impl GameBuilder {
    /// A new game with an empty board of the chosen size, Black to move.
    pub fn build(&self) -> (r: Game)
        requires
            self.size.0 * self.size.1 <= usize::MAX,
        ensures
            r.wf(),
            r.history().len() == 0,
            r.rules() == self.rules,
            r.state() == (GameState {
                board: blank_state(self.size.0 as nat, self.size.1 as nat),
                turn: Stone::Black,
                result: EndGame::NotOver,
            }),
    {
        Game::new(self.size.0, self.size.1, self.rules)
    }
}

} // verus!
