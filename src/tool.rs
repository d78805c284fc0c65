use crate::action::{decimal, Action, ActionView};
use crate::board::{same_markup, index_of, lemma_play_keeps_size, play_result, Board, BoardState, Markup, Point, Stone};
use crate::coord::push_char;
use crate::rules::Rules;
use crate::util::next_letter;
use vstd::prelude::*;

verus! {

/// What a click on the board does.
#[derive(Clone, Copy, PartialEq, Eq, Debug, Structural)]
pub enum ToolType {
    /// Place alternating black and white stones.
    Play,
    Circle,
    Cross,
    Square,
    Triangle,
    Dim,
    Arrow,
    Line,
    Number,
    Letter,
}

/// The editing tool in use, with what it needs between clicks.
#[derive(Clone, Copy, PartialEq, Eq, Debug)]
pub struct UiTool {
    pub tool: ToolType,
    /// The first end of a line or arrow, once it is placed and until the
    /// other is.
    pub base: Option<Point>,
    pub letter: char,
    pub number: u8,
}

/// `b` with markup `m` put at `p`, and whether that changed the mark there.
pub open spec fn marked(b: BoardState, p: Point, m: Markup) -> (bool, BoardState) {
    let i = index_of(b.width, p);
    if !same_markup(b.markup[i], m) {
        (true, BoardState { markup: b.markup.update(i, m), ..b })
    } else {
        (false, b)
    }
}

impl UiTool {
    /// A half-placed line or arrow starts on the board.
    pub open spec fn ready(&self, b: BoardState) -> bool {
        self.base is Some ==> (self.base->0).0 < b.width && (self.base->0).1 < b.height
    }

    /// Acts on a click at `(x, y)`: plays for the player to move, or puts
    /// down markup, and returns the record action for what changed
    /// (`NoOp` when nothing did). A line or arrow takes two clicks, the
    /// first of which only remembers its point.
    pub fn click(&mut self, board: &mut Board, turn: &mut Stone, x: usize, y: usize, rules: Rules) -> (r: Action)
        requires
            old(board).wf(),
            old(board)@.has_room(),
            old(board).on_board(x, y),
            *old(turn) != Stone::Empty,
            old(self).ready(old(board)@),
            old(self).tool == ToolType::Number ==> old(self).number < 255,
        ensures
            final(board).wf(),
            final(self).tool == old(self).tool,
            final(self).ready(final(board)@),
            old(self).tool != ToolType::Play ==> *final(turn) == *old(turn),
            old(self).tool == ToolType::Play ==> match play_result(old(board)@, *old(turn), x, y, rules) {
                Some(b2) => final(board)@ == b2 && *final(turn) == old(turn).opposite() && r@ == (if *old(turn)
                    == Stone::Black {
                    ActionView::PlayBlack(x, y)
                } else {
                    ActionView::PlayWhite(x, y)
                }) && *final(self) == *old(self),
                None => final(board)@ == old(board)@ && *final(turn) == *old(turn) && r@ == ActionView::NoOp
                    && *final(self) == *old(self),
            },
            old(self).tool is Circle || old(self).tool is Cross || old(self).tool is Square || old(self).tool is Triangle
                || old(self).tool is Dim ==> {
                let m = match old(self).tool {
                    ToolType::Circle => Markup::Circle,
                    ToolType::Cross => Markup::Cross,
                    ToolType::Square => Markup::Square,
                    ToolType::Triangle => Markup::Triangle,
                    _ => Markup::Dim,
                };
                let at: Point = (x, y);
                let (changed, b2) = marked(old(board)@, at, m);
                &&& final(board)@ == b2
                &&& *final(self) == *old(self)
                &&& r@ == if !changed {
                    ActionView::NoOp
                } else {
                    match old(self).tool {
                        ToolType::Circle => ActionView::Circle(seq![at]),
                        ToolType::Cross => ActionView::Cross(seq![at]),
                        ToolType::Square => ActionView::Square(seq![at]),
                        ToolType::Triangle => ActionView::Triangle(seq![at]),
                        _ => ActionView::Dim(seq![at]),
                    }
                }
            },
            (old(self).tool is Arrow || old(self).tool is Line) && old(self).base is None ==> final(board)@ == old(
                board,
            )@ && r@ == ActionView::NoOp && *final(self) == (UiTool { base: Some((x, y)), ..*old(self) }),
            (old(self).tool is Arrow || old(self).tool is Line) && old(self).base is Some ==> {
                let s = old(self).base->0;
                let arrow = old(self).tool is Arrow;
                let m = if arrow {
                    Markup::Arrow(x, y)
                } else {
                    Markup::Line(x, y)
                };
                let (changed, b2) = marked(old(board)@, s, m);
                &&& final(board)@ == b2
                &&& *final(self) == (UiTool { base: None, ..*old(self) })
                &&& r@ == if !changed {
                    ActionView::NoOp
                } else if arrow {
                    ActionView::Arrow(seq![[s, (x, y)]])
                } else {
                    ActionView::Line(seq![[s, (x, y)]])
                }
            },
            old(self).tool is Number || old(self).tool is Letter ==> {
                let b = old(board)@;
                let i = index_of(b.width, (x, y));
                let number = old(self).tool is Number;
                let text = if number {
                    decimal(old(self).number as nat)
                } else {
                    seq![old(self).letter]
                };
                let changed = !(b.markup[i] is Label && b.markup[i]->Label_0@ == text);
                &&& changed ==> final(board)@ == (BoardState { markup: b.markup.update(i, final(board)@.markup[i]), ..b })
                &&& !changed ==> final(board)@ == b
                &&& changed ==> final(board)@.markup[i] is Label && final(board)@.markup[i]->Label_0@ == text
                &&& r@ == if changed {
                    ActionView::Label(seq![(x, y, text)])
                } else {
                    ActionView::NoOp
                }
                &&& !changed ==> *final(self) == *old(self)
                &&& changed && number ==> *final(self) == (UiTool { number: (old(self).number + 1) as u8, ..*old(self) })
                &&& changed && !number ==> final(self).tool == old(self).tool && final(self).base == old(self).base
                    && final(self).number == old(self).number
                &&& changed && !number && old(self).letter as u32 + 1 > 90 ==> final(self).letter == 'A'
                &&& changed && !number && old(self).letter as u32 + 1 <= 90 ==> final(self).letter as u32
                    == old(self).letter as u32 + 1
            },
    {
        match self.tool {
            ToolType::Play => {
                let t = *turn;
                let ghost b0 = board@;
                if board.attempt_set(x, y, t, rules) {
                    proof {
                        lemma_play_keeps_size(b0, t, x, y, rules);
                    }
                    *turn = t.not();
                    if t == Stone::Black {
                        Action::PlayBlack(x, y)
                    } else {
                        Action::PlayWhite(x, y)
                    }
                } else {
                    Action::NoOp
                }
            },
            ToolType::Circle | ToolType::Cross | ToolType::Square | ToolType::Triangle | ToolType::Dim => {
                let m = match self.tool {
                    ToolType::Circle => Markup::Circle,
                    ToolType::Cross => Markup::Cross,
                    ToolType::Square => Markup::Square,
                    ToolType::Triangle => Markup::Triangle,
                    _ => Markup::Dim,
                };
                if !board.set_markup(x, y, m) {
                    return Action::NoOp;
                }
                let pts = vec![(x, y)];
                assert(pts@ =~= seq![(x, y)]);
                match self.tool {
                    ToolType::Circle => Action::Circle(pts),
                    ToolType::Cross => Action::Cross(pts),
                    ToolType::Square => Action::Square(pts),
                    ToolType::Triangle => Action::Triangle(pts),
                    _ => Action::Dim(pts),
                }
            },
            ToolType::Arrow | ToolType::Line => {
                match self.base {
                    None => {
                        self.base = Some((x, y));
                        Action::NoOp
                    },
                    Some((sx, sy)) => {
                        self.base = None;
                        let arrow = self.tool == ToolType::Arrow;
                        let m = if arrow {
                            Markup::Arrow(x, y)
                        } else {
                            Markup::Line(x, y)
                        };
                        if !board.set_markup(sx, sy, m) {
                            return Action::NoOp;
                        }
                        let pts = vec![[(sx, sy), (x, y)]];
                        assert(pts@ =~= seq![[(sx, sy), (x, y)]]);
                        if arrow {
                            Action::Arrow(pts)
                        } else {
                            Action::Line(pts)
                        }
                    },
                }
            },
            ToolType::Number | ToolType::Letter => {
                let number = self.tool == ToolType::Number;
                let mut text = String::new();
                if number {
                    crate::action::write_decimal(&mut text, self.number as usize);
                } else {
                    push_char(&mut text, self.letter);
                }
                assert(text@ =~= if number { decimal(self.number as nat) } else { seq![self.letter] });
                let ghost b0 = board@;
                let ghost i = index_of(b0.width, (x, y));
                proof {
                    crate::board::lemma_index_in_range(b0.width, b0.height, (x, y));
                }
                let label = Markup::Label(text.clone());
                if !board.set_markup(x, y, label) {
                    return Action::NoOp;
                }
                assert(board@.markup[i] == label);
                if number {
                    self.number = self.number + 1;
                } else {
                    self.letter = next_letter(self.letter);
                }
                let labels = vec![(x, y, text)];
                let r = Action::Label(labels);
                assert(crate::action::labels_view(labels@) =~= seq![(x, y, text@)]);
                r
            },
        }
    }

    /// Forgets a half-placed line or arrow and restarts numbering and
    /// lettering.
    pub fn clear(&mut self)
        ensures
            final(self).tool == old(self).tool,
            final(self).base is None,
            final(self).number == 1,
            final(self).letter == 'A',
    {
        self.base = None;
        self.number = 1;
        self.letter = 'A';
    }
}

} // verus!
