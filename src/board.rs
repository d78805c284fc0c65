use crate::group::{find_group, has_liberty, in_group, lemma_in_group_member, liberty, Group};
use crate::rules::Rules;
use crate::util::{calculate_hash, position_hash};
use vstd::prelude::*;

verus! {

/// The content of one intersection of a board.
#[derive(Clone, Copy, PartialEq, Eq, Debug, Hash, Structural)]
pub enum Stone {
    Empty,
    Black,
    White,
}

impl Stone {
    /// The other color; `Empty` stays `Empty`.
    pub open spec fn opposite(self) -> Stone {
        match self {
            Stone::Black => Stone::White,
            Stone::White => Stone::Black,
            Stone::Empty => Stone::Empty,
        }
    }

    /// Swaps Black and White and keeps `Empty`.
    pub fn not(self) -> (r: Stone)
        ensures
            r == self.opposite(),
    {
        match self {
            Stone::Black => Stone::White,
            Stone::White => Stone::Black,
            Stone::Empty => Stone::Empty,
        }
    }
}


/// A point `(x, y)` on a board; `(0, 0)` is the top left.
pub type Point = (usize, usize);

/// Position of a point in a row-major grid of width `w`.
pub open spec fn index_of(w: nat, p: Point) -> int {
    p.1 * w + p.0
}

pub open spec fn in_bounds(w: nat, h: nat, p: Point) -> bool {
    p.0 < w && p.1 < h
}

/// The stone at `p` in a row-major grid of width `w`.
pub open spec fn cell(stones: Seq<Stone>, w: nat, p: Point) -> Stone {
    stones[index_of(w, p)]
}

/// Orthogonal neighbours, without wrap-around.
pub open spec fn adjacent(p: Point, q: Point) -> bool {
    ||| p.0 == q.0 && (p.1 + 1 == q.1 || q.1 + 1 == p.1)
    ||| p.1 == q.1 && (p.0 + 1 == q.0 || q.0 + 1 == p.0)
}

pub proof fn lemma_index_in_range(w: nat, h: nat, p: Point)
    requires
        in_bounds(w, h, p),
    ensures
        0 <= p.1 * w <= index_of(w, p) < w * h,
{
    let x = p.0 as int;
    let y = p.1 as int;
    assert(0 <= y * w && y * w + x < w * h) by (nonlinear_arith)
        requires
            0 <= x < w,
            0 <= y < h,
    ;
}

pub proof fn lemma_index_injective(w: nat, p: Point, q: Point)
    requires
        p.0 < w,
        q.0 < w,
        p != q,
    ensures
        index_of(w, p) != index_of(w, q),
{
    let (x1, y1) = (p.0 as int, p.1 as int);
    let (x2, y2) = (q.0 as int, q.1 as int);
    if y1 == y2 {
    } else if y1 < y2 {
        assert(y1 * w + x1 < y2 * w + x2) by (nonlinear_arith)
            requires
                0 <= x1 < w,
                0 <= x2,
                y1 < y2,
        ;
    } else {
        assert(y2 * w + x2 < y1 * w + x1) by (nonlinear_arith)
            requires
                0 <= x2 < w,
                0 <= x1,
                y2 < y1,
        ;
    }
}

/// The point of position `i` in a row-major grid of width `w`.
pub open spec fn point_at(w: nat, i: int) -> Point {
    ((i % (w as int)) as usize, (i / (w as int)) as usize)
}

pub proof fn lemma_point_at(w: nat, h: nat, i: int)
    requires
        0 <= i < w * h,
        w * h <= usize::MAX,
    ensures
        in_bounds(w, h, point_at(w, i)),
        index_of(w, point_at(w, i)) == i,
{
    if w == 0 {
        assert(w * h == 0);
    }
    let wi = w as int;
    vstd::arithmetic::div_mod::lemma_fundamental_div_mod(i, wi);
    vstd::arithmetic::div_mod::lemma_mod_pos_bound(i, wi);
    vstd::arithmetic::div_mod::lemma_div_pos_is_pos(i, wi);
    let q = i / wi;
    let r = i % wi;
    assert(q < h) by (nonlinear_arith)
        requires
            i == wi * q + r,
            0 <= r,
            i < wi * h,
            wi > 0,
    ;
    assert(q * wi + r == i) by (nonlinear_arith)
        requires
            i == wi * q + r,
    ;
    assert(q <= i) by (nonlinear_arith)
        requires
            i == wi * q + r,
            0 <= r,
            wi > 0,
            q >= 0,
    ;
}

pub proof fn lemma_index_point(w: nat, p: Point)
    requires
        p.0 < w,
    ensures
        point_at(w, index_of(w, p)) == p,
{
    vstd::arithmetic::div_mod::lemma_fundamental_div_mod_converse(index_of(w, p), w as int, p.1 as int, p.0 as int);
}

/// `st` with every stone of colour `c` on a point that `gone` holds taken off.
pub open spec fn cleared(st: Seq<Stone>, w: nat, gone: spec_fn(Point) -> bool, c: Stone) -> Seq<Stone> {
    Seq::new(st.len(), |i: int| if gone(point_at(w, i)) && st[i] == c { Stone::Empty } else { st[i] })
}

/// How many points held colour `c` in `a` and are empty in `b`.
pub open spec fn count_removed(a: Seq<Stone>, b: Seq<Stone>, c: Stone) -> nat
    decreases a.len(),
{
    if a.len() == 0 {
        0
    } else {
        count_removed(a.drop_last(), b.drop_last(), c) + if a.last() == c && b[a.len() - 1] == Stone::Empty {
            1nat
        } else {
            0nat
        }
    }
}

pub proof fn lemma_count_removed_update(a: Seq<Stone>, b: Seq<Stone>, c: Stone, i: int)
    requires
        a.len() == b.len(),
        0 <= i < a.len(),
        a[i] == c,
        b[i] == c,
        c != Stone::Empty,
    ensures
        count_removed(a, b.update(i, Stone::Empty), c) == count_removed(a, b, c) + 1,
    decreases a.len(),
{
    let b2 = b.update(i, Stone::Empty);
    if i == a.len() - 1 {
        assert(b2.drop_last() =~= b.drop_last());
    } else {
        assert(b2.drop_last() =~= b.drop_last().update(i, Stone::Empty));
        lemma_count_removed_update(a.drop_last(), b.drop_last(), c, i);
    }
}

pub proof fn lemma_count_removed_none(a: Seq<Stone>, c: Stone)
    requires
        c != Stone::Empty,
    ensures
        count_removed(a, a, c) == 0,
    decreases a.len(),
{
    if a.len() > 0 {
        lemma_count_removed_none(a.drop_last(), c);
    }
}

pub proof fn lemma_count_removed_bound(a: Seq<Stone>, b: Seq<Stone>, c: Stone)
    ensures
        count_removed(a, b, c) <= a.len(),
    decreases a.len(),
{
    if a.len() > 0 {
        lemma_count_removed_bound(a.drop_last(), b.drop_last(), c);
    }
}

/// A mark drawn on an intersection.
#[derive(Clone, PartialEq, Eq, Debug)]
pub enum Markup {
    Empty,
    Circle,
    Cross,
    Square,
    Triangle,
    Dim,
    Label(String),
    /// The point is the far end of the arrow.
    Arrow(usize, usize),
    Line(usize, usize),
}

impl Markup {
    /// A copy that is equal to `self`.
    pub fn duplicate(&self) -> (r: Markup)
        ensures
            r == *self,
    {
        match self {
            Markup::Empty => Markup::Empty,
            Markup::Circle => Markup::Circle,
            Markup::Cross => Markup::Cross,
            Markup::Square => Markup::Square,
            Markup::Triangle => Markup::Triangle,
            Markup::Dim => Markup::Dim,
            Markup::Label(s) => Markup::Label(s.clone()),
            Markup::Arrow(x, y) => Markup::Arrow(*x, *y),
            Markup::Line(x, y) => Markup::Line(*x, *y),
        }
    }

    /// Whether two marks are the same mark, label texts compared by their
    /// characters.
    pub fn same(&self, o: &Markup) -> (r: bool)
        ensures
            r == same_markup(*self, *o),
    {
        match (self, o) {
            (Markup::Empty, Markup::Empty) => true,
            (Markup::Circle, Markup::Circle) => true,
            (Markup::Cross, Markup::Cross) => true,
            (Markup::Square, Markup::Square) => true,
            (Markup::Triangle, Markup::Triangle) => true,
            (Markup::Dim, Markup::Dim) => true,
            (Markup::Label(a), Markup::Label(b)) => crate::coord::same_text(a.as_str(), b.as_str()),
            (Markup::Arrow(a, b), Markup::Arrow(c, d)) => *a == *c && *b == *d,
            (Markup::Line(a, b), Markup::Line(c, d)) => *a == *c && *b == *d,
            _ => false,
        }
    }

    pub fn is_empty(&self) -> (r: bool)
        ensures
            r == (*self is Empty),
    {
        match self {
            Markup::Empty => true,
            _ => false,
        }
    }
}

/// Two marks are the same mark; labels are compared by their text.
pub open spec fn same_markup(a: Markup, b: Markup) -> bool {
    match (a, b) {
        (Markup::Label(s), Markup::Label(t)) => s@ == t@,
        _ => a == b,
    }
}

/// What a board holds, as mathematical values.
pub struct BoardState {
    pub width: nat,
    pub height: nat,
    pub stones: Seq<Stone>,
    pub markup: Seq<Markup>,
    /// Black stones removed from the board by capture.
    pub black_captured: nat,
    /// White stones removed from the board by capture.
    pub white_captured: nat,
    /// The position hash after each accepted play, oldest first.
    pub hashes: Seq<u64>,
}

/// The state of a go board at a point in time.
pub struct Board {
    stones: Vec<Stone>,
    markup: Vec<Markup>,
    size: (usize, usize),
    black_captured: usize,
    white_captured: usize,
    hashes: Vec<u64>,
}

impl View for Board {
    type V = BoardState;

    closed spec fn view(&self) -> BoardState {
        BoardState {
            width: self.size.0 as nat,
            height: self.size.1 as nat,
            stones: self.stones@,
            markup: self.markup@,
            black_captured: self.black_captured as nat,
            white_captured: self.white_captured as nat,
            hashes: self.hashes@,
        }
    }
}

pub open spec fn empty_stones(n: nat) -> Seq<Stone> {
    Seq::new(n, |i: int| Stone::Empty)
}

pub open spec fn empty_markup(n: nat) -> Seq<Markup> {
    Seq::new(n, |i: int| Markup::Empty)
}

impl BoardState {
    /// The grids have one entry per intersection, and the size fits a `usize`.
    pub open spec fn wf(&self) -> bool {
        &&& self.stones.len() == self.width * self.height
        &&& self.markup.len() == self.width * self.height
        &&& self.width <= usize::MAX
        &&& self.height <= usize::MAX
        &&& self.width * self.height <= usize::MAX
    }
}

impl BoardState {
    /// `self` with all markup removed.
    pub open spec fn without_markup(self) -> BoardState {
        BoardState { markup: empty_markup(self.stones.len()), ..self }
    }

    /// Each tally can take every stone of the board once more.
    pub open spec fn has_room(&self) -> bool {
        &&& self.room_for(Stone::Black)
        &&& self.room_for(Stone::White)
    }

    /// The tally of colour `c` can take every stone of the board once more.
    pub open spec fn room_for(&self, c: Stone) -> bool {
        &&& c == Stone::Black ==> self.black_captured + self.stones.len() <= usize::MAX
        &&& c == Stone::White ==> self.white_captured + self.stones.len() <= usize::MAX
    }

    /// `self` with `n` more stones of colour `c` counted as captured.
    pub open spec fn add_captured(self, c: Stone, n: nat) -> BoardState {
        if c == Stone::Black {
            BoardState { black_captured: self.black_captured + n, ..self }
        } else if c == Stone::White {
            BoardState { white_captured: self.white_captured + n, ..self }
        } else {
            self
        }
    }
}

/// A neighbour of `at` that holds the other colour and whose group has no
/// liberty.
pub open spec fn dead_neighbor(st: Seq<Stone>, w: nat, h: nat, c: Stone, at: Point, n: Point) -> bool {
    &&& in_bounds(w, h, n)
    &&& adjacent(at, n)
    &&& cell(st, w, n) == c.opposite()
    &&& !has_liberty(st, w, h, c.opposite(), n)
}

/// `p` is in the group of a dead neighbour of `at`.
pub open spec fn captured_at(st: Seq<Stone>, w: nat, h: nat, c: Stone, at: Point, p: Point) -> bool {
    exists|n: Point| #[trigger] dead_neighbor(st, w, h, c, at, n) && in_group(st, w, h, c.opposite(), n, p)
}

/// The outcome of `c` playing at `(x, y)`: `None` when the move is refused,
/// else the board after it.
pub open spec fn play_result(b: BoardState, c: Stone, x: usize, y: usize, rules: Rules) -> Option<BoardState> {
    let w = b.width;
    let h = b.height;
    let at: Point = (x, y);
    if !in_bounds(w, h, at) || cell(b.stones, w, at) != Stone::Empty {
        None
    } else {
        let s1 = b.stones.update(index_of(w, at), c);
        let s2 = cleared(s1, w, |p: Point| captured_at(s1, w, h, c, at, p), c.opposite());
        let suicide = !has_liberty(s2, w, h, c, at);
        if suicide && !rules.suicide_allowed {
            None
        } else {
            let s3 = if suicide { cleared(s2, w, |p: Point| in_group(s2, w, h, c, at, p), c) } else { s2 };
            let hash = position_hash(s3);
            let n = b.hashes.len();
            if (n >= 2 && b.hashes[n - 2] == hash) || (rules.superko && b.hashes.contains(hash)) {
                None
            } else {
                Some(
                    BoardState { stones: s3, hashes: b.hashes.push(hash), ..b }.add_captured(
                        c.opposite(),
                        count_removed(s1, s2, c.opposite()),
                    ).add_captured(c, if suicide { count_removed(s2, s3, c) } else { 0 }),
                )
            }
        }
    }
}

/// The positions below `n` that held colour `c` in `a` and are empty in `b`.
pub open spec fn removed_positions(a: Seq<Stone>, b: Seq<Stone>, c: Stone, n: int) -> Set<int> {
    Set::new(|i: int| 0 <= i < n && a[i] == c && b[i] == Stone::Empty)
}

proof fn lemma_count_removed_is_size(a: Seq<Stone>, b: Seq<Stone>, c: Stone)
    requires
        a.len() == b.len(),
    ensures
        removed_positions(a, b, c, a.len() as int).finite(),
        removed_positions(a, b, c, a.len() as int).len() == count_removed(a, b, c),
    decreases a.len(),
{
    let n = a.len() as int;
    let r = removed_positions(a, b, c, n);
    vstd::set_lib::lemma_int_range(0, n);
    vstd::set_lib::lemma_len_subset(r, vstd::set_lib::set_int_range(0, n));
    if n > 0 {
        let a0 = a.drop_last();
        let b0 = b.drop_last();
        lemma_count_removed_is_size(a0, b0, c);
        let r0 = removed_positions(a0, b0, c, n - 1);
        if a[n - 1] == c && b[n - 1] == Stone::Empty {
            assert(r =~= r0.insert(n - 1));
        } else {
            assert(r =~= r0);
        }
    }
}

/// Clearing distinct on-board points that all hold `c` takes off one stone
/// for each of them.
pub proof fn lemma_cleared_count(a: Seq<Stone>, w: nat, h: nat, pts: Seq<Point>, c: Stone)
    requires
        a.len() == w * h,
        w * h <= usize::MAX,
        c != Stone::Empty,
        pts.no_duplicates(),
        forall|i: int| 0 <= i < pts.len() ==> in_bounds(w, h, #[trigger] pts[i]) && cell(a, w, pts[i]) == c,
    ensures
        count_removed(a, cleared(a, w, |p: Point| pts.contains(p), c), c) == pts.len(),
{
    let b = cleared(a, w, |p: Point| pts.contains(p), c);
    let k = pts.to_set();
    let idx = removed_positions(a, b, c, a.len() as int);
    lemma_count_removed_is_size(a, b, c);
    pts.unique_seq_to_set();
    assert forall|i: int| #[trigger] idx.contains(i) implies k.contains(point_at(w, i)) by {
        lemma_point_at(w, h, i);
    }
    assert forall|p: Point| #[trigger] k.contains(p) implies idx.contains(index_of(w, p)) && point_at(w, index_of(w, p)) == p by {
        let j = choose|j: int| 0 <= j < pts.len() && pts[j] == p;
        lemma_index_in_range(w, h, p);
        lemma_index_point(w, p);
    }
    assert(idx.map(|i: int| point_at(w, i)) =~= k) by {
        assert forall|p: Point| k.contains(p) implies idx.map(|i: int| point_at(w, i)).contains(p) by {
            assert(idx.contains(index_of(w, p)));
        }
    }
    assert(vstd::relations::injective_on(|i: int| point_at(w, i), idx)) by {
        assert forall|i: int, j: int| idx.contains(i) && idx.contains(j) && #[trigger] point_at(w, i) == #[trigger] point_at(w, j) implies i == j by {
            lemma_point_at(w, h, i);
            lemma_point_at(w, h, j);
        }
    }
    vstd::set_lib::lemma_map_size(idx, k, |i: int| point_at(w, i));
}

/// The points that a play at `(x, y)` captures.
pub open spec fn captured_points(st: Seq<Stone>, w: nat, h: nat, c: Stone, at: Point) -> Set<Point> {
    Set::new(|p: Point| captured_at(st, w, h, c, at, p))
}

/// After an accepted play every point of a captured group is empty, and the
/// opponent's tally grows by exactly the number of points captured.
pub proof fn lemma_capture_correct(b: BoardState, c: Stone, x: usize, y: usize, rules: Rules, after: BoardState)
    requires
        b.wf(),
        c != Stone::Empty,
        play_result(b, c, x, y, rules) == Some(after),
    ensures
        ({
            let s1 = b.stones.update(index_of(b.width, (x, y)), c);
            let s2 = cleared(s1, b.width, |p: Point| captured_at(s1, b.width, b.height, c, (x, y), p), c.opposite());
            &&& forall|p: Point|
                #[trigger] captured_at(s1, b.width, b.height, c, (x, y), p) ==> cell(after.stones, b.width, p)
                    == Stone::Empty
            &&& c == Stone::Black ==> after.white_captured == b.white_captured + count_removed(s1, s2, Stone::White)
            &&& c == Stone::White ==> after.black_captured == b.black_captured + count_removed(s1, s2, Stone::Black)
            &&& captured_points(s1, b.width, b.height, c, (x, y)).finite()
            &&& count_removed(s1, s2, c.opposite()) == captured_points(s1, b.width, b.height, c, (x, y)).len()
        }),
{
    let w = b.width;
    let h = b.height;
    let at: Point = (x, y);
    let s1 = b.stones.update(index_of(w, at), c);
    let s2 = cleared(s1, w, |p: Point| captured_at(s1, w, h, c, at, p), c.opposite());
    lemma_index_in_range(w, h, at);
    let k = captured_points(s1, w, h, c, at);
    let idx = removed_positions(s1, s2, c.opposite(), s1.len() as int);
    lemma_count_removed_is_size(s1, s2, c.opposite());
    assert forall|i: int| #[trigger] idx.contains(i) implies k.contains(point_at(w, i)) && index_of(w, point_at(w, i)) == i by {
        lemma_point_at(w, h, i);
    }
    assert forall|p: Point| #[trigger] k.contains(p) implies idx.contains(index_of(w, p)) && point_at(w, index_of(w, p)) == p by {
        let n = choose|n: Point| #[trigger] dead_neighbor(s1, w, h, c, at, n) && in_group(s1, w, h, c.opposite(), n, p);
        lemma_in_group_member(s1, w, h, c.opposite(), n, p);
        lemma_index_in_range(w, h, p);
        lemma_index_point(w, p);
        assert(captured_at(s1, w, h, c, at, point_at(w, index_of(w, p))));
    }
    assert(idx.map(|i: int| point_at(w, i)) =~= k) by {
        assert forall|p: Point| k.contains(p) implies idx.map(|i: int| point_at(w, i)).contains(p) by {
            assert(idx.contains(index_of(w, p)));
        }
    }
    assert(vstd::relations::injective_on(|i: int| point_at(w, i), idx)) by {
        assert forall|i: int, j: int| idx.contains(i) && idx.contains(j) && #[trigger] point_at(w, i) == #[trigger] point_at(w, j) implies i == j by {
            lemma_point_at(w, h, i);
            lemma_point_at(w, h, j);
        }
    }
    vstd::set_lib::lemma_map_size(idx, k, |i: int| point_at(w, i));
    assert forall|p: Point| #[trigger] captured_at(s1, w, h, c, at, p) implies cell(after.stones, w, p) == Stone::Empty by {
        let n = choose|n: Point| #[trigger] dead_neighbor(s1, w, h, c, at, n) && in_group(s1, w, h, c.opposite(), n, p);
        lemma_in_group_member(s1, w, h, c.opposite(), n, p);
        lemma_index_in_range(w, h, p);
        lemma_index_point(w, p);
        assert(point_at(w, index_of(w, p)) == p);
        assert(cell(s1, w, p) == c.opposite());
        assert(captured_at(s1, w, h, c, at, point_at(w, index_of(w, p))));
        assert(0 <= index_of(w, p) < s1.len());
        assert(s2[index_of(w, p)] == Stone::Empty);
        let suicide = !has_liberty(s2, w, h, c, at);
        if suicide {
            let s3 = cleared(s2, w, |q: Point| in_group(s2, w, h, c, at, q), c);
            assert(s3[index_of(w, p)] == Stone::Empty);
        }
    }
}

/// Without suicide, an accepted play leaves the new stone's group with a
/// liberty.
pub proof fn lemma_no_suicide(b: BoardState, c: Stone, x: usize, y: usize, rules: Rules, after: BoardState)
    requires
        b.wf(),
        c != Stone::Empty,
        !rules.suicide_allowed,
        play_result(b, c, x, y, rules) == Some(after),
    ensures
        has_liberty(after.stones, b.width, b.height, c, (x, y)),
        cell(after.stones, b.width, (x, y)) == c,
{
    let w = b.width;
    let at: Point = (x, y);
    let s1 = b.stones.update(index_of(w, at), c);
    let s2 = cleared(s1, w, |p: Point| captured_at(s1, w, b.height, c, at, p), c.opposite());
    lemma_index_in_range(w, b.height, at);
    lemma_index_point(w, at);
    assert(point_at(w, index_of(w, at)) == at);
    assert(s1[index_of(w, at)] == c);
    assert(s2[index_of(w, at)] == c);
}

/// An accepted play never brings back the position recorded just before
/// the opponent's last move, whatever the rules say of suicide.
pub proof fn lemma_simple_ko(b: BoardState, c: Stone, x: usize, y: usize, rules: Rules, after: BoardState)
    requires
        play_result(b, c, x, y, rules) == Some(after),
        b.hashes.len() >= 2,
    ensures
        position_hash(after.stones) != b.hashes[b.hashes.len() - 2],
        after.hashes == b.hashes.push(position_hash(after.stones)),
{
}

/// Under superko an accepted play makes a position whose hash is new to the
/// game. Without superko the history of hashes matters only through the
/// one recorded before the opponent's last move.
pub proof fn lemma_superko(b: BoardState, c: Stone, x: usize, y: usize, rules: Rules, other: BoardState)
    ensures
        rules.superko && play_result(b, c, x, y, rules) is Some ==> !b.hashes.contains(
            position_hash(play_result(b, c, x, y, rules)->0.stones),
        ),
        !rules.superko && other == (BoardState { hashes: other.hashes, ..b }) && other.hashes.len()
            == b.hashes.len() && (b.hashes.len() >= 2 ==> other.hashes[b.hashes.len() - 2]
            == b.hashes[b.hashes.len() - 2]) ==> (play_result(other, c, x, y, rules) is Some <==> play_result(
            b,
            c,
            x,
            y,
            rules,
        ) is Some),
{
}

/// An accepted play keeps the board's size, markup and grid length.
pub proof fn lemma_play_keeps_size(b: BoardState, c: Stone, x: usize, y: usize, rules: Rules)
    requires
        b.wf(),
        play_result(b, c, x, y, rules) is Some,
    ensures
        ({
            let a = play_result(b, c, x, y, rules)->0;
            &&& a.width == b.width
            &&& a.height == b.height
            &&& a.markup == b.markup
            &&& a.stones.len() == b.stones.len()
        }),
{
    lemma_index_in_range(b.width, b.height, (x, y));
}

fn copy_stones(v: &Vec<Stone>) -> (r: Vec<Stone>)
    ensures
        r@ == v@,
{
    let mut r: Vec<Stone> = Vec::with_capacity(v.len());
    let mut i: usize = 0;
    while i < v.len()
        invariant
            i <= v@.len(),
            r@ == v@.subrange(0, i as int),
        decreases v@.len() - i,
    {
        r.push(v[i]);
        i += 1;
        assert(r@ =~= v@.subrange(0, i as int));
    }
    assert(v@.subrange(0, v@.len() as int) =~= v@);
    r
}

fn contains_hash(v: &Vec<u64>, x: u64) -> (r: bool)
    ensures
        r == v@.contains(x),
{
    let mut i: usize = 0;
    while i < v.len()
        invariant
            i <= v@.len(),
            forall|j: int| 0 <= j < i ==> v@[j] != x,
        decreases v@.len() - i,
    {
        if v[i] == x {
            return true;
        }
        i += 1;
    }
    false
}

/// A board of the given size with nothing on it and no history.
pub open spec fn blank_state(w: nat, h: nat) -> BoardState {
    BoardState {
        width: w,
        height: h,
        stones: empty_stones(w * h),
        markup: empty_markup(w * h),
        black_captured: 0,
        white_captured: 0,
        hashes: Seq::empty(),
    }
}

fn empty_stone_vec(n: usize) -> (r: Vec<Stone>)
    ensures
        r@ == empty_stones(n as nat),
{
    let mut v: Vec<Stone> = Vec::with_capacity(n);
    let mut i: usize = 0;
    while i < n
        invariant
            i <= n,
            v@ == empty_stones(i as nat),
        decreases n - i,
    {
        v.push(Stone::Empty);
        i += 1;
        assert(v@ =~= empty_stones(i as nat));
    }
    v
}

fn empty_markup_vec(n: usize) -> (r: Vec<Markup>)
    ensures
        r@ == empty_markup(n as nat),
{
    let mut v: Vec<Markup> = Vec::with_capacity(n);
    let mut i: usize = 0;
    while i < n
        invariant
            i <= n,
            v@ == empty_markup(i as nat),
        decreases n - i,
    {
        v.push(Markup::Empty);
        i += 1;
        assert(v@ =~= empty_markup(i as nat));
    }
    v
}

impl Board {
    /// The grids have one entry per intersection.
    pub open spec fn wf(&self) -> bool {
        self@.wf()
    }

    pub open spec fn width(&self) -> nat {
        self@.width
    }

    pub open spec fn height(&self) -> nat {
        self@.height
    }

    pub open spec fn on_board(&self, x: usize, y: usize) -> bool {
        in_bounds(self.width(), self.height(), (x, y))
    }

    pub open spec fn stone_at(&self, x: usize, y: usize) -> Stone {
        cell(self@.stones, self.width(), (x, y))
    }

    pub fn new(w: usize, h: usize) -> (r: Board)
        requires
            w * h <= usize::MAX,
        ensures
            r.wf(),
            r@ == blank_state(w as nat, h as nat),
    {
        let n = w * h;
        Board {
            stones: empty_stone_vec(n),
            markup: empty_markup_vec(n),
            size: (w, h),
            black_captured: 0,
            white_captured: 0,
            hashes: Vec::new(),
        }
    }

    /// Returns the (width, height) of the board.
    pub fn size(&self) -> (r: (usize, usize))
        ensures
            r == (self@.width as usize, self@.height as usize),
    {
        self.size
    }

    /// All the stones in row-major order.
    pub fn stones(&self) -> (r: &Vec<Stone>)
        ensures
            r@ == self@.stones,
    {
        &self.stones
    }

    /// Black stones removed from the board by capture.
    pub fn black_captured(&self) -> (r: usize)
        ensures
            r == self@.black_captured,
    {
        self.black_captured
    }

    /// White stones removed from the board by capture.
    pub fn white_captured(&self) -> (r: usize)
        ensures
            r == self@.white_captured,
    {
        self.white_captured
    }

    /// The position hash after each accepted play, oldest first.
    pub fn hashes(&self) -> (r: &Vec<u64>)
        ensures
            r@ == self@.hashes,
    {
        &self.hashes
    }

    /// The position of `(x, y)` in the row-major grids.
    pub fn index(&self, x: usize, y: usize) -> (r: usize)
        requires
            self.wf(),
            self.on_board(x, y),
        ensures
            r == index_of(self.width(), (x, y)),
            r < self@.stones.len(),
    {
        proof {
            lemma_index_in_range(self.width(), self.height(), (x, y));
        }
        y * self.size.0 + x
    }

    /// The stone at `(x, y)`.
    pub fn get(&self, x: usize, y: usize) -> (r: Stone)
        requires
            self.wf(),
            self.on_board(x, y),
        ensures
            r == self.stone_at(x, y),
    {
        let i = self.index(x, y);
        self.stones[i]
    }

    /// Puts `s` at `(x, y)` whether or not that is a legal move.
    pub fn set(&mut self, x: usize, y: usize, s: Stone)
        requires
            old(self).wf(),
            old(self).on_board(x, y),
        ensures
            final(self).wf(),
            final(self)@ == (BoardState {
                stones: old(self)@.stones.update(index_of(old(self).width(), (x, y)), s),
                ..old(self)@
            }),
    {
        let i = self.index(x, y);
        self.stones.set(i, s);
    }

    /// The markup at `(x, y)`.
    pub fn get_markup(&self, x: usize, y: usize) -> (r: Markup)
        requires
            self.wf(),
            self.on_board(x, y),
        ensures
            r == self@.markup[index_of(self.width(), (x, y))],
    {
        let i = self.index(x, y);
        self.markup[i].duplicate()
    }

    /// Puts `m` at `(x, y)`; returns whether that changed the mark there.
    /// When it does not, the board is left as it was.
    pub fn set_markup(&mut self, x: usize, y: usize, m: Markup) -> (r: bool)
        requires
            old(self).wf(),
            old(self).on_board(x, y),
        ensures
            final(self).wf(),
            r == !same_markup(old(self)@.markup[index_of(old(self).width(), (x, y))], m),
            final(self)@ == (if r {
                BoardState {
                    markup: old(self)@.markup.update(index_of(old(self).width(), (x, y)), m),
                    ..old(self)@
                }
            } else {
                old(self)@
            }),
    {
        let i = self.index(x, y);
        if self.markup[i].same(&m) {
            return false;
        }
        self.markup.set(i, m);
        true
    }

    /// Removes the markup at `(x, y)`.
    pub fn remove_markup(&mut self, x: usize, y: usize)
        requires
            old(self).wf(),
            old(self).on_board(x, y),
        ensures
            final(self).wf(),
            final(self)@ == (BoardState {
                markup: old(self)@.markup.update(index_of(old(self).width(), (x, y)), Markup::Empty),
                ..old(self)@
            }),
    {
        let i = self.index(x, y);
        self.markup.set(i, Markup::Empty);
    }

    /// Takes off every stone of colour `c` on one of `pts`, counting each as
    /// captured; returns how many were taken off.
    fn remove_stones(&mut self, pts: &Vec<Point>, c: Stone) -> (n: usize)
        requires
            old(self).wf(),
            old(self)@.room_for(c),
            c != Stone::Empty,
            forall|i: int| 0 <= i < pts@.len() ==> in_bounds(old(self).width(), old(self).height(), #[trigger] pts@[i]),
        ensures
            final(self).wf(),
            n == count_removed(old(self)@.stones, final(self)@.stones, c),
            final(self)@ == (BoardState {
                stones: cleared(old(self)@.stones, old(self).width(), |p: Point| pts@.contains(p), c),
                ..old(self)@
            }).add_captured(c, n as nat),
    {
        let ghost st0 = self@.stones;
        let ghost w = self.width();
        let ghost h = self.height();
        let mut n: usize = 0;
        let mut j: usize = 0;
        proof {
            lemma_count_removed_none(st0, c);
            assert(st0 =~= cleared(st0, w, |p: Point| pts@.subrange(0, 0).contains(p), c));
        }
        while j < pts.len()
            invariant
                self.wf(),
                self.size.0 == w,
                self.size.1 == h,
                j <= pts@.len(),
                c != Stone::Empty,
                st0.len() == w * h,
                forall|i: int| 0 <= i < pts@.len() ==> in_bounds(w, h, #[trigger] pts@[i]),
                self@ == (BoardState { stones: self@.stones, ..old(self)@ }),
                self@.stones == cleared(st0, w, |p: Point| pts@.subrange(0, j as int).contains(p), c),
                n == count_removed(st0, self@.stones, c),
            decreases pts@.len() - j,
        {
            let p = pts[j];
            let i = self.index(p.0, p.1);
            let ghost cur = self@.stones;
            proof {
                lemma_index_point(w, p);
            }
            if self.stones[i] == c {
                proof {
                    lemma_count_removed_update(st0, cur, c, i as int);
                    lemma_count_removed_bound(st0, cur.update(i as int, Stone::Empty), c);
                }
                self.stones.set(i, Stone::Empty);
                n += 1;
            }
            proof {
                let pre = pts@.subrange(0, j as int);
                let pre2 = pts@.subrange(0, j as int + 1);
                assert forall|q: Point| #[trigger] pre2.contains(q) <==> pre.contains(q) || q == p by {
                    if pre.contains(q) {
                        let k = choose|k: int| 0 <= k < pre.len() && pre[k] == q;
                        assert(pre2[k] == q);
                    }
                    if q == p {
                        assert(pre2[j as int] == q);
                    }
                    if pre2.contains(q) && q != p {
                        let k = choose|k: int| 0 <= k < pre2.len() && pre2[k] == q;
                        assert(pre[k] == q);
                    }
                }
                assert forall|k: int| 0 <= k < st0.len() && k != i implies point_at(w, k) != p by {
                    lemma_point_at(w, h, k);
                }
                assert(self@.stones =~= cleared(st0, w, |q: Point| pre2.contains(q), c));
            }
            j += 1;
        }
        assert(pts@.subrange(0, pts@.len() as int) =~= pts@);
        proof {
            lemma_count_removed_bound(st0, self@.stones, c);
        }
        if c == Stone::Black {
            self.black_captured = self.black_captured + n;
        } else {
            self.white_captured = self.white_captured + n;
        }
        n
    }

    /// Takes the stones of `g` off the board and counts them as captured.
    /// When every point of the group holds its colour, as right after it is
    /// resolved, the tally grows by the group's size.
    pub fn kill_group(&mut self, g: &Group)
        requires
            old(self).wf(),
            old(self)@.room_for(g.color),
            g.color != Stone::Empty,
            forall|i: int| 0 <= i < g.inside@.len() ==> in_bounds(old(self).width(), old(self).height(), #[trigger] g.inside@[i]),
        ensures
            final(self).wf(),
            final(self)@ == (BoardState {
                stones: cleared(old(self)@.stones, old(self).width(), |p: Point| g.inside@.contains(p), g.color),
                ..old(self)@
            }).add_captured(g.color, count_removed(old(self)@.stones, final(self)@.stones, g.color)),
            g.inside@.no_duplicates() && (forall|i: int|
                0 <= i < g.inside@.len() ==> cell(old(self)@.stones, old(self).width(), #[trigger] g.inside@[i])
                    == g.color) ==> count_removed(old(self)@.stones, final(self)@.stones, g.color) == g.inside@.len(),
    {
        self.remove_stones(&g.inside, g.color);
        proof {
            if g.inside@.no_duplicates() && (forall|i: int|
                0 <= i < g.inside@.len() ==> cell(old(self)@.stones, old(self).width(), #[trigger] g.inside@[i])
                    == g.color) {
                lemma_cleared_count(old(self)@.stones, old(self).width(), old(self).height(), g.inside@, g.color);
            }
        }
    }

    /// If `n` holds the other colour and its group has no liberty, adds the
    /// group's points to `doomed`.
    fn add_if_dead(&self, c: Stone, n: Point, doomed: &mut Vec<Point>, Ghost(at): Ghost<Point>)
        requires
            self.wf(),
            c != Stone::Empty,
            in_bounds(self.width(), self.height(), n),
            adjacent(at, n),
            forall|i: int| 0 <= i < old(doomed)@.len() ==> in_bounds(self.width(), self.height(), #[trigger] old(doomed)@[i]),
        ensures
            forall|i: int| 0 <= i < final(doomed)@.len() ==> in_bounds(self.width(), self.height(), #[trigger] final(doomed)@[i]),
            forall|p: Point| #[trigger] final(doomed)@.contains(p) <==> old(doomed)@.contains(p) || (dead_neighbor(
                self@.stones,
                self.width(),
                self.height(),
                c,
                at,
                n,
            ) && in_group(self@.stones, self.width(), self.height(), c.opposite(), n, p)),
    {
        let ghost st = self@.stones;
        let ghost w = self.width();
        let ghost h = self.height();
        let opp = c.not();
        if self.get(n.0, n.1) == opp {
            let mut g = find_group(self, n.0, n.1, opp);
            if g.liberties.len() == 0 {
                proof {
                    if has_liberty(st, w, h, opp, n) {
                        let q = choose|q: Point| #[trigger] liberty(st, w, h, opp, n, q);
                        assert(g.liberties@.contains(q));
                    }
                }
                let ghost d0 = doomed@;
                let ghost gi = g.inside@;
                doomed.append(&mut g.inside);
                proof {
                    assert forall|i: int| 0 <= i < doomed@.len() implies in_bounds(w, h, #[trigger] doomed@[i]) by {
                        if i >= d0.len() {
                            assert(doomed@[i] == gi[i - d0.len()]);
                            assert(gi.contains(gi[i - d0.len()]));
                            lemma_in_group_member(st, w, h, opp, n, gi[i - d0.len()]);
                        }
                    }
                    assert forall|p: Point| #[trigger] doomed@.contains(p) <==> d0.contains(p) || gi.contains(p) by {
                        if doomed@.contains(p) {
                            let i = choose|i: int| 0 <= i < doomed@.len() && doomed@[i] == p;
                            if i < d0.len() {
                                assert(d0[i] == p);
                            } else {
                                assert(gi[i - d0.len()] == p);
                            }
                        }
                        if d0.contains(p) {
                            let i = choose|i: int| 0 <= i < d0.len() && d0[i] == p;
                            assert(doomed@[i] == p);
                        }
                        if gi.contains(p) {
                            let i = choose|i: int| 0 <= i < gi.len() && gi[i] == p;
                            assert(doomed@[d0.len() + i] == p);
                        }
                    }
                }
            } else {
                proof {
                    assert(g.liberties@.contains(g.liberties@[0]));
                    assert(liberty(st, w, h, opp, n, g.liberties@[0]));
                }
            }
        }
    }

    /// Plays a stone of colour `c` at `(x, y)` if that is a legal move.
    ///
    /// The move is refused, and the board left as it was, when the point is
    /// off the board or taken, when it would leave its own group without a
    /// liberty and the rules forbid suicide, when it would bring back the
    /// position from before the opponent's last move, or, under superko, any
    /// earlier position. Otherwise the groups of the other colour next to it
    /// that lose their last liberty are captured first, then its own group if
    /// it has none, and the hash of the new position is recorded.
    pub fn attempt_set(&mut self, x: usize, y: usize, c: Stone, rules: Rules) -> (r: bool)
        requires
            old(self).wf(),
            old(self)@.has_room(),
            c != Stone::Empty,
        ensures
            final(self).wf(),
            r == play_result(old(self)@, c, x, y, rules) is Some,
            r ==> play_result(old(self)@, c, x, y, rules) == Some(final(self)@),
            !r ==> final(self)@ == old(self)@,
    {
        let ghost b0 = self@;
        let ghost w = self.width();
        let ghost h = self.height();
        let at: Point = (x, y);
        let (bw, bh) = self.size();
        if x >= bw || y >= bh {
            return false;
        }
        if self.get(x, y) != Stone::Empty {
            return false;
        }
        let saved = copy_stones(&self.stones);
        let black0 = self.black_captured;
        let white0 = self.white_captured;
        self.set(x, y, c);
        let ghost s1 = self@.stones;
        let opp = c.not();
        let mut doomed: Vec<Point> = Vec::new();
        if x + 1 < bw {
            self.add_if_dead(c, (x + 1, y), &mut doomed, Ghost(at));
        }
        let ghost d1 = doomed@;
        if x > 0 {
            self.add_if_dead(c, (x - 1, y), &mut doomed, Ghost(at));
        }
        let ghost d2 = doomed@;
        if y + 1 < bh {
            self.add_if_dead(c, (x, y + 1), &mut doomed, Ghost(at));
        }
        let ghost d3 = doomed@;
        if y > 0 {
            self.add_if_dead(c, (x, y - 1), &mut doomed, Ghost(at));
        }
        proof {
            assert forall|p: Point| #[trigger] doomed@.contains(p) <==> captured_at(s1, w, h, c, at, p) by {
                if captured_at(s1, w, h, c, at, p) {
                    let n = choose|n: Point| #[trigger] dead_neighbor(s1, w, h, c, at, n) && in_group(s1, w, h, c.opposite(), n, p);
                    if n.0 == x + 1 && n.1 == y {
                        assert(d1.contains(p));
                    } else if n.0 + 1 == x && n.1 == y {
                        assert(d2.contains(p));
                    } else if n.0 == x && n.1 == y + 1 {
                        assert(d3.contains(p));
                    }
                }
            }
            assert(self@.room_for(opp));
        }
        let ghost s2_expected = cleared(s1, w, |p: Point| captured_at(s1, w, h, c, at, p), opp);
        self.remove_stones(&doomed, opp);
        proof {
            assert(self@.stones =~= s2_expected);
        }
        let ghost s2 = self@.stones;
        let own = find_group(self, x, y, c);
        let suicide = own.liberties.len() == 0;
        proof {
            if has_liberty(s2, w, h, c, at) {
                let q = choose|q: Point| #[trigger] liberty(s2, w, h, c, at, q);
                assert(own.liberties@.contains(q));
            }
            if !suicide {
                assert(own.liberties@.contains(own.liberties@[0]));
                assert(liberty(s2, w, h, c, at, own.liberties@[0]));
            }
        }
        if suicide {
            if !rules.suicide_allowed {
                self.stones = saved;
                self.black_captured = black0;
                self.white_captured = white0;
                proof {
                    assert(self@ == b0);
                }
                return false;
            }
            proof {
                assert forall|i: int| 0 <= i < own.inside@.len() implies in_bounds(w, h, #[trigger] own.inside@[i]) by {
                    assert(own.inside@.contains(own.inside@[i]));
                    lemma_in_group_member(s2, w, h, c, at, own.inside@[i]);
                }
                assert(self@.room_for(c));
            }
            let ghost s3_expected = cleared(s2, w, |p: Point| in_group(s2, w, h, c, at, p), c);
            self.remove_stones(&own.inside, c);
            proof {
                assert(self@.stones =~= s3_expected);
            }
        }
        let hash = calculate_hash(&self.stones);
        let n = self.hashes.len();
        let repeats = (n >= 2 && self.hashes[n - 2] == hash) || (rules.superko && contains_hash(&self.hashes, hash));
        if repeats {
            self.stones = saved;
            self.black_captured = black0;
            self.white_captured = white0;
            proof {
                assert(self@ == b0);
            }
            return false;
        }
        self.hashes.push(hash);
        true
    }

    /// Whether both tallies can take every stone of the board once more.
    pub fn has_room(&self) -> (r: bool)
        requires
            self.wf(),
        ensures
            r == self@.has_room(),
    {
        let n = self.stones.len();
        self.black_captured <= usize::MAX - n && self.white_captured <= usize::MAX - n
    }

    /// Removes all markup.
    pub fn clear_markup(&mut self)
        requires
            old(self).wf(),
        ensures
            final(self).wf(),
            final(self)@ == old(self)@.without_markup(),
    {
        let n = self.stones.len();
        self.markup = empty_markup_vec(n);
    }
}

} // verus!
