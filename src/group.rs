use crate::board::{adjacent, cell, in_bounds, index_of, lemma_index_in_range, lemma_index_injective, Board, Point, Stone};
use vstd::prelude::*;

verus! {

/// `q` belongs to the colour being resolved: it holds `c`, or it is the seed,
/// which counts as `c` whatever it holds.
pub open spec fn member(st: Seq<Stone>, w: nat, c: Stone, seed: Point, q: Point) -> bool {
    cell(st, w, q) == c || q == seed
}

/// `s` holds the seed and every on-board member next to one of its points.
pub open spec fn closed_under(st: Seq<Stone>, w: nat, h: nat, c: Stone, seed: Point, s: Set<Point>) -> bool {
    &&& s.contains(seed)
    &&& forall|p: Point, q: Point|
        #[trigger] s.contains(p) && #[trigger] adjacent(p, q) && in_bounds(w, h, q) && member(st, w, c, seed, q)
            ==> s.contains(q)
}

/// `p` is in the group of `seed`: it lies in every set closed under
/// adjacency of members that holds the seed.
pub open spec fn in_group(st: Seq<Stone>, w: nat, h: nat, c: Stone, seed: Point, p: Point) -> bool {
    forall|s: Set<Point>| #[trigger] closed_under(st, w, h, c, seed, s) ==> s.contains(p)
}

/// An empty point next to the group.
pub open spec fn liberty(st: Seq<Stone>, w: nat, h: nat, c: Stone, seed: Point, q: Point) -> bool {
    &&& in_bounds(w, h, q)
    &&& cell(st, w, q) == Stone::Empty
    &&& q != seed
    &&& exists|p: Point| #[trigger] in_group(st, w, h, c, seed, p) && adjacent(p, q)
}

/// A stone of the other colour next to the group.
pub open spec fn enemy(st: Seq<Stone>, w: nat, h: nat, c: Stone, seed: Point, q: Point) -> bool {
    &&& in_bounds(w, h, q)
    &&& cell(st, w, q) == c.opposite()
    &&& q != seed
    &&& exists|p: Point| #[trigger] in_group(st, w, h, c, seed, p) && adjacent(p, q)
}

pub open spec fn has_liberty(st: Seq<Stone>, w: nat, h: nat, c: Stone, seed: Point) -> bool {
    exists|q: Point| #[trigger] liberty(st, w, h, c, seed, q)
}

/// A point of a group is on the board and holds the group's colour, or is
/// the seed.
pub proof fn lemma_in_group_member(st: Seq<Stone>, w: nat, h: nat, c: Stone, seed: Point, p: Point)
    requires
        in_bounds(w, h, seed),
        in_group(st, w, h, c, seed, p),
    ensures
        in_bounds(w, h, p),
        member(st, w, c, seed, p),
{
    let s = Set::new(|q: Point| in_bounds(w, h, q) && member(st, w, c, seed, q));
    assert(closed_under(st, w, h, c, seed, s));
}

/// A connected group of stones with the empty points and the enemy stones
/// around it.
pub struct Group {
    pub color: Stone,
    pub inside: Vec<Point>,
    pub liberties: Vec<Point>,
    pub neighbors: Vec<Point>,
}

impl Group {
    /// `self` is the group of `seed` for colour `c` on the grid `st`.
    pub open spec fn resolves(&self, st: Seq<Stone>, w: nat, h: nat, c: Stone, seed: Point) -> bool {
        &&& self.color == c
        &&& forall|p: Point| #[trigger] self.inside@.contains(p) <==> in_group(st, w, h, c, seed, p)
        &&& forall|q: Point| #[trigger] self.liberties@.contains(q) <==> liberty(st, w, h, c, seed, q)
        &&& forall|q: Point| #[trigger] self.neighbors@.contains(q) <==> enemy(st, w, h, c, seed, q)
        &&& self.inside@.no_duplicates()
        &&& self.liberties@.no_duplicates()
        &&& self.neighbors@.no_duplicates()
    }

    pub fn new() -> (r: Group)
        ensures
            r.color == Stone::Empty,
            r.inside@.len() == 0,
            r.liberties@.len() == 0,
            r.neighbors@.len() == 0,
    {
        Group { color: Stone::Empty, inside: Vec::new(), liberties: Vec::new(), neighbors: Vec::new() }
    }

    /// Whether `p` is in one of the three sets.
    pub fn categorized(&self, p: &Point) -> (r: bool)
        ensures
            r == (self.inside@.contains(*p) || self.liberties@.contains(*p) || self.neighbors@.contains(*p)),
    {
        contains_point(&self.inside, p) || contains_point(&self.liberties, p) || contains_point(&self.neighbors, p)
    }
}

/// Resolving the same group twice on the same grid gives the same points,
/// liberties and enemies.
pub proof fn lemma_resolve_idempotent(
    g1: &Group,
    g2: &Group,
    st: Seq<Stone>,
    w: nat,
    h: nat,
    c: Stone,
    seed: Point,
)
    requires
        g1.resolves(st, w, h, c, seed),
        g2.resolves(st, w, h, c, seed),
    ensures
        g1.inside@.to_set() == g2.inside@.to_set(),
        g1.liberties@.to_set() == g2.liberties@.to_set(),
        g1.neighbors@.to_set() == g2.neighbors@.to_set(),
        g1.inside@.len() == g2.inside@.len(),
        g1.liberties@.len() == g2.liberties@.len(),
        g1.neighbors@.len() == g2.neighbors@.len(),
{
    assert(g1.inside@.to_set() =~= g2.inside@.to_set());
    assert(g1.liberties@.to_set() =~= g2.liberties@.to_set());
    assert(g1.neighbors@.to_set() =~= g2.neighbors@.to_set());
    g1.inside@.unique_seq_to_set();
    g2.inside@.unique_seq_to_set();
    g1.liberties@.unique_seq_to_set();
    g2.liberties@.unique_seq_to_set();
    g1.neighbors@.unique_seq_to_set();
    g2.neighbors@.unique_seq_to_set();
}

fn contains_point(v: &Vec<Point>, p: &Point) -> (r: bool)
    ensures
        r == v@.contains(*p),
{
    let mut i: usize = 0;
    while i < v.len()
        invariant
            i <= v@.len(),
            forall|j: int| 0 <= j < i ==> v@[j] != *p,
        decreases v@.len() - i,
    {
        if v[i].0 == p.0 && v[i].1 == p.1 {
            return true;
        }
        i += 1;
    }
    false
}

/// Number of zero entries.
pub open spec fn count_zero(s: Seq<u8>) -> nat
    decreases s.len(),
{
    if s.len() == 0 {
        0
    } else {
        count_zero(s.drop_last()) + if s.last() == 0 { 1nat } else { 0nat }
    }
}

proof fn lemma_count_zero_update(s: Seq<u8>, i: int, v: u8)
    requires
        0 <= i < s.len(),
        s[i] == 0,
        v != 0,
    ensures
        count_zero(s.update(i, v)) + 1 == count_zero(s),
    decreases s.len(),
{
    let t = s.update(i, v);
    if i == s.len() - 1 {
        assert(t.drop_last() =~= s.drop_last());
    } else {
        assert(t.drop_last() =~= s.drop_last().update(i, v));
        lemma_count_zero_update(s.drop_last(), i, v);
    }
}

spec fn mk(marks: Seq<u8>, w: nat, p: Point) -> u8 {
    marks[index_of(w, p)]
}

/// What the fill keeps true: marks 1, 2 and 3 stand for the group, its
/// liberties and its enemies, each point is classified by its colour, the
/// group lies in every closed set, and each liberty or enemy touches the group.
spec fn fill_inv(st: Seq<Stone>, w: nat, h: nat, c: Stone, seed: Point, marks: Seq<u8>, g: Group) -> bool {
    &&& marks.len() == w * h
    &&& st.len() == w * h
    &&& in_bounds(w, h, seed)
    &&& mk(marks, w, seed) == 1
    &&& forall|p: Point| #[trigger] mk(marks, w, p) == 1 && in_bounds(w, h, p) ==> g.inside@.contains(p)
    &&& forall|p: Point| #[trigger] mk(marks, w, p) == 2 && in_bounds(w, h, p) ==> g.liberties@.contains(p)
    &&& forall|p: Point| #[trigger] mk(marks, w, p) == 3 && in_bounds(w, h, p) ==> g.neighbors@.contains(p)
    &&& forall|i: int| 0 <= i < g.inside@.len() ==> in_bounds(w, h, #[trigger] g.inside@[i]) && mk(marks, w, g.inside@[i]) == 1
    &&& forall|i: int| 0 <= i < g.liberties@.len() ==> in_bounds(w, h, #[trigger] g.liberties@[i]) && mk(marks, w, g.liberties@[i]) == 2
    &&& forall|i: int| 0 <= i < g.neighbors@.len() ==> in_bounds(w, h, #[trigger] g.neighbors@[i]) && mk(marks, w, g.neighbors@[i]) == 3
    &&& forall|p: Point| in_bounds(w, h, p) ==> {
        let m = #[trigger] mk(marks, w, p);
        &&& m <= 3
        &&& m == 1 ==> member(st, w, c, seed, p)
        &&& m == 2 ==> cell(st, w, p) == Stone::Empty && p != seed
        &&& m == 3 ==> cell(st, w, p) == c.opposite() && p != seed
        &&& (m == 2 || m == 3) ==> exists|j: int| 0 <= j < g.inside@.len() && adjacent(#[trigger] g.inside@[j], p)
    }
    &&& forall|s: Set<Point>| #[trigger] closed_under(st, w, h, c, seed, s)
        ==> forall|i: int| 0 <= i < g.inside@.len() ==> s.contains(#[trigger] g.inside@[i])
    &&& g.inside@.no_duplicates()
    &&& g.liberties@.no_duplicates()
    &&& g.neighbors@.no_duplicates()
}


/// Classifies `q`, a neighbour of the group's point `g.inside[from]`, unless
/// it already is.
fn visit(
    board: &Board,
    c: Stone,
    seed: Point,
    q: Point,
    marks: &mut Vec<u8>,
    g: &mut Group,
    Ghost(from): Ghost<int>,
)
    requires
        board.wf(),
        c != Stone::Empty,
        in_bounds(board.width(), board.height(), q),
        fill_inv(board@.stones, board.width(), board.height(), c, seed, old(marks)@, *old(g)),
        0 <= from < old(g).inside@.len(),
        adjacent(old(g).inside@[from], q),
    ensures
        fill_inv(board@.stones, board.width(), board.height(), c, seed, final(marks)@, *final(g)),
        mk(final(marks)@, board.width(), q) != 0,
        final(g).inside@.len() >= old(g).inside@.len(),
        final(g).inside@.subrange(0, old(g).inside@.len() as int) == old(g).inside@,
        forall|p: Point|
            in_bounds(board.width(), board.height(), p) && #[trigger] mk(old(marks)@, board.width(), p) != 0
                ==> mk(final(marks)@, board.width(), p) == mk(old(marks)@, board.width(), p),
        count_zero(final(marks)@) + final(g).inside@.len() <= count_zero(old(marks)@) + old(g).inside@.len(),
{
    let ghost w = board.width();
    let ghost h = board.height();
    let ghost st = board@.stones;
    let i = board.index(q.0, q.1);
    if marks[i] != 0 {
        assert(g.inside@.subrange(0, g.inside@.len() as int) =~= g.inside@);
        return;
    }
    let s = board.get(q.0, q.1);
    let is_seed = q.0 == seed.0 && q.1 == seed.1;
    let v: u8 = if s == c || is_seed {
        1
    } else if s == c.not() {
        3
    } else {
        2
    };
    proof {
        lemma_count_zero_update(marks@, i as int, v);
    }
    marks.set(i, v);
    proof {
        assert forall|p: Point| in_bounds(w, h, p) implies #[trigger] mk(marks@, w, p) == if p == q {
            v
        } else {
            mk(old(marks)@, w, p)
        } by {
            if p != q {
                lemma_index_injective(w, p, q);
                lemma_index_in_range(w, h, p);
            }
        }
    }
    let ghost g0 = *g;
    if v == 1 {
        g.inside.push(q);
    } else if v == 2 {
        g.liberties.push(q);
    } else {
        g.neighbors.push(q);
    }
    proof {
        assert(g.inside@.subrange(0, g0.inside@.len() as int) =~= g0.inside@);
        assert forall|j: int| 0 <= j < g0.inside@.len() implies g.inside@[j] == g0.inside@[j] by {}
        if v == 1 {
            assert(member(st, w, c, seed, q));
            assert(!g0.inside@.contains(q));
            assert forall|s: Set<Point>| #[trigger] closed_under(st, w, h, c, seed, s) implies forall|j: int|
                0 <= j < g.inside@.len() ==> s.contains(#[trigger] g.inside@[j]) by {
                assert(s.contains(g0.inside@[from]));
                assert(s.contains(q));
                assert forall|j: int| 0 <= j < g.inside@.len() implies s.contains(#[trigger] g.inside@[j]) by {
                    if j < g0.inside@.len() {
                        assert(g.inside@[j] == g0.inside@[j]);
                    }
                }
            }
        } else if v == 2 {
            assert(!g0.liberties@.contains(q));
        } else {
            assert(!g0.neighbors@.contains(q));
        }
        assert forall|p: Point| in_bounds(w, h, p) && (mk(marks@, w, p) == 2 || mk(marks@, w, p) == 3) implies
            exists|j: int| 0 <= j < g.inside@.len() && adjacent(#[trigger] g.inside@[j], p) by {
            if p == q {
                assert(g.inside@[from] == g0.inside@[from]);
            } else {
                assert(mk(marks@, w, p) == mk(old(marks)@, w, p));
                let j = choose|j: int| 0 <= j < g0.inside@.len() && adjacent(#[trigger] g0.inside@[j], p);
                assert(g.inside@[j] == g0.inside@[j]);
            }
        }
        let m = marks@;
        assert forall|p: Point| #[trigger] mk(m, w, p) == 1 && in_bounds(w, h, p) implies g.inside@.contains(p) by {
            if p == q {
                assert(g.inside@[g.inside@.len() - 1] == q);
            } else {
                assert(g0.inside@.contains(p));
                let i = choose|i: int| 0 <= i < g0.inside@.len() && g0.inside@[i] == p;
                assert(g.inside@[i] == p);
            }
        }
        assert forall|p: Point| #[trigger] mk(m, w, p) == 2 && in_bounds(w, h, p) implies g.liberties@.contains(p) by {
            if p == q {
                assert(g.liberties@[g.liberties@.len() - 1] == q);
            } else {
                assert(g0.liberties@.contains(p));
                let i = choose|i: int| 0 <= i < g0.liberties@.len() && g0.liberties@[i] == p;
                assert(g.liberties@[i] == p);
            }
        }
        assert forall|p: Point| #[trigger] mk(m, w, p) == 3 && in_bounds(w, h, p) implies g.neighbors@.contains(p) by {
            if p == q {
                assert(g.neighbors@[g.neighbors@.len() - 1] == q);
            } else {
                assert(g0.neighbors@.contains(p));
                let i = choose|i: int| 0 <= i < g0.neighbors@.len() && g0.neighbors@[i] == p;
                assert(g.neighbors@[i] == p);
            }
        }
    }
}


fn zero_marks(n: usize) -> (r: Vec<u8>)
    ensures
        r@ == Seq::new(n as nat, |i: int| 0u8),
{
    let mut v: Vec<u8> = Vec::with_capacity(n);
    let mut i: usize = 0;
    while i < n
        invariant
            i <= n,
            v@ == Seq::new(i as nat, |j: int| 0u8),
        decreases n - i,
    {
        v.push(0);
        i += 1;
        assert(v@ =~= Seq::new(i as nat, |j: int| 0u8));
    }
    v
}

/// Finds the connected group of `color` that holds `(x, y)`, with the empty
/// points and the enemy stones around it, by flood fill. The start point
/// counts as `color` whatever it holds, so a move can be judged before it is
/// made.
pub fn find_group(board: &Board, x: usize, y: usize, color: Stone) -> (g: Group)
    requires
        board.wf(),
        board.on_board(x, y),
        color != Stone::Empty,
    ensures
        g.resolves(board@.stones, board.width(), board.height(), color, (x, y)),
{
    let ghost w = board.width();
    let ghost h = board.height();
    let ghost st = board@.stones;
    let seed: Point = (x, y);
    let (bw, bh) = board.size();
    let mut marks = zero_marks(bw * bh);
    let mut g = Group::new();
    let i0 = board.index(x, y);
    marks.set(i0, 1);
    g.inside.push(seed);
    proof {
        assert forall|p: Point| in_bounds(w, h, p) implies #[trigger] mk(marks@, w, p) == if p == seed {
            1u8
        } else {
            0u8
        } by {
            lemma_index_in_range(w, h, p);
            if p != seed {
                lemma_index_injective(w, p, seed);
            }
        }
        assert(g.inside@[0] == seed);
        assert forall|p: Point| #[trigger] mk(marks@, w, p) == 1 && in_bounds(w, h, p) implies g.inside@.contains(p) by {
            assert(g.inside@[0] == p);
        }
        assert forall|s: Set<Point>| #[trigger] closed_under(st, w, h, color, seed, s) implies forall|i: int|
            0 <= i < g.inside@.len() ==> s.contains(#[trigger] g.inside@[i]) by {}
    }
    let mut k: usize = 0;
    while k < g.inside.len()
        invariant
            board.wf(),
            color != Stone::Empty,
            bw == w,
            bh == h,
            w == board.width(),
            h == board.height(),
            st == board@.stones,
            fill_inv(st, w, h, color, seed, marks@, g),
            k <= g.inside@.len(),
            forall|j: int, q: Point|
                0 <= j < k && in_bounds(w, h, q) && #[trigger] adjacent(g.inside@[j], q) ==> mk(marks@, w, q) != 0,
        decreases count_zero(marks@) + g.inside@.len() - k,
    {
        let p = g.inside[k];
        let ghost m0 = marks@;
        let ghost g0 = g;
        if p.0 + 1 < bw {
            visit(board, color, seed, (p.0 + 1, p.1), &mut marks, &mut g, Ghost(k as int));
        }
        let ghost m1 = marks@;
        let ghost g1 = g;
        assert(g.inside@[k as int] == p) by {
            assert(g.inside@.subrange(0, g0.inside@.len() as int)[k as int] == g0.inside@[k as int]);
        }
        if p.0 > 0 {
            visit(board, color, seed, (p.0 - 1, p.1), &mut marks, &mut g, Ghost(k as int));
        }
        let ghost m2 = marks@;
        let ghost g2 = g;
        assert(g.inside@[k as int] == p) by {
            assert(g.inside@.subrange(0, g1.inside@.len() as int)[k as int] == g1.inside@[k as int]);
        }
        if p.1 + 1 < bh {
            visit(board, color, seed, (p.0, p.1 + 1), &mut marks, &mut g, Ghost(k as int));
        }
        let ghost m3 = marks@;
        let ghost g3 = g;
        assert(g.inside@[k as int] == p) by {
            assert(g.inside@.subrange(0, g2.inside@.len() as int)[k as int] == g2.inside@[k as int]);
        }
        if p.1 > 0 {
            visit(board, color, seed, (p.0, p.1 - 1), &mut marks, &mut g, Ghost(k as int));
        }
        proof {
            assert forall|j: int| 0 <= j < g0.inside@.len() implies #[trigger] g.inside@[j] == g0.inside@[j] by {
                assert(g1.inside@.subrange(0, g0.inside@.len() as int)[j] == g0.inside@[j]);
                assert(g2.inside@.subrange(0, g1.inside@.len() as int)[j] == g1.inside@[j]);
                assert(g3.inside@.subrange(0, g2.inside@.len() as int)[j] == g2.inside@[j]);
                assert(g.inside@.subrange(0, g3.inside@.len() as int)[j] == g3.inside@[j]);
            }
            assert forall|q: Point| in_bounds(w, h, q) && #[trigger] mk(m0, w, q) != 0 implies mk(marks@, w, q) != 0 by {
                assert(mk(m1, w, q) == mk(m0, w, q));
                assert(mk(m2, w, q) == mk(m1, w, q));
                assert(mk(m3, w, q) == mk(m2, w, q));
            }
            assert forall|q: Point| in_bounds(w, h, q) && (#[trigger] mk(m1, w, q) != 0) implies mk(marks@, w, q) != 0 by {
                assert(mk(m2, w, q) == mk(m1, w, q));
                assert(mk(m3, w, q) == mk(m2, w, q));
            }
            assert forall|q: Point| in_bounds(w, h, q) && (#[trigger] mk(m2, w, q) != 0) implies mk(marks@, w, q) != 0 by {
                assert(mk(m3, w, q) == mk(m2, w, q));
            }
            assert forall|j: int, q: Point|
                0 <= j < k + 1 && in_bounds(w, h, q) && #[trigger] adjacent(g.inside@[j], q) implies mk(marks@, w, q) != 0 by {
                assert(g.inside@[j] == g0.inside@[j]);
                if j < k {
                    assert(adjacent(g0.inside@[j], q));
                    assert(mk(m0, w, q) != 0);
                } else {
                    if q.0 == p.0 + 1 && q.1 == p.1 {
                        assert(mk(m1, w, q) != 0);
                    } else if q.0 + 1 == p.0 && q.1 == p.1 {
                        assert(mk(m2, w, q) != 0);
                    } else if q.0 == p.0 && q.1 == p.1 + 1 {
                        assert(mk(m3, w, q) != 0);
                    }
                }
            }
        }
        k += 1;
    }
    proof {
        let s0 = g.inside@.to_set();
        assert(g.inside@.contains(seed));
        assert forall|p: Point, q: Point|
            #[trigger] s0.contains(p) && #[trigger] adjacent(p, q) && in_bounds(w, h, q) && member(st, w, color, seed, q)
                implies s0.contains(q) by {
            let j = choose|j: int| 0 <= j < g.inside@.len() && g.inside@[j] == p;
            assert(adjacent(g.inside@[j], q));
            assert(mk(marks@, w, q) != 0);
            assert(mk(marks@, w, q) == 1);
            assert(g.inside@.contains(q));
        }
        assert(closed_under(st, w, h, color, seed, s0));
        assert forall|p: Point| #[trigger] g.inside@.contains(p) implies in_group(st, w, h, color, seed, p) by {
            let j = choose|j: int| 0 <= j < g.inside@.len() && g.inside@[j] == p;
            assert forall|s: Set<Point>| #[trigger] closed_under(st, w, h, color, seed, s) implies s.contains(p) by {
                assert(s.contains(g.inside@[j]));
            }
        }
        assert forall|p: Point| in_group(st, w, h, color, seed, p) implies #[trigger] g.inside@.contains(p) by {
            assert(s0.contains(p));
        }
        assert forall|q: Point| #[trigger] g.liberties@.contains(q) <==> liberty(st, w, h, color, seed, q) by {
            if g.liberties@.contains(q) {
                let i = choose|i: int| 0 <= i < g.liberties@.len() && g.liberties@[i] == q;
                assert(in_bounds(w, h, g.liberties@[i]) && mk(marks@, w, q) == 2);
                let j = choose|j: int| 0 <= j < g.inside@.len() && adjacent(#[trigger] g.inside@[j], q);
                assert(g.inside@.contains(g.inside@[j]));
                assert(in_group(st, w, h, color, seed, g.inside@[j]));
            }
            if liberty(st, w, h, color, seed, q) {
                let p = choose|p: Point| #[trigger] in_group(st, w, h, color, seed, p) && adjacent(p, q);
                assert(g.inside@.contains(p));
                let j = choose|j: int| 0 <= j < g.inside@.len() && g.inside@[j] == p;
                assert(adjacent(g.inside@[j], q));
                assert(mk(marks@, w, q) == 2);
            }
        }
        assert forall|q: Point| #[trigger] g.neighbors@.contains(q) <==> enemy(st, w, h, color, seed, q) by {
            if g.neighbors@.contains(q) {
                let i = choose|i: int| 0 <= i < g.neighbors@.len() && g.neighbors@[i] == q;
                assert(in_bounds(w, h, g.neighbors@[i]) && mk(marks@, w, q) == 3);
                let j = choose|j: int| 0 <= j < g.inside@.len() && adjacent(#[trigger] g.inside@[j], q);
                assert(g.inside@.contains(g.inside@[j]));
                assert(in_group(st, w, h, color, seed, g.inside@[j]));
            }
            if enemy(st, w, h, color, seed, q) {
                let p = choose|p: Point| #[trigger] in_group(st, w, h, color, seed, p) && adjacent(p, q);
                assert(g.inside@.contains(p));
                let j = choose|j: int| 0 <= j < g.inside@.len() && g.inside@[j] == p;
                assert(adjacent(g.inside@[j], q));
                assert(mk(marks@, w, q) == 3);
            }
        }
    }
    g.color = color;
    g
}

} // verus!
