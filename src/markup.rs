use crate::action::{actions_view, copy_labels, copy_pairs, copy_points, labels_view, Action, ActionView};
use crate::board::Point;
use crate::coord::{same_text, strings_view};
use vstd::prelude::*;

verus! {

/// The kinds of markup drawn on points.
pub enum MarkKind {
    Circle,
    Cross,
    Square,
    Triangle,
    Dim,
}

/// The points an action marks with markup of kind `k`.
pub open spec fn kind_points(a: ActionView, k: MarkKind) -> Seq<Point> {
    match (a, k) {
        (ActionView::Circle(v), MarkKind::Circle) => v,
        (ActionView::Cross(v), MarkKind::Cross) => v,
        (ActionView::Square(v), MarkKind::Square) => v,
        (ActionView::Triangle(v), MarkKind::Triangle) => v,
        (ActionView::Dim(v), MarkKind::Dim) => v,
        _ => Seq::empty(),
    }
}

pub open spec fn label_items(a: ActionView) -> Seq<(usize, usize, Seq<char>)> {
    match a {
        ActionView::Label(v) => v,
        _ => Seq::empty(),
    }
}

pub open spec fn arrow_items(a: ActionView) -> Seq<[Point; 2]> {
    match a {
        ActionView::Arrow(v) => v,
        _ => Seq::empty(),
    }
}

pub open spec fn line_items(a: ActionView) -> Seq<[Point; 2]> {
    match a {
        ActionView::Line(v) => v,
        _ => Seq::empty(),
    }
}

pub open spec fn comment_items(a: ActionView) -> Seq<Seq<char>> {
    match a {
        ActionView::Comment(s) => seq![s],
        _ => Seq::empty(),
    }
}

/// Markup and comments, each kept once.
pub open spec fn is_markup(a: ActionView) -> bool {
    a is Circle || a is Cross || a is Square || a is Triangle || a is Dim || a is Label || a is Arrow || a is Line
        || a is Comment
}

/// The actions that are not markup, in order.
pub open spec fn kept(acts: Seq<ActionView>) -> Seq<ActionView>
    decreases acts.len(),
{
    if acts.len() == 0 {
        Seq::empty()
    } else {
        kept(acts.drop_last()) + if is_markup(acts.last()) {
            Seq::empty()
        } else {
            seq![acts.last()]
        }
    }
}

/// `out` lists the markup of `m`: a circle, cross, square, triangle, dim,
/// label, arrow and line action holding exactly the items of that kind, each
/// once, then one comment action for each comment.
pub open spec fn lists(m: MarkupView, out: Seq<ActionView>) -> bool {
    &&& out.len() == 8 + m.comments.len()
    &&& out[0] is Circle && out[0]->Circle_0.to_set() == m.circles && out[0]->Circle_0.no_duplicates()
    &&& out[1] is Cross && out[1]->Cross_0.to_set() == m.crosses && out[1]->Cross_0.no_duplicates()
    &&& out[2] is Square && out[2]->Square_0.to_set() == m.squares && out[2]->Square_0.no_duplicates()
    &&& out[3] is Triangle && out[3]->Triangle_0.to_set() == m.triangles && out[3]->Triangle_0.no_duplicates()
    &&& out[4] is Dim && out[4]->Dim_0.to_set() == m.dim && out[4]->Dim_0.no_duplicates()
    &&& out[5] is Label && out[5]->Label_0.to_set() == m.labels && out[5]->Label_0.no_duplicates()
    &&& out[6] is Arrow && out[6]->Arrow_0.to_set() == m.arrows && out[6]->Arrow_0.no_duplicates()
    &&& out[7] is Line && out[7]->Line_0.to_set() == m.lines && out[7]->Line_0.no_duplicates()
    &&& forall|j: int| 8 <= j < out.len() ==> (#[trigger] out[j]) is Comment
    &&& forall|t: Seq<char>| m.comments.contains(t) <==> exists|j: int| 8 <= j < out.len() && #[trigger] out[j] == ActionView::Comment(t)
}

/// The markup of a node, gathered so that it can be edited and written back.
pub struct MarkupState {
    circles: Vec<Point>,
    crosses: Vec<Point>,
    squares: Vec<Point>,
    triangles: Vec<Point>,
    dim: Vec<Point>,
    labels: Vec<(usize, usize, String)>,
    arrows: Vec<[Point; 2]>,
    lines: Vec<[Point; 2]>,
    comments: Vec<String>,
}

/// What a markup state holds, as sets.
pub struct MarkupView {
    pub circles: Set<Point>,
    pub crosses: Set<Point>,
    pub squares: Set<Point>,
    pub triangles: Set<Point>,
    pub dim: Set<Point>,
    pub labels: Set<(usize, usize, Seq<char>)>,
    pub arrows: Set<[Point; 2]>,
    pub lines: Set<[Point; 2]>,
    pub comments: Set<Seq<char>>,
}

/// Everything that the actions hold of each kind.
pub open spec fn gathered(acts: Seq<ActionView>) -> MarkupView {
    MarkupView {
        circles: Set::new(|p: Point| exists|i: int| 0 <= i < acts.len() && kind_points(acts[i], MarkKind::Circle).contains(p)),
        crosses: Set::new(|p: Point| exists|i: int| 0 <= i < acts.len() && kind_points(acts[i], MarkKind::Cross).contains(p)),
        squares: Set::new(|p: Point| exists|i: int| 0 <= i < acts.len() && kind_points(acts[i], MarkKind::Square).contains(p)),
        triangles: Set::new(
            |p: Point| exists|i: int| 0 <= i < acts.len() && kind_points(acts[i], MarkKind::Triangle).contains(p),
        ),
        dim: Set::new(|p: Point| exists|i: int| 0 <= i < acts.len() && kind_points(acts[i], MarkKind::Dim).contains(p)),
        labels: Set::new(
            |l: (usize, usize, Seq<char>)| exists|i: int| 0 <= i < acts.len() && label_items(acts[i]).contains(l),
        ),
        arrows: Set::new(|p: [Point; 2]| exists|i: int| 0 <= i < acts.len() && arrow_items(acts[i]).contains(p)),
        lines: Set::new(|p: [Point; 2]| exists|i: int| 0 <= i < acts.len() && line_items(acts[i]).contains(p)),
        comments: Set::new(|s: Seq<char>| exists|i: int| 0 <= i < acts.len() && comment_items(acts[i]).contains(s)),
    }
}

impl View for MarkupState {
    type V = MarkupView;

    closed spec fn view(&self) -> MarkupView {
        MarkupView {
            circles: self.circles@.to_set(),
            crosses: self.crosses@.to_set(),
            squares: self.squares@.to_set(),
            triangles: self.triangles@.to_set(),
            dim: self.dim@.to_set(),
            labels: labels_view(self.labels@).to_set(),
            arrows: self.arrows@.to_set(),
            lines: self.lines@.to_set(),
            comments: strings_view(self.comments@).to_set(),
        }
    }
}


fn has_point(v: &Vec<Point>, p: Point) -> (r: bool)
    ensures
        r == v@.contains(p),
{
    let mut i: usize = 0;
    while i < v.len()
        invariant
            i <= v@.len(),
            forall|j: int| 0 <= j < i ==> v@[j] != p,
        decreases v@.len() - i,
    {
        if v[i].0 == p.0 && v[i].1 == p.1 {
            return true;
        }
        i += 1;
    }
    false
}

fn has_pair(v: &Vec<[Point; 2]>, p: [Point; 2]) -> (r: bool)
    ensures
        r == v@.contains(p),
{
    let mut i: usize = 0;
    while i < v.len()
        invariant
            i <= v@.len(),
            forall|j: int| 0 <= j < i ==> v@[j] != p,
        decreases v@.len() - i,
    {
        let q = v[i];
        if q[0].0 == p[0].0 && q[0].1 == p[0].1 && q[1].0 == p[1].0 && q[1].1 == p[1].1 {
            assert(q =~= p);
            return true;
        }
        assert(q != p) by {
            if q == p {
                assert(q[0] == p[0] && q[1] == p[1]);
            }
        }
        i += 1;
    }
    false
}

fn has_label(v: &Vec<(usize, usize, String)>, x: usize, y: usize, t: &str) -> (r: bool)
    ensures
        r == labels_view(v@).contains((x, y, t@)),
{
    let mut i: usize = 0;
    while i < v.len()
        invariant
            i <= v@.len(),
            forall|j: int| 0 <= j < i ==> labels_view(v@)[j] != (x, y, t@),
        decreases v@.len() - i,
    {
        let (a, b, c) = &v[i];
        if *a == x && *b == y && same_text(c.as_str(), t) {
            assert(labels_view(v@)[i as int] == (x, y, t@));
            return true;
        }
        i += 1;
    }
    false
}

fn has_text(v: &Vec<String>, t: &str) -> (r: bool)
    ensures
        r == strings_view(v@).contains(t@),
{
    let mut i: usize = 0;
    while i < v.len()
        invariant
            i <= v@.len(),
            forall|j: int| 0 <= j < i ==> strings_view(v@)[j] != t@,
        decreases v@.len() - i,
    {
        if same_text(v[i].as_str(), t) {
            assert(strings_view(v@)[i as int] == t@);
            return true;
        }
        i += 1;
    }
    false
}

/// Adds each point of `v` that `set` does not hold yet.
fn push_points(v: &Vec<Point>, set: &mut Vec<Point>)
    requires
        old(set)@.no_duplicates(),
    ensures
        final(set)@.no_duplicates(),
        final(set)@.to_set() == old(set)@.to_set() + v@.to_set(),
{
    let mut i: usize = 0;
    while i < v.len()
        invariant
            i <= v@.len(),
            set@.no_duplicates(),
            set@.to_set() == old(set)@.to_set() + v@.subrange(0, i as int).to_set(),
        decreases v@.len() - i,
    {
        let p = v[i];
        let ghost before = set@;
        if !has_point(set, p) {
            set.push(p);
            proof {
                before.lemma_push_to_set_commute(p);
            }
        } else {
            assert(before.to_set() =~= before.to_set().insert(p));
        }
        assert(v@.subrange(0, i as int + 1) =~= v@.subrange(0, i as int).push(p));
        proof {
            v@.subrange(0, i as int).lemma_push_to_set_commute(p);
        }
        assert(set@.to_set() =~= old(set)@.to_set() + v@.subrange(0, i as int + 1).to_set());
        i += 1;
    }
    assert(v@.subrange(0, v@.len() as int) =~= v@);
}

/// Adds each pair of `v` that `set` does not hold yet.
fn push_pairs(v: &Vec<[Point; 2]>, set: &mut Vec<[Point; 2]>)
    requires
        old(set)@.no_duplicates(),
    ensures
        final(set)@.no_duplicates(),
        final(set)@.to_set() == old(set)@.to_set() + v@.to_set(),
{
    let mut i: usize = 0;
    while i < v.len()
        invariant
            i <= v@.len(),
            set@.no_duplicates(),
            set@.to_set() == old(set)@.to_set() + v@.subrange(0, i as int).to_set(),
        decreases v@.len() - i,
    {
        let p = v[i];
        let ghost before = set@;
        if !has_pair(set, p) {
            set.push(p);
            proof {
                before.lemma_push_to_set_commute(p);
            }
        } else {
            assert(before.to_set() =~= before.to_set().insert(p));
        }
        assert(v@.subrange(0, i as int + 1) =~= v@.subrange(0, i as int).push(p));
        proof {
            v@.subrange(0, i as int).lemma_push_to_set_commute(p);
        }
        assert(set@.to_set() =~= old(set)@.to_set() + v@.subrange(0, i as int + 1).to_set());
        i += 1;
    }
    assert(v@.subrange(0, v@.len() as int) =~= v@);
}

/// Adds each label of `v` that `set` does not hold yet.
fn push_labels(v: &Vec<(usize, usize, String)>, set: &mut Vec<(usize, usize, String)>)
    requires
        labels_view(old(set)@).no_duplicates(),
    ensures
        labels_view(final(set)@).no_duplicates(),
        labels_view(final(set)@).to_set() == labels_view(old(set)@).to_set() + labels_view(v@).to_set(),
{
    let ghost lv = labels_view(v@);
    let mut i: usize = 0;
    while i < v.len()
        invariant
            lv == labels_view(v@),
            i <= v@.len(),
            labels_view(set@).no_duplicates(),
            labels_view(set@).to_set() == labels_view(old(set)@).to_set() + lv.subrange(0, i as int).to_set(),
        decreases v@.len() - i,
    {
        let (x, y, t) = &v[i];
        let ghost item = (*x, *y, t@);
        let ghost before = labels_view(set@);
        if !has_label(set, *x, *y, t.as_str()) {
            set.push((*x, *y, t.clone()));
            assert(labels_view(set@) =~= before.push(item));
            proof {
                before.lemma_push_to_set_commute(item);
            }
        } else {
            assert(before.to_set() =~= before.to_set().insert(item));
        }
        assert(lv[i as int] == item);
        assert(lv.subrange(0, i as int + 1) =~= lv.subrange(0, i as int).push(item));
        proof {
            lv.subrange(0, i as int).lemma_push_to_set_commute(item);
        }
        assert(labels_view(set@).to_set() =~= labels_view(old(set)@).to_set() + lv.subrange(0, i as int + 1).to_set());
        i += 1;
    }
    assert(lv.subrange(0, v@.len() as int) =~= lv);
}

/// Adds the comment unless `set` holds it already.
fn push_comment(c: &String, set: &mut Vec<String>)
    requires
        strings_view(old(set)@).no_duplicates(),
    ensures
        strings_view(final(set)@).no_duplicates(),
        strings_view(final(set)@).to_set() == strings_view(old(set)@).to_set().insert(c@),
{
    let ghost before = strings_view(set@);
    if !has_text(set, c.as_str()) {
        set.push(c.clone());
        assert(strings_view(set@) =~= before.push(c@));
        proof {
            before.lemma_push_to_set_commute(c@);
        }
    } else {
        assert(before.to_set() =~= before.to_set().insert(c@));
    }
}


proof fn lemma_gathered_step(acts: Seq<ActionView>, i: int)
    requires
        0 <= i < acts.len(),
    ensures
        ({
            let g0 = gathered(acts.subrange(0, i));
            let g1 = gathered(acts.subrange(0, i + 1));
            let a = acts[i];
            &&& g1.circles == g0.circles + kind_points(a, MarkKind::Circle).to_set()
            &&& g1.crosses == g0.crosses + kind_points(a, MarkKind::Cross).to_set()
            &&& g1.squares == g0.squares + kind_points(a, MarkKind::Square).to_set()
            &&& g1.triangles == g0.triangles + kind_points(a, MarkKind::Triangle).to_set()
            &&& g1.dim == g0.dim + kind_points(a, MarkKind::Dim).to_set()
            &&& g1.labels == g0.labels + label_items(a).to_set()
            &&& g1.arrows == g0.arrows + arrow_items(a).to_set()
            &&& g1.lines == g0.lines + line_items(a).to_set()
            &&& g1.comments == g0.comments + comment_items(a).to_set()
        }),
{
    let s0 = acts.subrange(0, i);
    let s1 = acts.subrange(0, i + 1);
    assert(forall|j: int| 0 <= j < i ==> s1[j] == s0[j]);
    assert(s1[i] == acts[i]);
    let g0 = gathered(s0);
    let g1 = gathered(s1);
    assert(g1.circles =~= g0.circles + kind_points(acts[i], MarkKind::Circle).to_set());
    assert(g1.crosses =~= g0.crosses + kind_points(acts[i], MarkKind::Cross).to_set());
    assert(g1.squares =~= g0.squares + kind_points(acts[i], MarkKind::Square).to_set());
    assert(g1.triangles =~= g0.triangles + kind_points(acts[i], MarkKind::Triangle).to_set());
    assert(g1.dim =~= g0.dim + kind_points(acts[i], MarkKind::Dim).to_set());
    assert(g1.labels =~= g0.labels + label_items(acts[i]).to_set());
    assert(g1.arrows =~= g0.arrows + arrow_items(acts[i]).to_set());
    assert(g1.lines =~= g0.lines + line_items(acts[i]).to_set());
    assert(g1.comments =~= g0.comments + comment_items(acts[i]).to_set());
}

impl MarkupState {
    /// Each kind holds every item once.
    pub closed spec fn wf(&self) -> bool {
        &&& self.circles@.no_duplicates()
        &&& self.crosses@.no_duplicates()
        &&& self.squares@.no_duplicates()
        &&& self.triangles@.no_duplicates()
        &&& self.dim@.no_duplicates()
        &&& labels_view(self.labels@).no_duplicates()
        &&& self.arrows@.no_duplicates()
        &&& self.lines@.no_duplicates()
        &&& strings_view(self.comments@).no_duplicates()
    }

    /// Gathers the markup and comments of a node's actions.
    pub fn from_actions(actions: &Vec<Action>) -> (r: MarkupState)
        ensures
            r.wf(),
            r@ == gathered(actions_view(actions@)),
    {
        let mut r = MarkupState {
            circles: Vec::new(),
            crosses: Vec::new(),
            squares: Vec::new(),
            triangles: Vec::new(),
            dim: Vec::new(),
            labels: Vec::new(),
            arrows: Vec::new(),
            lines: Vec::new(),
            comments: Vec::new(),
        };
        let ghost acts = actions_view(actions@);
        proof {
            assert(labels_view(r.labels@) =~= Seq::empty());
            assert(strings_view(r.comments@) =~= Seq::empty());
            assert(r@.circles =~= gathered(acts.subrange(0, 0)).circles);
            assert(r@.crosses =~= gathered(acts.subrange(0, 0)).crosses);
            assert(r@.squares =~= gathered(acts.subrange(0, 0)).squares);
            assert(r@.triangles =~= gathered(acts.subrange(0, 0)).triangles);
            assert(r@.dim =~= gathered(acts.subrange(0, 0)).dim);
            assert(r@.labels =~= gathered(acts.subrange(0, 0)).labels);
            assert(r@.arrows =~= gathered(acts.subrange(0, 0)).arrows);
            assert(r@.lines =~= gathered(acts.subrange(0, 0)).lines);
            assert(r@.comments =~= gathered(acts.subrange(0, 0)).comments);
            assert(r@ == gathered(acts.subrange(0, 0)));
        }
        let mut i: usize = 0;
        while i < actions.len()
            invariant
                acts == actions_view(actions@),
                i <= actions@.len(),
                r.wf(),
                r@ == gathered(acts.subrange(0, i as int)),
            decreases actions@.len() - i,
        {
            proof {
                lemma_gathered_step(acts, i as int);
            }
            let ghost before = r@;
            assert(acts[i as int] == actions@[i as int]@);
            match &actions[i] {
                Action::Circle(v) => push_points(v, &mut r.circles),
                Action::Cross(v) => push_points(v, &mut r.crosses),
                Action::Square(v) => push_points(v, &mut r.squares),
                Action::Triangle(v) => push_points(v, &mut r.triangles),
                Action::Dim(v) => push_points(v, &mut r.dim),
                Action::Label(v) => push_labels(v, &mut r.labels),
                Action::Arrow(v) => push_pairs(v, &mut r.arrows),
                Action::Line(v) => push_pairs(v, &mut r.lines),
                Action::Comment(c) => {
                    push_comment(c, &mut r.comments);
                    proof {
                        let e = Seq::<Seq<char>>::empty();
                        e.lemma_push_to_set_commute(c@);
                        assert(e.to_set() =~= Set::<Seq<char>>::empty());
                        assert(seq![c@] =~= e.push(c@));
                        assert(before.comments + seq![c@].to_set() =~= before.comments.insert(c@));
                    }
                },
                _ => {},
            }
            proof {
                let g1 = gathered(acts.subrange(0, i as int + 1));
                assert(r@.circles =~= g1.circles);
                assert(r@.crosses =~= g1.crosses);
                assert(r@.squares =~= g1.squares);
                assert(r@.triangles =~= g1.triangles);
                assert(r@.dim =~= g1.dim);
                assert(r@.labels =~= g1.labels);
                assert(r@.arrows =~= g1.arrows);
                assert(r@.lines =~= g1.lines);
                assert(r@.comments =~= g1.comments);
                assert(r@ == g1);
            }
            i += 1;
        }
        assert(acts.subrange(0, actions@.len() as int) =~= acts);
        r
    }

    /// Replaces the markup and comments among `v` with those of `self`:
    /// the other actions stay in order, and the markup follows them.
    pub fn edit_actions(&self, v: &mut Vec<Action>)
        requires
            self.wf(),
        ensures
            ({
                let k = kept(actions_view(old(v)@));
                let out = actions_view(final(v)@);
                &&& out.len() >= k.len()
                &&& out.subrange(0, k.len() as int) == k
                &&& lists(self@, out.skip(k.len() as int))
            }),
    {
        let ghost acts = actions_view(v@);
        let mut out: Vec<Action> = Vec::new();
        let mut i: usize = 0;
        assert(actions_view(out@) =~= kept(acts.subrange(0, 0)));
        while i < v.len()
            invariant
                acts == actions_view(v@),
                i <= v@.len(),
                actions_view(out@) == kept(acts.subrange(0, i as int)),
            decreases v@.len() - i,
        {
            assert(acts.subrange(0, i as int + 1).drop_last() =~= acts.subrange(0, i as int));
            assert(acts[i as int] == v@[i as int]@);
            let markup = match &v[i] {
                Action::Circle(_) | Action::Cross(_) | Action::Square(_) | Action::Triangle(_) | Action::Dim(_)
                | Action::Label(_) | Action::Arrow(_) | Action::Line(_) | Action::Comment(_) => true,
                _ => false,
            };
            if !markup {
                let ghost before = out@;
                out.push(v[i].duplicate());
                assert(actions_view(out@) =~= actions_view(before).push(acts[i as int]));
            }
            i += 1;
        }
        assert(acts.subrange(0, v@.len() as int) =~= acts);
        let ghost k = actions_view(out@);
        let n = out.len();
        out.push(Action::Circle(copy_points(&self.circles)));
        out.push(Action::Cross(copy_points(&self.crosses)));
        out.push(Action::Square(copy_points(&self.squares)));
        out.push(Action::Triangle(copy_points(&self.triangles)));
        out.push(Action::Dim(copy_points(&self.dim)));
        out.push(Action::Label(copy_labels(&self.labels)));
        out.push(Action::Arrow(copy_pairs(&self.arrows)));
        out.push(Action::Line(copy_pairs(&self.lines)));
        let ghost cv = strings_view(self.comments@);
        let mut j: usize = 0;
        while j < self.comments.len()
            invariant
                cv == strings_view(self.comments@),
                j <= self.comments@.len(),
                out@.len() == n + 8 + j,
                k == actions_view(out@.subrange(0, n as int)),
                out@[n as int]@ == ActionView::Circle(self.circles@),
                out@[n + 1]@ == ActionView::Cross(self.crosses@),
                out@[n + 2]@ == ActionView::Square(self.squares@),
                out@[n + 3]@ == ActionView::Triangle(self.triangles@),
                out@[n + 4]@ == ActionView::Dim(self.dim@),
                out@[n + 5]@ == ActionView::Label(labels_view(self.labels@)),
                out@[n + 6]@ == ActionView::Arrow(self.arrows@),
                out@[n + 7]@ == ActionView::Line(self.lines@),
                forall|q: int| 0 <= q < j ==> #[trigger] out@[n + 8 + q]@ == ActionView::Comment(cv[q]),
            decreases self.comments@.len() - j,
        {
            out.push(Action::Comment(self.comments[j].clone()));
            assert(actions_view(out@.subrange(0, n as int)) =~= k);
            j += 1;
        }
        proof {
            let o = actions_view(out@);
            let tail = o.skip(n as int);
            assert(o.subrange(0, n as int) =~= k);
            cv.unique_seq_to_set();
            assert(tail[0] == out@[n as int]@);
            assert(tail[1] == out@[n + 1]@);
            assert(tail[2] == out@[n + 2]@);
            assert(tail[3] == out@[n + 3]@);
            assert(tail[4] == out@[n + 4]@);
            assert(tail[5] == out@[n + 5]@);
            assert(tail[6] == out@[n + 6]@);
            assert(tail[7] == out@[n + 7]@);
            assert forall|t: Seq<char>| self@.comments.contains(t) <==> exists|q: int|
                8 <= q < tail.len() && #[trigger] tail[q] == ActionView::Comment(t) by {
                if self@.comments.contains(t) {
                    let q = choose|q: int| 0 <= q < cv.len() && cv[q] == t;
                    assert(tail[8 + q] == out@[n + 8 + q]@);
                }
                if exists|q: int| 8 <= q < tail.len() && #[trigger] tail[q] == ActionView::Comment(t) {
                    let q = choose|q: int| 8 <= q < tail.len() && #[trigger] tail[q] == ActionView::Comment(t);
                    assert(tail[q] == out@[n + q]@);
                    assert(out@[n + 8 + (q - 8)]@ == ActionView::Comment(cv[q - 8]));
                    assert(cv.contains(t));
                }
            }
            assert forall|q: int| 8 <= q < tail.len() implies (#[trigger] tail[q]) is Comment by {
                assert(tail[q] == out@[n + 8 + (q - 8)]@);
            }
            assert(cv.to_set().len() == cv.len());
        }
        *v = out;
    }
}

} // verus!
