use crate::board::Point;
use crate::coord::{
    pair_coords, pairs_value, point_value, points_list, points_pair_list, points_value, same_text, single_colon,
    char_code, chars_of, is_list, is_list_name, point_text, points_fit, points_text, push_char, string_coords,
    strings_view, write_point, write_points, SgfError, SgfResult,
};
use vstd::prelude::*;
use vstd::string::{StrSliceExecFns, StringExecFns};

verus! {

/// One property of a game record node, as the editor uses it.
#[derive(Clone, PartialEq, Eq, Debug)]
pub enum Action {
    NoOp,
    /// `B[xy]`
    PlayBlack(usize, usize),
    /// `W[xy]`
    PlayWhite(usize, usize),
    /// `AB[xy][xy]...`
    AddBlack(Vec<Point>),
    /// `AW[xy][xy]...`
    AddWhite(Vec<Point>),
    /// `B[]`
    PassBlack,
    /// `W[]`
    PassWhite,
    /// `SZ[w]` or `SZ[w:h]`
    Size(usize, usize),
    /// `CR[xy][xy]...`
    Circle(Vec<Point>),
    /// `MA[xy][xy]...`
    Cross(Vec<Point>),
    /// `SQ[xy][xy]...`
    Square(Vec<Point>),
    /// `TR[xy][xy]...`
    Triangle(Vec<Point>),
    /// `DD[xy][xy]...`
    Dim(Vec<Point>),
    /// `LB[xy:text]...`
    Label(Vec<(usize, usize, String)>),
    /// `AR[xy:xy]...`
    Arrow(Vec<[Point; 2]>),
    /// `LN[xy:xy]...`
    Line(Vec<[Point; 2]>),
    /// `C[text]`
    Comment(String),
    /// Any other property with one value.
    Other(String, String),
    /// Any other property with a list of values.
    OtherMany(String, Vec<String>),
}

/// An action as mathematical values.
pub enum ActionView {
    NoOp,
    PlayBlack(usize, usize),
    PlayWhite(usize, usize),
    AddBlack(Seq<Point>),
    AddWhite(Seq<Point>),
    PassBlack,
    PassWhite,
    Size(usize, usize),
    Circle(Seq<Point>),
    Cross(Seq<Point>),
    Square(Seq<Point>),
    Triangle(Seq<Point>),
    Dim(Seq<Point>),
    Label(Seq<(usize, usize, Seq<char>)>),
    Arrow(Seq<[Point; 2]>),
    Line(Seq<[Point; 2]>),
    Comment(Seq<char>),
    Other(Seq<char>, Seq<char>),
    OtherMany(Seq<char>, Seq<Seq<char>>),
}

pub open spec fn labels_view(v: Seq<(usize, usize, String)>) -> Seq<(usize, usize, Seq<char>)> {
    Seq::new(v.len(), |i: int| (v[i].0, v[i].1, v[i].2@))
}

impl View for Action {
    type V = ActionView;

    open spec fn view(&self) -> ActionView {
        match self {
            Action::NoOp => ActionView::NoOp,
            Action::PlayBlack(x, y) => ActionView::PlayBlack(*x, *y),
            Action::PlayWhite(x, y) => ActionView::PlayWhite(*x, *y),
            Action::AddBlack(v) => ActionView::AddBlack(v@),
            Action::AddWhite(v) => ActionView::AddWhite(v@),
            Action::PassBlack => ActionView::PassBlack,
            Action::PassWhite => ActionView::PassWhite,
            Action::Size(w, h) => ActionView::Size(*w, *h),
            Action::Circle(v) => ActionView::Circle(v@),
            Action::Cross(v) => ActionView::Cross(v@),
            Action::Square(v) => ActionView::Square(v@),
            Action::Triangle(v) => ActionView::Triangle(v@),
            Action::Dim(v) => ActionView::Dim(v@),
            Action::Label(v) => ActionView::Label(labels_view(v@)),
            Action::Arrow(v) => ActionView::Arrow(v@),
            Action::Line(v) => ActionView::Line(v@),
            Action::Comment(s) => ActionView::Comment(s@),
            Action::Other(k, v) => ActionView::Other(k@, v@),
            Action::OtherMany(k, v) => ActionView::OtherMany(k@, strings_view(v@)),
        }
    }
}

/// What a case mapping of the text gives; it depends on the characters
/// alone.
pub uninterp spec fn upper_of(s: Seq<char>) -> Seq<char>;

/// Relies on `str::to_uppercase`: the upper-case form of the text.
#[verifier::external_body]
fn to_upper(s: &str) -> (r: String)
    ensures
        r@ == upper_of(s@),
{
    s.to_uppercase()
}

pub open spec fn is_digit(c: char) -> bool {
    48 <= c as u32 <= 57
}

/// The state after reading the characters of an `SZ` value: the two
/// numbers, which of them is being read, and whether one grew past a
/// `usize`. `None` after a second `:`.
pub open spec fn size_scan(v: Seq<char>) -> Option<(nat, nat, nat, bool)>
    decreases v.len(),
{
    if v.len() == 0 {
        Some((0, 0, 0, false))
    } else {
        match size_scan(v.drop_last()) {
            None => None,
            Some((a, b, i, over)) => {
                let c = v.last();
                if is_digit(c) {
                    let d = (c as u32 - 48) as nat;
                    if i == 0 {
                        let n = a * 10 + d;
                        if n > usize::MAX {
                            Some((a, b, i, true))
                        } else {
                            Some((n, b, i, over))
                        }
                    } else {
                        let n = b * 10 + d;
                        if n > usize::MAX {
                            Some((a, b, i, true))
                        } else {
                            Some((a, n, i, over))
                        }
                    }
                } else if c == ':' {
                    if i == 1 {
                        None
                    } else {
                        Some((a, b, 1, over))
                    }
                } else {
                    Some((a, b, i, over))
                }
            },
        }
    }
}

/// What an `SZ` value reads as: width and height, the height equal to the
/// width when only one number is given. Characters other than digits and
/// `:` are skipped.
pub open spec fn size_value(v: Seq<char>) -> SgfResult<(usize, usize)> {
    match size_scan(v) {
        None => Err(SgfError::SizeParse),
        Some((a, b, i, over)) => if over {
            Err(SgfError::SizeParse)
        } else if i == 0 {
            Ok((a as usize, a as usize))
        } else {
            Ok((a as usize, b as usize))
        },
    }
}

fn read_size(v: &str) -> (r: SgfResult<(usize, usize)>)
    ensures
        r == size_value(v@),
{
    let n = v.unicode_len();
    let mut a: usize = 0;
    let mut b: usize = 0;
    let mut i: usize = 0;
    let mut over = false;
    let mut k: usize = 0;
    assert(v@.subrange(0, 0) =~= Seq::<char>::empty());
    while k < n
        invariant
            n == v@.len(),
            k <= n,
            size_scan(v@.subrange(0, k as int)) == Some((a as nat, b as nat, i as nat, over)),
            i <= 1,
        decreases n - k,
    {
        let c = v.get_char(k);
        assert(v@.subrange(0, k as int + 1).drop_last() =~= v@.subrange(0, k as int));
        let code = c as u32;
        if 48 <= code && code <= 57 {
            let d = (code - 48) as usize;
            if i == 0 {
                if a > (usize::MAX - d) / 10 {
                    over = true;
                } else {
                    a = a * 10 + d;
                }
            } else {
                if b > (usize::MAX - d) / 10 {
                    over = true;
                } else {
                    b = b * 10 + d;
                }
            }
        } else if c == ':' {
            if i == 1 {
                proof {
                    assert(size_scan(v@.subrange(0, k as int + 1)) is None);
                    lemma_size_scan_none(v@, k as int + 1);
                }
                return Err(SgfError::SizeParse);
            }
            i = 1;
        }
        k += 1;
    }
    assert(v@.subrange(0, n as int) =~= v@);
    if over {
        Err(SgfError::SizeParse)
    } else if i == 0 {
        Ok((a, a))
    } else {
        Ok((a, b))
    }
}

proof fn lemma_size_scan_none(v: Seq<char>, k: int)
    requires
        0 <= k <= v.len(),
        size_scan(v.subrange(0, k)) is None,
    ensures
        size_scan(v) is None,
    decreases v.len() - k,
{
    if k < v.len() {
        assert(v.subrange(0, k + 1).drop_last() =~= v.subrange(0, k));
        lemma_size_scan_none(v, k + 1);
    } else {
        assert(v.subrange(0, k) =~= v);
    }
}


/// A result with its action seen as mathematical values.
pub open spec fn view_result(r: SgfResult<Action>) -> SgfResult<ActionView> {
    match r {
        Ok(a) => Ok(a@),
        Err(e) => Err(e),
    }
}

/// What a property with one value reads as. The name is matched without
/// regard to case.
pub open spec fn pair_action(k: Seq<char>, v: Seq<char>) -> SgfResult<ActionView> {
    upper_pair_action(upper_of(k), k, v)
}

/// What a property with one value reads as, given its name `k` and the
/// upper-case form `up` of that name, which is what is matched.
pub open spec fn upper_pair_action(up: Seq<char>, k: Seq<char>, v: Seq<char>) -> SgfResult<ActionView> {
    if up == "B"@ {
        if v.len() == 0 {
            Ok(ActionView::PassBlack)
        } else {
            match point_value(v) {
                Ok(p) => Ok(ActionView::PlayBlack(p.0, p.1)),
                Err(e) => Err(e),
            }
        }
    } else if up == "W"@ {
        if v.len() == 0 {
            Ok(ActionView::PassWhite)
        } else {
            match point_value(v) {
                Ok(p) => Ok(ActionView::PlayWhite(p.0, p.1)),
                Err(e) => Err(e),
            }
        }
    } else if up == "SZ"@ {
        match size_value(v) {
            Ok(wh) => Ok(ActionView::Size(wh.0, wh.1)),
            Err(e) => Err(e),
        }
    } else if up == "C"@ {
        Ok(ActionView::Comment(v))
    } else {
        Ok(ActionView::Other(k, v))
    }
}

/// What a label value `xy:text` reads as.
pub open spec fn label_value(s: Seq<char>) -> SgfResult<(usize, usize, Seq<char>)> {
    if exists|k: int| single_colon(s, k) {
        let k = choose|k: int| single_colon(s, k);
        match point_value(s.subrange(0, k)) {
            Err(e) => Err(e),
            Ok(p) => Ok((p.0, p.1, s.subrange(k + 1, s.len() as int))),
        }
    } else {
        Err(SgfError::InvalidComposedLength)
    }
}

/// What reading each value as a label gives: the labels, or the first error.
pub open spec fn labels_value(v: Seq<Seq<char>>) -> SgfResult<Seq<(usize, usize, Seq<char>)>>
    decreases v.len(),
{
    if v.len() == 0 {
        Ok(Seq::empty())
    } else {
        match labels_value(v.drop_last()) {
            Err(e) => Err(e),
            Ok(ls) => match label_value(v.last()) {
                Ok(l) => Ok(ls.push(l)),
                Err(e) => Err(e),
            },
        }
    }
}

proof fn lemma_labels_value_err(v: Seq<Seq<char>>, k: int)
    requires
        0 <= k <= v.len(),
        labels_value(v.subrange(0, k)) is Err,
    ensures
        labels_value(v) == labels_value(v.subrange(0, k)),
    decreases v.len() - k,
{
    if k < v.len() {
        assert(v.subrange(0, k + 1).drop_last() =~= v.subrange(0, k));
        lemma_labels_value_err(v, k + 1);
    } else {
        assert(v.subrange(0, k) =~= v);
    }
}

fn label_list(v: &Vec<String>) -> (r: SgfResult<Vec<(usize, usize, String)>>)
    ensures
        r is Ok <==> labels_value(strings_view(v@)) is Ok,
        r is Ok ==> labels_value(strings_view(v@)) == Ok::<Seq<(usize, usize, Seq<char>)>, SgfError>(labels_view(r->Ok_0@)),
        r is Err ==> labels_value(strings_view(v@)) == Err::<Seq<(usize, usize, Seq<char>)>, SgfError>(r->Err_0),
{
    let mut out: Vec<(usize, usize, String)> = Vec::with_capacity(v.len());
    let mut i: usize = 0;
    assert(strings_view(v@).subrange(0, 0) =~= Seq::<Seq<char>>::empty());
    assert(labels_view(out@) =~= Seq::empty());
    while i < v.len()
        invariant
            i <= v@.len(),
            labels_value(strings_view(v@).subrange(0, i as int)) == Ok::<Seq<(usize, usize, Seq<char>)>, SgfError>(
                labels_view(out@),
            ),
        decreases v@.len() - i,
    {
        assert(strings_view(v@).subrange(0, i as int + 1).drop_last() =~= strings_view(v@).subrange(0, i as int));
        let s = v[i].as_str();
        match crate::coord::find_single_colon(s) {
            None => {
                proof {
                    lemma_labels_value_err(strings_view(v@), i as int + 1);
                }
                return Err(SgfError::InvalidComposedLength);
            },
            Some(k) => {
                proof {
                    assert(forall|j: int| single_colon(s@, j) ==> j == k);
                }
                let n = s.unicode_len();
                match string_coords(s.substring_char(0, k)) {
                    Err(e) => {
                        proof {
                            lemma_labels_value_err(strings_view(v@), i as int + 1);
                        }
                        return Err(e);
                    },
                    Ok(p) => {
                        let text = String::from_str(s.substring_char(k + 1, n));
                        let ghost before = out@;
                        out.push((p.0, p.1, text));
                        assert(labels_view(out@) =~= labels_view(before).push((p.0, p.1, text@)));
                    },
                }
            },
        }
        i += 1;
    }
    assert(strings_view(v@).subrange(0, v@.len() as int) =~= strings_view(v@));
    Ok(out)
}

fn copy_strings(v: &Vec<String>) -> (r: Vec<String>)
    ensures
        r@ == v@,
{
    let mut r: Vec<String> = Vec::with_capacity(v.len());
    let mut i: usize = 0;
    while i < v.len()
        invariant
            i <= v@.len(),
            r@ == v@.subrange(0, i as int),
        decreases v@.len() - i,
    {
        r.push(v[i].clone());
        i += 1;
        assert(r@ =~= v@.subrange(0, i as int));
    }
    assert(v@.subrange(0, v@.len() as int) =~= v@);
    r
}

/// What a property with a list of values reads as. The name is matched
/// exactly.
pub open spec fn many_action(k: Seq<char>, v: Seq<Seq<char>>) -> SgfResult<ActionView> {
    if k == "AB"@ || k == "AW"@ || k == "CR"@ || k == "MA"@ || k == "SQ"@ || k == "TR"@ || k == "DD"@ {
        match points_value(v) {
            Err(e) => Err(e),
            Ok(ps) => Ok(
                if k == "AB"@ {
                    ActionView::AddBlack(ps)
                } else if k == "AW"@ {
                    ActionView::AddWhite(ps)
                } else if k == "CR"@ {
                    ActionView::Circle(ps)
                } else if k == "MA"@ {
                    ActionView::Cross(ps)
                } else if k == "SQ"@ {
                    ActionView::Square(ps)
                } else if k == "TR"@ {
                    ActionView::Triangle(ps)
                } else {
                    ActionView::Dim(ps)
                },
            ),
        }
    } else if k == "LB"@ {
        match labels_value(v) {
            Err(e) => Err(e),
            Ok(ls) => Ok(ActionView::Label(ls)),
        }
    } else if k == "AR"@ || k == "LN"@ {
        match pairs_value(v) {
            Err(e) => Err(e),
            Ok(ps) => Ok(
                if k == "AR"@ {
                    ActionView::Arrow(ps)
                } else {
                    ActionView::Line(ps)
                },
            ),
        }
    } else {
        Ok(ActionView::OtherMany(k, v))
    }
}

pub(crate) fn copy_points(v: &Vec<Point>) -> (r: Vec<Point>)
    ensures
        r@ == v@,
{
    let mut r: Vec<Point> = Vec::with_capacity(v.len());
    let mut i: usize = 0;
    while i < v.len()
        invariant
            i <= v@.len(),
            r@ == v@.subrange(0, i as int),
        decreases v@.len() - i,
    {
        r.push(v[i]);
        i += 1;
        assert(r@ =~= v@.subrange(0, i as int));
    }
    assert(v@.subrange(0, v@.len() as int) =~= v@);
    r
}

pub(crate) fn copy_pairs(v: &Vec<[Point; 2]>) -> (r: Vec<[Point; 2]>)
    ensures
        r@ == v@,
{
    let mut r: Vec<[Point; 2]> = Vec::with_capacity(v.len());
    let mut i: usize = 0;
    while i < v.len()
        invariant
            i <= v@.len(),
            r@ == v@.subrange(0, i as int),
        decreases v@.len() - i,
    {
        let p = v[i];
        r.push([p[0], p[1]]);
        assert(r@.last() =~= v@[i as int]);
        i += 1;
        assert(r@ =~= v@.subrange(0, i as int));
    }
    assert(v@.subrange(0, v@.len() as int) =~= v@);
    r
}

pub(crate) fn copy_labels(v: &Vec<(usize, usize, String)>) -> (r: Vec<(usize, usize, String)>)
    ensures
        labels_view(r@) == labels_view(v@),
{
    let mut r: Vec<(usize, usize, String)> = Vec::with_capacity(v.len());
    let mut i: usize = 0;
    while i < v.len()
        invariant
            i <= v@.len(),
            labels_view(r@) == labels_view(v@.subrange(0, i as int)),
        decreases v@.len() - i,
    {
        let (x, y, t) = &v[i];
        let ghost before = r@;
        r.push((*x, *y, t.clone()));
        assert(labels_view(r@) =~= labels_view(before).push((*x, *y, t@)));
        assert(labels_view(v@.subrange(0, i as int + 1)) =~= labels_view(v@.subrange(0, i as int)).push((*x, *y, t@)));
        i += 1;
    }
    assert(v@.subrange(0, v@.len() as int) =~= v@);
    r
}

/// Copies of the actions, equal to them as values.
pub fn copy_actions(v: &Vec<Action>) -> (r: Vec<Action>)
    ensures
        actions_view(r@) == actions_view(v@),
{
    let mut r: Vec<Action> = Vec::with_capacity(v.len());
    let mut i: usize = 0;
    while i < v.len()
        invariant
            i <= v@.len(),
            actions_view(r@) == actions_view(v@.subrange(0, i as int)),
        decreases v@.len() - i,
    {
        let ghost before = r@;
        let a = v[i].duplicate();
        r.push(a);
        assert(actions_view(r@) =~= actions_view(before).push(v@[i as int]@));
        assert(actions_view(v@.subrange(0, i as int + 1)) =~= actions_view(v@.subrange(0, i as int)).push(v@[i as int]@));
        i += 1;
    }
    assert(v@.subrange(0, v@.len() as int) =~= v@);
    r
}

impl Action {
    /// A copy that is equal to `self` as a value.
    pub fn duplicate(&self) -> (r: Action)
        ensures
            r@ == self@,
    {
        match self {
            Action::NoOp => Action::NoOp,
            Action::PlayBlack(x, y) => Action::PlayBlack(*x, *y),
            Action::PlayWhite(x, y) => Action::PlayWhite(*x, *y),
            Action::AddBlack(v) => Action::AddBlack(copy_points(v)),
            Action::AddWhite(v) => Action::AddWhite(copy_points(v)),
            Action::PassBlack => Action::PassBlack,
            Action::PassWhite => Action::PassWhite,
            Action::Size(w, h) => Action::Size(*w, *h),
            Action::Circle(v) => Action::Circle(copy_points(v)),
            Action::Cross(v) => Action::Cross(copy_points(v)),
            Action::Square(v) => Action::Square(copy_points(v)),
            Action::Triangle(v) => Action::Triangle(copy_points(v)),
            Action::Dim(v) => Action::Dim(copy_points(v)),
            Action::Label(v) => Action::Label(copy_labels(v)),
            Action::Arrow(v) => Action::Arrow(copy_pairs(v)),
            Action::Line(v) => Action::Line(copy_pairs(v)),
            Action::Comment(s) => Action::Comment(s.clone()),
            Action::Other(k, v) => Action::Other(k.clone(), v.clone()),
            Action::OtherMany(k, v) => {
                let c = copy_strings(v);
                assert(strings_view(c@) =~= strings_view(v@));
                Action::OtherMany(k.clone(), c)
            },
        }
    }

    /// Reads a property with one value. The name is matched without regard
    /// to case.
    pub fn from_pair(k: &str, v: &str) -> (r: SgfResult<Action>)
        ensures
            view_result(r) == pair_action(k@, v@),
    {
        let upper = to_upper(k);
        Action::from_upper_pair(upper.as_str(), k, v)
    }

    /// Reads a property with one value, given its name `k` and the
    /// upper-case form `up` of that name, which is what is matched.
    pub fn from_upper_pair(up: &str, k: &str, v: &str) -> (r: SgfResult<Action>)
        ensures
            view_result(r) == upper_pair_action(up@, k@, v@),
    {
        if same_text(up, "B") || same_text(up, "W") {
            let black = same_text(up, "B");
            if v.unicode_len() == 0 {
                return Ok(if black { Action::PassBlack } else { Action::PassWhite });
            }
            let (x, y) = string_coords(v)?;
            Ok(if black { Action::PlayBlack(x, y) } else { Action::PlayWhite(x, y) })
        } else if same_text(up, "SZ") {
            let (w, h) = read_size(v)?;
            Ok(Action::Size(w, h))
        } else if same_text(up, "C") {
            Ok(Action::Comment(String::from_str(v)))
        } else {
            Ok(Action::other(k, v))
        }
    }

    /// Reads a property with a list of values.
    pub fn from_many(k: &str, v: &Vec<String>) -> (r: SgfResult<Action>)
        ensures
            view_result(r) == many_action(k@, strings_view(v@)),
    {
        if same_text(k, "AB") || same_text(k, "AW") || same_text(k, "CR") || same_text(k, "MA") || same_text(k, "SQ")
            || same_text(k, "TR") || same_text(k, "DD") {
            let ps = points_list(v)?;
            if same_text(k, "AB") {
                Ok(Action::AddBlack(ps))
            } else if same_text(k, "AW") {
                Ok(Action::AddWhite(ps))
            } else if same_text(k, "CR") {
                Ok(Action::Circle(ps))
            } else if same_text(k, "MA") {
                Ok(Action::Cross(ps))
            } else if same_text(k, "SQ") {
                Ok(Action::Square(ps))
            } else if same_text(k, "TR") {
                Ok(Action::Triangle(ps))
            } else {
                Ok(Action::Dim(ps))
            }
        } else if same_text(k, "LB") {
            let ls = label_list(v)?;
            Ok(Action::Label(ls))
        } else if same_text(k, "AR") || same_text(k, "LN") {
            let ps = points_pair_list(v)?;
            if same_text(k, "AR") {
                Ok(Action::Arrow(ps))
            } else {
                Ok(Action::Line(ps))
            }
        } else {
            let copy = copy_strings(v);
            let r = Action::OtherMany(String::from_str(k), copy);
            assert(strings_view(copy@) =~= strings_view(v@));
            Ok(r)
        }
    }

    /// A property kept as it was read.
    pub fn other(k: &str, v: &str) -> (r: Action)
        ensures
            r@ == ActionView::Other(k@, v@),
    {
        Action::Other(String::from_str(k), String::from_str(v))
    }
}


/// A piece of a node's text: a property name, or one bracketed value.
#[derive(Clone, Debug, PartialEq)]
pub enum PropFragment {
    /// Text outside `[]`.
    Name(String),
    /// Text inside `[]`.
    Value(String),
}

pub enum FragView {
    Name(Seq<char>),
    Value(Seq<char>),
}

impl View for PropFragment {
    type V = FragView;

    open spec fn view(&self) -> FragView {
        match self {
            PropFragment::Name(s) => FragView::Name(s@),
            PropFragment::Value(s) => FragView::Value(s@),
        }
    }
}

pub open spec fn frags_view(v: Seq<PropFragment>) -> Seq<FragView> {
    Seq::new(v.len(), |i: int| v[i]@)
}

pub open spec fn actions_view(v: Seq<Action>) -> Seq<ActionView> {
    Seq::new(v.len(), |i: int| v[i]@)
}

/// The fragments read so far and the text not yet closed. `;` is skipped,
/// `[` ends a name, `]` ends a value.
pub open spec fn frag_scan(s: Seq<char>) -> (Seq<FragView>, Seq<char>)
    decreases s.len(),
{
    if s.len() == 0 {
        (Seq::empty(), Seq::empty())
    } else {
        let (fs, buf) = frag_scan(s.drop_last());
        let c = s.last();
        if c == ';' {
            (fs, buf)
        } else if c == '[' {
            if buf.len() > 0 {
                (fs.push(FragView::Name(buf)), Seq::empty())
            } else {
                (fs, buf)
            }
        } else if c == ']' {
            (fs.push(FragView::Value(buf)), Seq::empty())
        } else {
            (fs, buf.push(c))
        }
    }
}

/// Splits a node's text into property names and values.
pub fn to_fragments(s: &str) -> (r: Vec<PropFragment>)
    ensures
        frags_view(r@) == frag_scan(s@).0,
{
    let chars = chars_of(s);
    let mut fragments: Vec<PropFragment> = Vec::new();
    let mut buffer = String::new();
    let mut i: usize = 0;
    assert(s@.subrange(0, 0) =~= Seq::<char>::empty());
    assert(frags_view(fragments@) =~= Seq::empty());
    while i < chars.len()
        invariant
            chars@ == s@,
            i <= chars@.len(),
            frag_scan(s@.subrange(0, i as int)) == (frags_view(fragments@), buffer@),
        decreases chars@.len() - i,
    {
        let c = chars[i];
        assert(s@.subrange(0, i as int + 1).drop_last() =~= s@.subrange(0, i as int));
        let ghost before = fragments@;
        if c == ';' {
        } else if c == '[' {
            if buffer.unicode_len() > 0 {
                fragments.push(PropFragment::Name(buffer));
                buffer = String::new();
                assert(frags_view(fragments@) =~= frags_view(before).push(fragments@.last()@));
            }
        } else if c == ']' {
            fragments.push(PropFragment::Value(buffer));
            buffer = String::new();
            assert(frags_view(fragments@) =~= frags_view(before).push(fragments@.last()@));
        } else {
            push_char(&mut buffer, c);
        }
        i += 1;
    }
    assert(s@.subrange(0, chars@.len() as int) =~= s@);
    fragments
}

/// What a property reads as, by whether its name takes a list.
pub open spec fn prop_action(name: Seq<char>, props: Seq<Seq<char>>, single: bool) -> SgfResult<ActionView> {
    if single {
        pair_action(name, props[0])
    } else {
        many_action(name, props)
    }
}

/// `acts` with the action of a property added, unless it failed to read.
pub open spec fn add_read(acts: Seq<ActionView>, a: SgfResult<ActionView>) -> Seq<ActionView> {
    match a {
        Ok(v) => acts.push(v),
        Err(_) => acts,
    }
}

/// The actions read so far, the current property name and its values.
pub open spec fn act_scan(fs: Seq<FragView>) -> (Seq<ActionView>, Seq<char>, Seq<Seq<char>>)
    decreases fs.len(),
{
    if fs.len() == 0 {
        (Seq::empty(), Seq::empty(), Seq::empty())
    } else {
        let (acts, name, props) = act_scan(fs.drop_last());
        match fs.last() {
            FragView::Value(v) => (acts, name, props.push(v)),
            FragView::Name(n) => if props.len() == 0 {
                (acts, n, props)
            } else {
                (add_read(acts, prop_action(name, props, !is_list_name(name))), n, Seq::empty())
            },
        }
    }
}

/// The actions of a node's text. A property that fails to read is left out.
pub open spec fn actions_of(s: Seq<char>) -> Seq<ActionView> {
    let (acts, name, props) = act_scan(frag_scan(s).0);
    add_read(acts, prop_action(name, props, !is_list_name(name) && props.len() != 0))
}

fn read_prop(name: &String, props: &Vec<String>, single: bool) -> (r: SgfResult<Action>)
    requires
        single ==> props@.len() > 0,
    ensures
        view_result(r) == prop_action(name@, strings_view(props@), single),
{
    if single {
        Action::from_pair(name.as_str(), props[0].as_str())
    } else {
        Action::from_many(name.as_str(), props)
    }
}

/// Reads the actions of a node's text, such as `;B[aa]C[hi]`. A property
/// that fails to read is left out.
pub fn to_actions(s: &str) -> (r: Vec<Action>)
    ensures
        actions_view(r@) == actions_of(s@),
{
    let fragments = to_fragments(s);
    let ghost fs = frag_scan(s@).0;
    let mut actions: Vec<Action> = Vec::new();
    let mut name = String::new();
    let mut props: Vec<String> = Vec::new();
    let mut i: usize = 0;
    assert(fs.subrange(0, 0) =~= Seq::<FragView>::empty());
    assert(actions_view(actions@) =~= Seq::empty());
    assert(strings_view(props@) =~= Seq::empty());
    while i < fragments.len()
        invariant
            frags_view(fragments@) == fs,
            i <= fragments@.len(),
            act_scan(fs.subrange(0, i as int)) == (actions_view(actions@), name@, strings_view(props@)),
        decreases fragments@.len() - i,
    {
        assert(fs.subrange(0, i as int + 1).drop_last() =~= fs.subrange(0, i as int));
        assert(fs[i as int] == fragments@[i as int]@);
        match &fragments[i] {
            PropFragment::Name(n) => {
                if props.len() != 0 {
                    let single = !is_list(name.as_str());
                    let ghost before = actions@;
                    match read_prop(&name, &props, single) {
                        Ok(a) => {
                            actions.push(a);
                            assert(actions_view(actions@) =~= actions_view(before).push(actions@.last()@));
                        },
                        Err(_) => {},
                    }
                    props = Vec::new();
                    assert(strings_view(props@) =~= Seq::empty());
                }
                name = n.clone();
            },
            PropFragment::Value(v) => {
                let ghost before = props@;
                props.push(v.clone());
                assert(strings_view(props@) =~= strings_view(before).push(v@));
            },
        }
        i += 1;
    }
    assert(fs.subrange(0, fragments@.len() as int) =~= fs);
    let single = !is_list(name.as_str()) && props.len() != 0;
    let ghost before = actions@;
    match read_prop(&name, &props, single) {
        Ok(a) => {
            actions.push(a);
            assert(actions_view(actions@) =~= actions_view(before).push(actions@.last()@));
        },
        Err(_) => {},
    }
    actions
}


/// The character of decimal digit `d`.
pub open spec fn digit_char(d: nat) -> char {
    choose|c: char| #[trigger] char_code(c) == d + 48
}

/// `n` in decimal.
pub open spec fn decimal(n: nat) -> Seq<char>
    decreases n,
{
    if n < 10 {
        seq![digit_char(n)]
    } else {
        decimal(n / 10).push(digit_char(n % 10))
    }
}

pub(crate) fn write_decimal(s: &mut String, n: usize)
    ensures
        final(s)@ == old(s)@ + decimal(n as nat),
    decreases n,
{
    if n >= 10 {
        write_decimal(s, n / 10);
    }
    let d = (n % 10) as u8;
    let c = (d + 48) as char;
    assert(char_code(c) == (n % 10) as nat + 48);
    push_char(s, c);
    assert(s@ =~= old(s)@ + decimal(n as nat));
}

pub open spec fn labels_fit(v: Seq<(usize, usize, Seq<char>)>) -> bool {
    forall|i: int| 0 <= i < v.len() ==> (#[trigger] v[i]).0 <= 51 && v[i].1 <= 51
}

/// Each label as `[xy:text]`.
pub open spec fn labels_text(v: Seq<(usize, usize, Seq<char>)>) -> Seq<char>
    decreases v.len(),
{
    if v.len() == 0 {
        Seq::empty()
    } else {
        labels_text(v.drop_last()) + seq!['['] + point_text((v.last().0, v.last().1)) + seq![':'] + v.last().2
            + seq![']']
    }
}

pub open spec fn pairs_fit(v: Seq<[Point; 2]>) -> bool {
    forall|i: int|
        0 <= i < v.len() ==> (#[trigger] v[i])[0].0 <= 51 && v[i][0].1 <= 51 && v[i][1].0 <= 51 && v[i][1].1 <= 51
}

/// Each pair as `[xy:xy]`.
pub open spec fn pairs_text(v: Seq<[Point; 2]>) -> Seq<char>
    decreases v.len(),
{
    if v.len() == 0 {
        Seq::empty()
    } else {
        pairs_text(v.drop_last()) + seq!['['] + point_text(v.last()[0]) + seq![':'] + point_text(v.last()[1])
            + seq![']']
    }
}

/// Each value as `[value]`.
pub open spec fn values_text(v: Seq<Seq<char>>) -> Seq<char>
    decreases v.len(),
{
    if v.len() == 0 {
        Seq::empty()
    } else {
        values_text(v.drop_last()) + seq!['['] + v.last() + seq![']']
    }
}

fn write_labels(s: &mut String, v: &Vec<(usize, usize, String)>) -> (r: SgfResult<()>)
    ensures
        r is Ok <==> labels_fit(labels_view(v@)),
        r is Ok ==> final(s)@ == old(s)@ + labels_text(labels_view(v@)),
        r is Err ==> r == Err::<(), SgfError>(SgfError::CoordTooBig),
{
    let ghost lv = labels_view(v@);
    let mut i: usize = 0;
    assert(lv.subrange(0, 0) =~= Seq::<(usize, usize, Seq<char>)>::empty());
    assert(old(s)@ + labels_text(lv.subrange(0, 0)) =~= old(s)@);
    while i < v.len()
        invariant
            lv == labels_view(v@),
            i <= v@.len(),
            s@ == old(s)@ + labels_text(lv.subrange(0, i as int)),
            labels_fit(lv.subrange(0, i as int)),
        decreases v@.len() - i,
    {
        assert(lv.subrange(0, i as int + 1).drop_last() =~= lv.subrange(0, i as int));
        let (x, y, t) = &v[i];
        push_char(s, '[');
        match write_point(s, (*x, *y)) {
            Ok(()) => {},
            Err(e) => {
                assert(!labels_fit(lv)) by {
                    assert(!(lv[i as int].0 <= 51 && lv[i as int].1 <= 51));
                }
                return Err(e);
            },
        }
        push_char(s, ':');
        s.append(t.as_str());
        push_char(s, ']');
        assert(s@ =~= old(s)@ + labels_text(lv.subrange(0, i as int + 1)));
        assert forall|k: int| 0 <= k < i + 1 implies (#[trigger] lv.subrange(0, i as int + 1)[k]).0 <= 51
            && lv.subrange(0, i as int + 1)[k].1 <= 51 by {
            if k < i {
                assert(lv.subrange(0, i as int + 1)[k] == lv.subrange(0, i as int)[k]);
            }
        }
        i += 1;
    }
    assert(lv.subrange(0, v@.len() as int) =~= lv);
    Ok(())
}

fn write_pairs(s: &mut String, v: &Vec<[Point; 2]>) -> (r: SgfResult<()>)
    ensures
        r is Ok <==> pairs_fit(v@),
        r is Ok ==> final(s)@ == old(s)@ + pairs_text(v@),
        r is Err ==> r == Err::<(), SgfError>(SgfError::CoordTooBig),
{
    let mut i: usize = 0;
    assert(v@.subrange(0, 0) =~= Seq::<[Point; 2]>::empty());
    assert(old(s)@ + pairs_text(v@.subrange(0, 0)) =~= old(s)@);
    while i < v.len()
        invariant
            i <= v@.len(),
            s@ == old(s)@ + pairs_text(v@.subrange(0, i as int)),
            pairs_fit(v@.subrange(0, i as int)),
        decreases v@.len() - i,
    {
        assert(v@.subrange(0, i as int + 1).drop_last() =~= v@.subrange(0, i as int));
        let p = v[i];
        push_char(s, '[');
        match write_point(s, p[0]) {
            Ok(()) => {},
            Err(e) => {
                assert(!pairs_fit(v@)) by {
                    assert(v@[i as int] == p);
                }
                return Err(e);
            },
        }
        push_char(s, ':');
        match write_point(s, p[1]) {
            Ok(()) => {},
            Err(e) => {
                assert(!pairs_fit(v@)) by {
                    assert(v@[i as int] == p);
                }
                return Err(e);
            },
        }
        push_char(s, ']');
        assert(s@ =~= old(s)@ + pairs_text(v@.subrange(0, i as int + 1)));
        assert forall|k: int| 0 <= k < i + 1 implies (#[trigger] v@.subrange(0, i as int + 1)[k])[0].0 <= 51
            && v@.subrange(0, i as int + 1)[k][0].1 <= 51 && v@.subrange(0, i as int + 1)[k][1].0 <= 51
            && v@.subrange(0, i as int + 1)[k][1].1 <= 51 by {
            if k < i {
                assert(v@.subrange(0, i as int + 1)[k] == v@.subrange(0, i as int)[k]);
            }
        }
        i += 1;
    }
    assert(v@.subrange(0, v@.len() as int) =~= v@);
    Ok(())
}

fn write_values(s: &mut String, v: &Vec<String>)
    ensures
        final(s)@ == old(s)@ + values_text(strings_view(v@)),
{
    let ghost sv = strings_view(v@);
    let mut i: usize = 0;
    assert(old(s)@ + values_text(sv.subrange(0, 0)) =~= old(s)@);
    while i < v.len()
        invariant
            sv == strings_view(v@),
            i <= v@.len(),
            s@ == old(s)@ + values_text(sv.subrange(0, i as int)),
        decreases v@.len() - i,
    {
        assert(sv.subrange(0, i as int + 1).drop_last() =~= sv.subrange(0, i as int));
        push_char(s, '[');
        s.append(v[i].as_str());
        push_char(s, ']');
        assert(s@ =~= old(s)@ + values_text(sv.subrange(0, i as int + 1)));
        i += 1;
    }
    assert(sv.subrange(0, v@.len() as int) =~= sv);
}

/// The name of a point-list property.
pub open spec fn list_name(a: ActionView) -> Seq<char> {
    match a {
        ActionView::AddBlack(_) => seq!['A', 'B'],
        ActionView::AddWhite(_) => seq!['A', 'W'],
        ActionView::Circle(_) => seq!['C', 'R'],
        ActionView::Cross(_) => seq!['M', 'A'],
        ActionView::Square(_) => seq!['S', 'Q'],
        ActionView::Triangle(_) => seq!['T', 'R'],
        ActionView::Dim(_) => seq!['D', 'D'],
        ActionView::Arrow(_) => seq!['A', 'R'],
        ActionView::Line(_) => seq!['L', 'N'],
        ActionView::Label(_) => seq!['L', 'B'],
        _ => Seq::empty(),
    }
}

/// The text of an action as a property; fails when a coordinate is above 51.
pub open spec fn action_text(a: ActionView) -> SgfResult<Seq<char>> {
    match a {
        ActionView::NoOp => Ok(Seq::empty()),
        ActionView::PlayBlack(x, y) => if x <= 51 && y <= 51 {
            Ok(seq!['B', '['] + point_text((x, y)) + seq![']'])
        } else {
            Err(SgfError::CoordTooBig)
        },
        ActionView::PlayWhite(x, y) => if x <= 51 && y <= 51 {
            Ok(seq!['W', '['] + point_text((x, y)) + seq![']'])
        } else {
            Err(SgfError::CoordTooBig)
        },
        ActionView::PassBlack => Ok(seq!['B', '[', ']']),
        ActionView::PassWhite => Ok(seq!['W', '[', ']']),
        ActionView::Size(w, h) => if w == h {
            Ok(seq!['S', 'Z', '['] + decimal(w as nat) + seq![']'])
        } else {
            Ok(seq!['S', 'Z', '['] + decimal(w as nat) + seq![':'] + decimal(h as nat) + seq![']'])
        },
        ActionView::AddBlack(v) | ActionView::AddWhite(v) | ActionView::Circle(v) | ActionView::Cross(v)
        | ActionView::Square(v) | ActionView::Triangle(v) | ActionView::Dim(v) => if points_fit(v) {
            Ok(list_name(a) + points_text(v))
        } else {
            Err(SgfError::CoordTooBig)
        },
        ActionView::Label(v) => if labels_fit(v) {
            Ok(list_name(a) + labels_text(v))
        } else {
            Err(SgfError::CoordTooBig)
        },
        ActionView::Arrow(v) | ActionView::Line(v) => if pairs_fit(v) {
            Ok(list_name(a) + pairs_text(v))
        } else {
            Err(SgfError::CoordTooBig)
        },
        ActionView::Comment(t) => Ok(seq!['C', '['] + t + seq![']']),
        ActionView::Other(k, v) => Ok(k + seq!['['] + v + seq![']']),
        ActionView::OtherMany(k, v) => Ok(k + values_text(v)),
    }
}

pub open spec fn text_result(r: SgfResult<String>) -> SgfResult<Seq<char>> {
    match r {
        Ok(s) => Ok(s@),
        Err(e) => Err(e),
    }
}

fn push_two(s: &mut String, a: char, b: char)
    ensures
        final(s)@ == old(s)@ + seq![a, b],
{
    push_char(s, a);
    push_char(s, b);
    assert(s@ =~= old(s)@ + seq![a, b]);
}

impl Action {
    /// The action written as a record property; fails when a coordinate is
    /// above 51.
    pub fn to_sgf_text(&self) -> (r: SgfResult<String>)
        ensures
            text_result(r) == action_text(self@),
    {
        let mut s = String::new();
        match self {
            Action::NoOp => {},
            Action::PlayBlack(x, y) | Action::PlayWhite(x, y) => {
                let name = match self {
                    Action::PlayBlack(_, _) => 'B',
                    _ => 'W',
                };
                push_two(&mut s, name, '[');
                write_point(&mut s, (*x, *y))?;
                push_char(&mut s, ']');
                assert(s@ =~= seq![name, '['] + point_text((*x, *y)) + seq![']']);
            },
            Action::PassBlack => {
                push_two(&mut s, 'B', '[');
                push_char(&mut s, ']');
                assert(s@ =~= seq!['B', '[', ']']);
            },
            Action::PassWhite => {
                push_two(&mut s, 'W', '[');
                push_char(&mut s, ']');
                assert(s@ =~= seq!['W', '[', ']']);
            },
            Action::Size(w, h) => {
                push_two(&mut s, 'S', 'Z');
                push_char(&mut s, '[');
                write_decimal(&mut s, *w);
                if *w != *h {
                    push_char(&mut s, ':');
                    write_decimal(&mut s, *h);
                }
                push_char(&mut s, ']');
                if *w == *h {
                    assert(s@ =~= seq!['S', 'Z', '['] + decimal(*w as nat) + seq![']']);
                } else {
                    assert(s@ =~= seq!['S', 'Z', '['] + decimal(*w as nat) + seq![':'] + decimal(*h as nat) + seq![']']);
                }
            },
            Action::AddBlack(v) | Action::AddWhite(v) | Action::Circle(v) | Action::Cross(v) | Action::Square(v)
            | Action::Triangle(v) | Action::Dim(v) => {
                let (a, b) = match self {
                    Action::AddBlack(_) => ('A', 'B'),
                    Action::AddWhite(_) => ('A', 'W'),
                    Action::Circle(_) => ('C', 'R'),
                    Action::Cross(_) => ('M', 'A'),
                    Action::Square(_) => ('S', 'Q'),
                    Action::Triangle(_) => ('T', 'R'),
                    _ => ('D', 'D'),
                };
                push_two(&mut s, a, b);
                write_points(&mut s, v)?;
            },
            Action::Label(v) => {
                push_two(&mut s, 'L', 'B');
                write_labels(&mut s, v)?;
            },
            Action::Arrow(v) | Action::Line(v) => {
                let (a, b) = match self {
                    Action::Arrow(_) => ('A', 'R'),
                    _ => ('L', 'N'),
                };
                push_two(&mut s, a, b);
                write_pairs(&mut s, v)?;
            },
            Action::Comment(t) => {
                push_two(&mut s, 'C', '[');
                s.append(t.as_str());
                push_char(&mut s, ']');
                assert(s@ =~= seq!['C', '['] + t@ + seq![']']);
            },
            Action::Other(k, v) => {
                s.append(k.as_str());
                push_char(&mut s, '[');
                s.append(v.as_str());
                push_char(&mut s, ']');
                assert(s@ =~= k@ + seq!['['] + v@ + seq![']']);
            },
            Action::OtherMany(k, v) => {
                s.append(k.as_str());
                write_values(&mut s, v);
                assert(s@ =~= k@ + values_text(strings_view(v@)));
            },
        }
        Ok(s)
    }
}

} // verus!
