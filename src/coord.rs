use crate::board::Point;
use vstd::prelude::*;
use vstd::string::{StrSliceExecFns, StringExecFns};

verus! {

/// What can go wrong when reading or writing a game record, or when moving
/// around its tree.
#[derive(Clone, Copy, PartialEq, Eq, Debug, Structural)]
pub enum SgfError {
    /// The child asked for does not exist.
    ChildDoesntExist,
    /// The root has no parent.
    ParentOfRoot,
    /// A coordinate above 51, the largest a record can hold.
    CoordTooBig,
    /// A coordinate letter that is not `a`..`z` or `A`..`Z`.
    InvalidCoordChar,
    /// The record does not start with `(`.
    MissingLParen,
    /// A malformed `SZ` value.
    SizeParse,
    /// A point is not two letters.
    InvalidLength,
    /// A composed value does not have exactly two parts.
    InvalidComposedLength,
}

pub type SgfResult<T> = Result<T, SgfError>;

/// The character code that writes coordinate `x`: `a`..`z` for 0..25,
/// `A`..`Z` for 26..51.
pub open spec fn coord_code(x: nat) -> u32 {
    if x <= 25 {
        (x + 97) as u32
    } else {
        (x + 39) as u32
    }
}

/// The letter that writes coordinate `x`.
pub open spec fn coord_char(x: nat) -> char {
    choose|c: char| #[trigger] char_code(c) == coord_code(x)
}

pub open spec fn char_code(c: char) -> u32 {
    c as u32
}

/// The coordinate a letter stands for.
pub open spec fn coord_value(c: char) -> Option<usize> {
    let i = c as u32;
    if 97 <= i <= 122 {
        Some((i - 97) as usize)
    } else if 65 <= i <= 90 {
        Some((i - 39) as usize)
    } else {
        None
    }
}

/// Every coordinate up to 51 reads back from the letter that writes it.
pub proof fn lemma_coord_round_trip(x: nat)
    requires
        x <= 51,
    ensures
        char_code(coord_char(x)) == coord_code(x),
        coord_value(coord_char(x)) == Some(x as usize),
{
    let code = coord_code(x);
    let c = if x <= 25 {
        lemma_letter_exists_lower(x)
    } else {
        lemma_letter_exists_upper(x)
    };
    assert(char_code(c) == code);
}

proof fn lemma_letter_exists_lower(x: nat) -> (c: char)
    requires
        x <= 25,
    ensures
        char_code(c) == coord_code(x),
{
    let c = (x + 97) as u8 as char;
    c
}

proof fn lemma_letter_exists_upper(x: nat) -> (c: char)
    requires
        26 <= x <= 51,
    ensures
        char_code(c) == coord_code(x),
{
    let c = (x + 39) as u8 as char;
    c
}

/// Writes coordinate `x` as one letter.
pub fn to_sgf_coord(x: usize) -> (r: SgfResult<char>)
    ensures
        x <= 51 ==> r is Ok && r->Ok_0 as u32 == coord_code(x as nat) && coord_value(r->Ok_0) == Some(x)
            && r->Ok_0 == coord_char(x as nat),
        x > 51 ==> r == Err::<char, SgfError>(SgfError::CoordTooBig),
{
    if x <= 25 {
        let c = (x as u8 + 97) as char;
        assert(char_code(c) == coord_code(x as nat));
        Ok(c)
    } else if x <= 51 {
        let c = (x as u8 + 39) as char;
        assert(char_code(c) == coord_code(x as nat));
        Ok(c)
    } else {
        Err(SgfError::CoordTooBig)
    }
}

/// Reads one coordinate letter.
pub fn from_sgf_coord(c: char) -> (r: SgfResult<usize>)
    ensures
        r == match coord_value(c) {
            Some(v) => Ok::<usize, SgfError>(v),
            None => Err(SgfError::InvalidCoordChar),
        },
{
    let i = c as u32;
    if 97 <= i && i <= 122 {
        Ok((i - 97) as usize)
    } else if 65 <= i && i <= 90 {
        Ok((i - 39) as usize)
    } else {
        Err(SgfError::InvalidCoordChar)
    }
}

/// What reading a two-letter point gives.
pub open spec fn point_value(s: Seq<char>) -> SgfResult<Point> {
    if s.len() != 2 {
        Err(SgfError::InvalidLength)
    } else {
        match (coord_value(s[0]), coord_value(s[1])) {
            (Some(x), Some(y)) => Ok((x, y)),
            _ => Err(SgfError::InvalidCoordChar),
        }
    }
}

/// Reads a point written as two letters.
pub fn string_coords(s: &str) -> (r: SgfResult<Point>)
    ensures
        r == point_value(s@),
{
    if s.unicode_len() != 2 {
        return Err(SgfError::InvalidLength);
    }
    let x = from_sgf_coord(s.get_char(0))?;
    let y = from_sgf_coord(s.get_char(1))?;
    Ok((x, y))
}

/// Whether a property of this name takes a list of values.
pub open spec fn is_list_name(name: Seq<char>) -> bool {
    !(name == "B"@ || name == "W"@ || name == "SZ"@ || name == "C"@ || name == "FF"@ || name == "CA"@ || name
        == "GM"@)
}

/// Whether two strings hold the same characters.
pub fn same_text(a: &str, b: &str) -> (r: bool)
    ensures
        r == (a@ == b@),
{
    let n = a.unicode_len();
    if n != b.unicode_len() {
        return false;
    }
    let mut i: usize = 0;
    while i < n
        invariant
            n == a@.len(),
            n == b@.len(),
            i <= n,
            forall|j: int| 0 <= j < i ==> a@[j] == b@[j],
        decreases n - i,
    {
        if a.get_char(i) != b.get_char(i) {
            return false;
        }
        i += 1;
    }
    assert(a@ =~= b@);
    true
}

/// Whether a property of this name takes a list of values.
pub fn is_list(name: &str) -> (r: bool)
    ensures
        r == is_list_name(name@),
{
    !(same_text(name, "B") || same_text(name, "W") || same_text(name, "SZ") || same_text(name, "C") || same_text(
        name,
        "FF",
    ) || same_text(name, "CA") || same_text(name, "GM"))
}


/// Relies on `String::push`: appends one character.
#[verifier::external_body]
pub(crate) fn push_char(s: &mut String, c: char)
    ensures
        final(s)@ == old(s)@.push(c),
{
    s.push(c);
}

/// Every coordinate of `v` can be written.
pub open spec fn points_fit(v: Seq<Point>) -> bool {
    forall|i: int| 0 <= i < v.len() ==> (#[trigger] v[i]).0 <= 51 && v[i].1 <= 51
}

/// The two letters of a point.
pub open spec fn point_text(p: Point) -> Seq<char> {
    seq![coord_char(p.0 as nat), coord_char(p.1 as nat)]
}

/// Each point as `[xy]`, one after another.
pub open spec fn points_text(v: Seq<Point>) -> Seq<char>
    decreases v.len(),
{
    if v.len() == 0 {
        Seq::empty()
    } else {
        points_text(v.drop_last()) + seq!['['] + point_text(v.last()) + seq![']']
    }
}

/// Appends the letters of a point.
pub(crate) fn write_point(s: &mut String, p: Point) -> (r: SgfResult<()>)
    ensures
        r is Ok <==> p.0 <= 51 && p.1 <= 51,
        r is Ok ==> final(s)@ == old(s)@ + point_text(p),
        r is Err ==> r == Err::<(), SgfError>(SgfError::CoordTooBig),
{
    let cx = to_sgf_coord(p.0)?;
    let cy = to_sgf_coord(p.1)?;
    push_char(s, cx);
    push_char(s, cy);
    assert(s@ =~= old(s)@ + point_text(p));
    Ok(())
}

/// Appends each point as `[xy]`.
pub(crate) fn write_points(s: &mut String, v: &Vec<Point>) -> (r: SgfResult<()>)
    ensures
        r is Ok <==> points_fit(v@),
        r is Ok ==> final(s)@ == old(s)@ + points_text(v@),
        r is Err ==> r == Err::<(), SgfError>(SgfError::CoordTooBig),
{
    let mut i: usize = 0;
    assert(v@.subrange(0, 0) =~= Seq::<Point>::empty());
    assert(old(s)@ + points_text(Seq::<Point>::empty()) =~= old(s)@);
    while i < v.len()
        invariant
            i <= v@.len(),
            s@ == old(s)@ + points_text(v@.subrange(0, i as int)),
            points_fit(v@.subrange(0, i as int)),
        decreases v@.len() - i,
    {
        assert(v@.subrange(0, i as int + 1).drop_last() =~= v@.subrange(0, i as int));
        let ghost s0 = s@;
        push_char(s, '[');
        match write_point(s, v[i]) {
            Ok(()) => {},
            Err(e) => {
                assert(!points_fit(v@)) by {
                    assert(!(v@[i as int].0 <= 51 && v@[i as int].1 <= 51));
                }
                return Err(e);
            },
        }
        push_char(s, ']');
        assert(s@ =~= old(s)@ + points_text(v@.subrange(0, i as int + 1)));
        assert forall|k: int| 0 <= k < i + 1 implies (#[trigger] v@.subrange(0, i as int + 1)[k]).0 <= 51
            && v@.subrange(0, i as int + 1)[k].1 <= 51 by {
            if k < i {
                assert(v@.subrange(0, i as int + 1)[k] == v@.subrange(0, i as int)[k]);
            }
        }
        i += 1;
    }
    assert(v@.subrange(0, v@.len() as int) =~= v@);
    Ok(())
}

/// Writes a property: its name, then each point as `[xy]`.
pub fn coord_list(prop_name: &str, v: &Vec<Point>) -> (r: SgfResult<String>)
    ensures
        points_fit(v@) ==> r is Ok && r->Ok_0@ == prop_name@ + points_text(v@),
        !points_fit(v@) ==> r == Err::<String, SgfError>(SgfError::CoordTooBig),
{
    let mut s = String::from_str(prop_name);
    write_points(&mut s, v)?;
    Ok(s)
}

/// What reading each value as a point gives: the points, or the first
/// error.
pub open spec fn points_value(v: Seq<Seq<char>>) -> SgfResult<Seq<Point>>
    decreases v.len(),
{
    if v.len() == 0 {
        Ok(Seq::empty())
    } else {
        match points_value(v.drop_last()) {
            Err(e) => Err(e),
            Ok(ps) => match point_value(v.last()) {
                Ok(p) => Ok(ps.push(p)),
                Err(e) => Err(e),
            },
        }
    }
}

proof fn lemma_points_value_err(v: Seq<Seq<char>>, k: int)
    requires
        0 <= k <= v.len(),
        points_value(v.subrange(0, k)) is Err,
    ensures
        points_value(v) == points_value(v.subrange(0, k)),
    decreases v.len() - k,
{
    if k < v.len() {
        assert(v.subrange(0, k + 1).drop_last() =~= v.subrange(0, k));
        lemma_points_value_err(v, k + 1);
    } else {
        assert(v.subrange(0, k) =~= v);
    }
}

/// The texts of the strings.
pub open spec fn strings_view(v: Seq<String>) -> Seq<Seq<char>> {
    Seq::new(v.len(), |i: int| v[i]@)
}

/// The characters of a text, in order.
pub(crate) fn chars_of(s: &str) -> (r: Vec<char>)
    ensures
        r@ == s@,
{
    let mut v: Vec<char> = Vec::new();
    for c in it: s.chars()
        invariant
            v@ == it.seq().subrange(0, it.index()),
            it.seq() == s@,
    {
        v.push(c);
    }
    v
}

/// Reads each value as a point; fails with the first error.
pub fn points_list(v: &Vec<String>) -> (r: SgfResult<Vec<Point>>)
    ensures
        r is Ok <==> points_value(strings_view(v@)) is Ok,
        r is Ok ==> points_value(strings_view(v@)) == Ok::<Seq<Point>, SgfError>(r->Ok_0@),
        r is Err ==> points_value(strings_view(v@)) == Err::<Seq<Point>, SgfError>(r->Err_0),
{
    let mut points: Vec<Point> = Vec::with_capacity(v.len());
    let mut i: usize = 0;
    assert(strings_view(v@).subrange(0, 0) =~= Seq::<Seq<char>>::empty());
    while i < v.len()
        invariant
            i <= v@.len(),
            points_value(strings_view(v@).subrange(0, i as int)) == Ok::<Seq<Point>, SgfError>(points@),
        decreases v@.len() - i,
    {
        assert(strings_view(v@).subrange(0, i as int + 1).drop_last() =~= strings_view(v@).subrange(0, i as int));
        match string_coords(v[i].as_str()) {
            Ok(p) => points.push(p),
            Err(e) => {
                proof {
                    lemma_points_value_err(strings_view(v@), i as int + 1);
                }
                return Err(e);
            },
        }
        i += 1;
    }
    assert(strings_view(v@).subrange(0, v@.len() as int) =~= strings_view(v@));
    Ok(points)
}

/// `k` is the one and only `:` in `s`.
pub open spec fn single_colon(s: Seq<char>, k: int) -> bool {
    &&& 0 <= k < s.len()
    &&& s[k] == ':'
    &&& forall|j: int| 0 <= j < s.len() && j != k ==> s[j] != ':'
}

/// What reading a value `xy:xy` gives.
pub open spec fn pair_value(s: Seq<char>) -> SgfResult<[Point; 2]> {
    if exists|k: int| single_colon(s, k) {
        let k = choose|k: int| single_colon(s, k);
        match point_value(s.subrange(0, k)) {
            Err(e) => Err(e),
            Ok(a) => match point_value(s.subrange(k + 1, s.len() as int)) {
                Err(e) => Err(e),
                Ok(b) => Ok([a, b]),
            },
        }
    } else {
        Err(SgfError::InvalidComposedLength)
    }
}

/// The position of the only `:` in `s`, if there is exactly one.
pub(crate) fn find_single_colon(s: &str) -> (r: Option<usize>)
    ensures
        r is Some ==> single_colon(s@, r->0 as int),
        r is None ==> !exists|k: int| single_colon(s@, k),
{
    let n = s.unicode_len();
    let mut first: Option<usize> = None;
    let mut i: usize = 0;
    while i < n
        invariant
            n == s@.len(),
            i <= n,
            first is None ==> forall|j: int| 0 <= j < i ==> s@[j] != ':',
            first is Some ==> first->0 < i && s@[first->0 as int] == ':' && forall|j: int|
                0 <= j < i && j != first->0 ==> s@[j] != ':',
        decreases n - i,
    {
        if s.get_char(i) == ':' {
            if first.is_some() {
                proof {
                    let a = first->0 as int;
                    assert forall|k: int| !single_colon(s@, k) by {
                        if single_colon(s@, k) {
                            if k == a {
                                assert(s@[i as int] == ':');
                            } else {
                                assert(s@[a] == ':');
                            }
                        }
                    }
                }
                return None;
            }
            first = Some(i);
        }
        i += 1;
    }
    first
}

/// Reads a value `xy:xy` as two points.
pub fn pair_coords(s: &str) -> (r: SgfResult<[Point; 2]>)
    ensures
        r == pair_value(s@),
{
    match find_single_colon(s) {
        None => Err(SgfError::InvalidComposedLength),
        Some(k) => {
            proof {
                assert(forall|j: int| single_colon(s@, j) ==> j == k);
            }
            let n = s.unicode_len();
            let a = string_coords(s.substring_char(0, k))?;
            let b = string_coords(s.substring_char(k + 1, n))?;
            Ok([a, b])
        },
    }
}

/// What reading each value as a pair of points gives: the pairs, or the
/// first error.
pub open spec fn pairs_value(v: Seq<Seq<char>>) -> SgfResult<Seq<[Point; 2]>>
    decreases v.len(),
{
    if v.len() == 0 {
        Ok(Seq::empty())
    } else {
        match pairs_value(v.drop_last()) {
            Err(e) => Err(e),
            Ok(ps) => match pair_value(v.last()) {
                Ok(p) => Ok(ps.push(p)),
                Err(e) => Err(e),
            },
        }
    }
}

proof fn lemma_pairs_value_err(v: Seq<Seq<char>>, k: int)
    requires
        0 <= k <= v.len(),
        pairs_value(v.subrange(0, k)) is Err,
    ensures
        pairs_value(v) == pairs_value(v.subrange(0, k)),
    decreases v.len() - k,
{
    if k < v.len() {
        assert(v.subrange(0, k + 1).drop_last() =~= v.subrange(0, k));
        lemma_pairs_value_err(v, k + 1);
    } else {
        assert(v.subrange(0, k) =~= v);
    }
}

/// Reads each value `xy:xy` as a pair of points; fails with the first
/// error.
pub fn points_pair_list(v: &Vec<String>) -> (r: SgfResult<Vec<[Point; 2]>>)
    ensures
        r is Ok <==> pairs_value(strings_view(v@)) is Ok,
        r is Ok ==> pairs_value(strings_view(v@)) == Ok::<Seq<[Point; 2]>, SgfError>(r->Ok_0@),
        r is Err ==> pairs_value(strings_view(v@)) == Err::<Seq<[Point; 2]>, SgfError>(r->Err_0),
{
    let mut points: Vec<[Point; 2]> = Vec::with_capacity(v.len());
    let mut i: usize = 0;
    assert(strings_view(v@).subrange(0, 0) =~= Seq::<Seq<char>>::empty());
    while i < v.len()
        invariant
            i <= v@.len(),
            pairs_value(strings_view(v@).subrange(0, i as int)) == Ok::<Seq<[Point; 2]>, SgfError>(points@),
        decreases v@.len() - i,
    {
        assert(strings_view(v@).subrange(0, i as int + 1).drop_last() =~= strings_view(v@).subrange(0, i as int));
        match pair_coords(v[i].as_str()) {
            Ok(p) => points.push(p),
            Err(e) => {
                proof {
                    lemma_pairs_value_err(strings_view(v@), i as int + 1);
                }
                return Err(e);
            },
        }
        i += 1;
    }
    assert(strings_view(v@).subrange(0, v@.len() as int) =~= strings_view(v@));
    Ok(points)
}

} // verus!
