use crate::action::{Action, ActionView};
use crate::board::{Point, Stone};
use vstd::prelude::*;

verus! {

/// The hash of a stone grid, a function of its stones alone.
pub uninterp spec fn position_hash(stones: Seq<Stone>) -> u64;

/// Relies on std's `BuildHasher::hash_one` with `DefaultHasher`, whose keys
/// are fixed: the hash depends on the stones alone.
#[verifier::external_body]
pub fn calculate_hash(stones: &Vec<Stone>) -> (r: u64)
    ensures
        r == position_hash(stones@),
{
    std::hash::BuildHasher::hash_one(
        &std::hash::BuildHasherDefault::<std::collections::hash_map::DefaultHasher>::default(),
        stones,
    )
}


/// The star points of a `w` by `h` board: the centre when there is one;
/// from 9 lines on, the 3-3 points, or from 13 on the 4-4 points and, past
/// 13, the side points on an odd line.
pub open spec fn star_points_spec(w: int, h: int) -> Seq<Point> {
    let center: Seq<Point> = if w % 2 == 1 && h % 2 == 1 {
        seq![((w / 2) as usize, (h / 2) as usize)]
    } else {
        Seq::empty()
    };
    if w < 9 || h < 9 {
        center
    } else if w < 13 || h < 13 {
        center + seq![
            (2usize, 2usize),
            (2usize, (h - 3) as usize),
            ((w - 3) as usize, 2usize),
            ((w - 3) as usize, (h - 3) as usize),
        ]
    } else {
        let sides_h: Seq<Point> = if w > 13 && h % 2 == 1 {
            seq![(3usize, (h / 2) as usize), ((w - 4) as usize, (h / 2) as usize)]
        } else {
            Seq::empty()
        };
        let sides_w: Seq<Point> = if w > 13 && w % 2 == 1 {
            seq![((w / 2) as usize, 3usize), ((w / 2) as usize, (h - 4) as usize)]
        } else {
            Seq::empty()
        };
        center + sides_h + sides_w + seq![
            (3usize, 3usize),
            (3usize, (h - 4) as usize),
            ((w - 4) as usize, 3usize),
            ((w - 4) as usize, (h - 4) as usize),
        ]
    }
}

/// The points of a board marked with a dot.
pub fn star_points(w: usize, h: usize) -> (r: Vec<Point>)
    ensures
        r@ == star_points_spec(w as int, h as int),
{
    let mut points: Vec<Point> = Vec::new();
    if w % 2 == 1 && h % 2 == 1 {
        points.push((w / 2, h / 2));
    }
    let ghost center = points@;
    if w < 9 || h < 9 {
        return points;
    }
    if w < 13 || h < 13 {
        points.push((2, 2));
        points.push((2, h - 3));
        points.push((w - 3, 2));
        points.push((w - 3, h - 3));
        assert(points@ =~= star_points_spec(w as int, h as int));
        return points;
    }
    if w > 13 {
        if h % 2 == 1 {
            points.push((3, h / 2));
            points.push((w - 4, h / 2));
        }
        if w % 2 == 1 {
            points.push((w / 2, 3));
            points.push((w / 2, h - 4));
        }
    }
    points.push((3, 3));
    points.push((3, h - 4));
    points.push((w - 4, 3));
    points.push((w - 4, h - 4));
    assert(points@ =~= star_points_spec(w as int, h as int));
    points
}

/// Whether an action begins a new node of a record: a move or a pass.
pub fn new_node(a: &Action) -> (r: bool)
    ensures
        r == (a@ is PlayBlack || a@ is PlayWhite || a@ is PassBlack || a@ is PassWhite),
{
    match a {
        Action::PlayBlack(_, _) | Action::PlayWhite(_, _) | Action::PassBlack | Action::PassWhite => true,
        _ => false,
    }
}

/// The letter after `c`, from `Z` back to `A`; meant for upper-case
/// letters.
pub fn next_letter(c: char) -> (r: char)
    ensures
        c as u32 + 1 > 90 ==> r == 'A',
        c as u32 + 1 <= 90 ==> r as u32 == c as u32 + 1,
{
    let i = 1 + (c as u32);
    if i > 90 {
        return 'A';
    }
    (i as u8) as char
}

} // verus!
