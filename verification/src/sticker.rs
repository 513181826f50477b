//! Sticker position names and their layout.
//!
//! A sticker position is named by a short sequence of faces: the face that
//! structurally owns it, then (for edges and corners) the neighbours it
//! touches.  The 54 names are laid out as indices 0..54: the 6 centers
//! first, then the 24 edges, then the 24 corners, four per face in ring
//! order.  The naming is collision-free: distinct valid names occupy
//! distinct indices.

use vstd::prelude::*;
use crate::face::{
    Face, face_index, is_adjacent, next_nbr, slot_of, lemma_ring,
};

verus! {

/// The name of a sticker position: a center (`f`), an edge (`f` then the
/// touched neighbour), or a corner (`f`, then the later and the earlier
/// of the two consecutive neighbours it touches, in `f`'s ring order).
#[derive(Clone, Copy, PartialEq, Eq, Structural, Debug)]
pub enum Sticker {
    Center(Face),
    Edge(Face, Face),
    Corner(Face, Face, Face),
}

/// The names the topology derives: an edge `f`-`g` exists when the faces
/// are adjacent; a corner `f`-`g`-`h` when `h` is a neighbour of `f` and
/// `g` the next one around.
pub open spec fn is_valid(s: Sticker) -> bool {
    match s {
        Sticker::Center(_) => true,
        Sticker::Edge(f, g) => is_adjacent(f, g),
        Sticker::Corner(f, g, h) => is_adjacent(f, h) && g == next_nbr(f, h),
    }
}

/// The face a name is built from, which is also its colour on a solved cube.
pub open spec fn owner(s: Sticker) -> Face {
    match s {
        Sticker::Center(f) => f,
        Sticker::Edge(f, _) => f,
        Sticker::Corner(f, _, _) => f,
    }
}

/// The physical position a name denotes, as an index in 0..54.
pub open spec fn sticker_index(s: Sticker) -> int {
    match s {
        Sticker::Center(f) => face_index(f),
        Sticker::Edge(f, g) => 6 + 4 * face_index(f) + slot_of(f, g),
        Sticker::Corner(f, g, h) => 30 + 4 * face_index(f) + slot_of(f, h),
    }
}

/// Every valid name denotes one of the 54 positions.
pub proof fn lemma_index_range(s: Sticker)
    requires
        is_valid(s),
    ensures
        0 <= sticker_index(s) < 54,
{
    match s {
        Sticker::Center(_) => {}
        Sticker::Edge(f, g) => { lemma_ring(f, g, 0); }
        Sticker::Corner(f, g, h) => { lemma_ring(f, h, 0); }
    }
}

/// The naming is collision-free: two valid names of the same physical
/// position are the same name.  In particular every physical sticker
/// carries exactly one name, so all names of one position trivially agree
/// on the label it shows.
pub proof fn lemma_names_collision_free(s1: Sticker, s2: Sticker)
    requires
        is_valid(s1),
        is_valid(s2),
        sticker_index(s1) == sticker_index(s2),
    ensures
        s1 == s2,
{
    match s1 {
        Sticker::Center(_) => {}
        Sticker::Edge(f1, g1) => {
            lemma_ring(f1, g1, 0);
            match s2 {
                Sticker::Edge(f2, g2) => { lemma_ring(f2, g2, 0); }
                _ => {}
            }
        }
        Sticker::Corner(f1, g1, h1) => {
            lemma_ring(f1, h1, 0);
            match s2 {
                Sticker::Corner(f2, g2, h2) => { lemma_ring(f2, h2, 0); }
                _ => {}
            }
        }
    }
}

/// The label assignment of a solved cube, by position index: each name
/// shows the colour of the face it is built from.
pub open spec fn solved_seq() -> Seq<Face> {
    seq![Face::U, Face::D, Face::L, Face::R, Face::F, Face::B]
        + seq![Face::U, Face::U, Face::U, Face::U]
        + seq![Face::D, Face::D, Face::D, Face::D]
        + seq![Face::L, Face::L, Face::L, Face::L]
        + seq![Face::R, Face::R, Face::R, Face::R]
        + seq![Face::F, Face::F, Face::F, Face::F]
        + seq![Face::B, Face::B, Face::B, Face::B]
        + seq![Face::U, Face::U, Face::U, Face::U]
        + seq![Face::D, Face::D, Face::D, Face::D]
        + seq![Face::L, Face::L, Face::L, Face::L]
        + seq![Face::R, Face::R, Face::R, Face::R]
        + seq![Face::F, Face::F, Face::F, Face::F]
        + seq![Face::B, Face::B, Face::B, Face::B]
}

/// The face numbered `i`, for `i` in 0..6.
pub open spec fn face_at(i: int) -> Face {
    if i == 0 { Face::U }
    else if i == 1 { Face::D }
    else if i == 2 { Face::L }
    else if i == 3 { Face::R }
    else if i == 4 { Face::F }
    else { Face::B }
}

/// What the solved layout holds at each index.
pub proof fn lemma_solved_seq_at(fi: int, n: int, ci: int)
    requires
        0 <= fi < 6,
        0 <= n < 4,
        0 <= ci < 6,
    ensures
        solved_seq().len() == 54,
        solved_seq()[ci] == face_at(ci),
        solved_seq()[6 + 4 * fi + n] == face_at(fi),
        solved_seq()[30 + 4 * fi + n] == face_at(fi),
{
}

/// On a solved cube every name shows its owner's colour.
pub proof fn lemma_solved_owner(s: Sticker)
    requires
        is_valid(s),
    ensures
        solved_seq()[sticker_index(s)] == owner(s),
{
    lemma_index_range(s);
    match s {
        Sticker::Center(f) => {
            lemma_solved_seq_at(0, 0, face_index(f));
        }
        Sticker::Edge(f, g) => {
            lemma_ring(f, g, 0);
            lemma_solved_seq_at(face_index(f), slot_of(f, g), 0);
        }
        Sticker::Corner(f, g, h) => {
            lemma_ring(f, h, 0);
            lemma_solved_seq_at(face_index(f), slot_of(f, h), 0);
        }
    }
}

/// How many of the first `n` positions of `s` show the colour `g`.
pub open spec fn count_upto(s: Seq<Face>, g: Face, n: int) -> int
    decreases n,
{
    if n <= 0 {
        0
    } else {
        count_upto(s, g, n - 1) + if s[n - 1] == g { 1int } else { 0int }
    }
}

/// Writing one position changes the colour counts by exactly the colour
/// taken out and the colour put in.
pub proof fn lemma_count_update(s: Seq<Face>, i: int, v: Face, g: Face, n: int)
    requires
        0 <= i < n,
        n <= s.len(),
    ensures
        count_upto(s.update(i, v), g, n) == count_upto(s, g, n)
            - (if s[i] == g { 1int } else { 0int }) + (if v == g { 1int } else { 0int }),
    decreases n,
{
    if i < n - 1 {
        lemma_count_update(s, i, v, g, n - 1);
    } else {
        lemma_count_prefix(s.update(i, v), s, g, n - 1);
    }
}

/// Counting over equal prefixes is equal.
proof fn lemma_count_prefix(s1: Seq<Face>, s2: Seq<Face>, g: Face, n: int)
    requires
        forall|i: int| 0 <= i < n ==> s1[i] == s2[i],
    ensures
        count_upto(s1, g, n) == count_upto(s2, g, n),
    decreases n,
{
    if n > 0 {
        lemma_count_prefix(s1, s2, g, n - 1);
    }
}

/// Counting distributes over concatenation.
proof fn lemma_count_concat(a: Seq<Face>, b: Seq<Face>, g: Face, m: int)
    requires
        0 <= m <= b.len(),
    ensures
        count_upto(a + b, g, a.len() + m) == count_upto(a, g, a.len() as int) + count_upto(b, g, m),
    decreases m,
{
    if m == 0 {
        lemma_count_prefix(a + b, a, g, a.len() as int);
    } else {
        lemma_count_concat(a, b, g, m - 1);
    }
}

/// A solved cube shows each colour on exactly nine positions.
pub proof fn lemma_solved_count(g: Face)
    ensures
        count_upto(solved_seq(), g, 54) == 9,
{
    let c = seq![Face::U, Face::D, Face::L, Face::R, Face::F, Face::B];
    let bu = seq![Face::U, Face::U, Face::U, Face::U];
    let bd = seq![Face::D, Face::D, Face::D, Face::D];
    let bl = seq![Face::L, Face::L, Face::L, Face::L];
    let br = seq![Face::R, Face::R, Face::R, Face::R];
    let bf = seq![Face::F, Face::F, Face::F, Face::F];
    let bb = seq![Face::B, Face::B, Face::B, Face::B];
    reveal_with_fuel(count_upto, 7);
    assert(count_upto(c, g, 6) == 1);
    assert(count_upto(bu, g, 4) == if g == Face::U { 1int * 4 } else { 0 });
    assert(count_upto(bd, g, 4) == if g == Face::D { 1int * 4 } else { 0 });
    assert(count_upto(bl, g, 4) == if g == Face::L { 1int * 4 } else { 0 });
    assert(count_upto(br, g, 4) == if g == Face::R { 1int * 4 } else { 0 });
    assert(count_upto(bf, g, 4) == if g == Face::F { 1int * 4 } else { 0 });
    assert(count_upto(bb, g, 4) == if g == Face::B { 1int * 4 } else { 0 });
    let s1 = c + bu;
    let s2 = s1 + bd;
    let s3 = s2 + bl;
    let s4 = s3 + br;
    let s5 = s4 + bf;
    let s6 = s5 + bb;
    let s7 = s6 + bu;
    let s8 = s7 + bd;
    let s9 = s8 + bl;
    let s10 = s9 + br;
    let s11 = s10 + bf;
    let s12 = s11 + bb;
    lemma_count_concat(c, bu, g, 4);
    lemma_count_concat(s1, bd, g, 4);
    lemma_count_concat(s2, bl, g, 4);
    lemma_count_concat(s3, br, g, 4);
    lemma_count_concat(s4, bf, g, 4);
    lemma_count_concat(s5, bb, g, 4);
    lemma_count_concat(s6, bu, g, 4);
    lemma_count_concat(s7, bd, g, 4);
    lemma_count_concat(s8, bl, g, 4);
    lemma_count_concat(s9, br, g, 4);
    lemma_count_concat(s10, bf, g, 4);
    lemma_count_concat(s11, bb, g, 4);
    assert(count_upto(s12, g, 54) == 9);
    lemma_count_prefix(solved_seq(), s12, g, 54);
}

impl Sticker {
    /// Executable counterpart of `sticker_index`.
    pub fn position(self) -> (r: usize)
        requires
            is_valid(self),
        ensures
            r as int == sticker_index(self),
            r < 54,
    {
        proof {
            lemma_index_range(self);
        }
        match self {
            Sticker::Center(f) => f.index(),
            Sticker::Edge(f, g) => 6 + 4 * f.index() + f.slot(g),
            Sticker::Corner(f, _, h) => 30 + 4 * f.index() + f.slot(h),
        }
    }
}

} // verus!
