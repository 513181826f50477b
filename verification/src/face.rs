//! The six faces of the puzzle and their static topology: the cyclic
//! adjacency relation (each face's four neighbours in counter-clockwise
//! order as seen from outside that face) and the involutive opposite
//! relation.

use vstd::prelude::*;

verus! {

/// One of the six faces: up, down, left, right, front, back.
#[derive(Clone, Copy, PartialEq, Eq, Structural, Debug)]
pub enum Face {
    U,
    D,
    L,
    R,
    F,
    B,
}

/// A fixed numbering of the faces, used to lay the 54 sticker positions
/// out as indices.
pub open spec fn face_index(f: Face) -> int {
    match f {
        Face::U => 0,
        Face::D => 1,
        Face::L => 2,
        Face::R => 3,
        Face::F => 4,
        Face::B => 5,
    }
}

/// The face opposite to `f` on the cube.
pub open spec fn spec_opposite(f: Face) -> Face {
    match f {
        Face::U => Face::D,
        Face::D => Face::U,
        Face::L => Face::R,
        Face::R => Face::L,
        Face::F => Face::B,
        Face::B => Face::F,
    }
}

/// Two faces are adjacent exactly when they are distinct and not opposite.
pub open spec fn is_adjacent(f: Face, g: Face) -> bool {
    g != f && g != spec_opposite(f)
}

/// The `n`-th neighbour of `f` (taken cyclically, counter-clockwise as
/// seen from outside `f`).
pub open spec fn adj_at(f: Face, n: int) -> Face {
    let m = n % 4;
    match f {
        Face::F => if m == 0 { Face::U } else if m == 1 { Face::L } else if m == 2 { Face::D } else { Face::R },
        Face::U => if m == 0 { Face::B } else if m == 1 { Face::L } else if m == 2 { Face::F } else { Face::R },
        Face::R => if m == 0 { Face::U } else if m == 1 { Face::F } else if m == 2 { Face::D } else { Face::B },
        Face::B => if m == 0 { Face::R } else if m == 1 { Face::D } else if m == 2 { Face::L } else { Face::U },
        Face::D => if m == 0 { Face::R } else if m == 1 { Face::F } else if m == 2 { Face::L } else { Face::B },
        Face::L => if m == 0 { Face::B } else if m == 1 { Face::D } else if m == 2 { Face::F } else { Face::U },
    }
}

/// The position of `g` in `f`'s neighbour ring (0 for a non-adjacent `g`,
/// which callers rule out).
pub open spec fn slot_of(f: Face, g: Face) -> int {
    match f {
        Face::F => match g { Face::U => 0, Face::L => 1, Face::D => 2, Face::R => 3, _ => 0 },
        Face::U => match g { Face::B => 0, Face::L => 1, Face::F => 2, Face::R => 3, _ => 0 },
        Face::R => match g { Face::U => 0, Face::F => 1, Face::D => 2, Face::B => 3, _ => 0 },
        Face::B => match g { Face::R => 0, Face::D => 1, Face::L => 2, Face::U => 3, _ => 0 },
        Face::D => match g { Face::R => 0, Face::F => 1, Face::L => 2, Face::B => 3, _ => 0 },
        Face::L => match g { Face::B => 0, Face::D => 1, Face::F => 2, Face::U => 3, _ => 0 },
    }
}

/// The neighbour that follows `g` in `f`'s ring.
pub open spec fn next_nbr(f: Face, g: Face) -> Face {
    adj_at(f, slot_of(f, g) + 1)
}

/// The neighbour that precedes `g` in `f`'s ring.
pub open spec fn prev_nbr(f: Face, g: Face) -> Face {
    adj_at(f, slot_of(f, g) + 3)
}

/// The opposite relation is an involution, and no face is its own opposite.
pub proof fn lemma_opposite(f: Face)
    ensures
        spec_opposite(spec_opposite(f)) == f,
        spec_opposite(f) != f,
{
}

/// Adjacency is symmetric.
pub proof fn lemma_adjacent_sym(f: Face, g: Face)
    ensures
        is_adjacent(f, g) == is_adjacent(g, f),
{
}

/// Every ring entry is adjacent to its face and sits at the slot that
/// names it; conversely every adjacent face is its slot's ring entry.
pub proof fn lemma_ring(f: Face, g: Face, n: int)
    ensures
        is_adjacent(f, adj_at(f, n)),
        slot_of(f, adj_at(f, n)) == n % 4,
        is_adjacent(f, g) ==> 0 <= slot_of(f, g) < 4 && adj_at(f, slot_of(f, g)) == g,
{
}

/// Faces two slots apart in a ring are opposite to each other.
pub proof fn lemma_ring_opposite(f: Face, n: int)
    ensures
        adj_at(f, n + 2) == spec_opposite(adj_at(f, n)),
{
}

/// Coherence of the rings of adjacent faces: walking forward from `f` in
/// `g`'s ring lands on the face just before `g` in `f`'s ring, and from
/// `g`'s successor (in `f`'s ring), walking forward in that face's ring
/// returns to `f`.
pub proof fn lemma_ring_coherence(f: Face, g: Face)
    requires
        is_adjacent(f, g),
    ensures
        next_nbr(g, f) == prev_nbr(f, g),
        next_nbr(g, next_nbr(f, g)) == f,
        prev_nbr(g, f) == next_nbr(f, g),
{
}

impl Face {
    /// Executable counterpart of `face_index`.
    pub fn index(self) -> (r: usize)
        ensures
            r as int == face_index(self),
    {
        match self {
            Face::U => 0,
            Face::D => 1,
            Face::L => 2,
            Face::R => 3,
            Face::F => 4,
            Face::B => 5,
        }
    }

    /// Executable counterpart of `spec_opposite`.
    pub fn opposite(self) -> (r: Face)
        ensures
            r == spec_opposite(self),
    {
        match self {
            Face::U => Face::D,
            Face::D => Face::U,
            Face::L => Face::R,
            Face::R => Face::L,
            Face::F => Face::B,
            Face::B => Face::F,
        }
    }

    /// Executable counterpart of `adj_at`.
    pub fn adjacent(self, n: usize) -> (r: Face)
        requires
            n < 4,
        ensures
            r == adj_at(self, n as int),
    {
        match self {
            Face::F => if n == 0 { Face::U } else if n == 1 { Face::L } else if n == 2 { Face::D } else { Face::R },
            Face::U => if n == 0 { Face::B } else if n == 1 { Face::L } else if n == 2 { Face::F } else { Face::R },
            Face::R => if n == 0 { Face::U } else if n == 1 { Face::F } else if n == 2 { Face::D } else { Face::B },
            Face::B => if n == 0 { Face::R } else if n == 1 { Face::D } else if n == 2 { Face::L } else { Face::U },
            Face::D => if n == 0 { Face::R } else if n == 1 { Face::F } else if n == 2 { Face::L } else { Face::B },
            Face::L => if n == 0 { Face::B } else if n == 1 { Face::D } else if n == 2 { Face::F } else { Face::U },
        }
    }

    /// Executable counterpart of `slot_of`, for adjacent faces.
    pub fn slot(self, g: Face) -> (r: usize)
        requires
            is_adjacent(self, g),
        ensures
            r as int == slot_of(self, g),
    {
        let r: usize = if g == self.adjacent(0) {
            0
        } else if g == self.adjacent(1) {
            1
        } else if g == self.adjacent(2) {
            2
        } else {
            3
        };
        proof {
            lemma_ring(self, g, 0);
            lemma_ring(self, g, 1);
            lemma_ring(self, g, 2);
            lemma_ring(self, g, 3);
        }
        r
    }
}

} // verus!
