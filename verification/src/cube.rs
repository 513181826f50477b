//! The permutation engine.
//!
//! A `Cube` holds the mutable label assignment: the colour (a `Face`)
//! shown at each of the 54 sticker positions.  Its view is the map from
//! every valid sticker name to that colour.  A quarter turn of a face is
//! a fixed permutation of the assignment, described by the source map
//! `quarter_src`: after the turn, name `s` shows what `quarter_src(f, s)`
//! showed before.  Whole-cube reorientation composes face turns with the
//! companion center-ring permutation `center_src`.

use vstd::prelude::*;
use crate::face::{
    Face, adj_at, is_adjacent, next_nbr, prev_nbr, slot_of, spec_opposite,
    lemma_adjacent_sym, lemma_ring, lemma_ring_coherence, lemma_ring_opposite,
};
use crate::sticker::{
    Sticker, count_upto, is_valid, owner, solved_seq, sticker_index,
    lemma_count_update, lemma_index_range, lemma_names_collision_free, lemma_solved_count,
    lemma_solved_owner,
};

verus! {

/// Where the label shown at `s` after one counter-clockwise quarter turn
/// of face `f` stood before the turn.  Only the nine stickers of `f`'s
/// own layer move: `f`'s edges and corners, and the neighbouring faces'
/// edge and corner stickers that touch `f`.
pub open spec fn quarter_src(f: Face, s: Sticker) -> Sticker {
    match s {
        Sticker::Center(_) => s,
        Sticker::Edge(a, b) => if a == f {
            Sticker::Edge(f, next_nbr(f, b))
        } else if b == f {
            Sticker::Edge(next_nbr(f, a), f)
        } else {
            s
        },
        Sticker::Corner(a, b, c) => if a == f {
            Sticker::Corner(f, next_nbr(f, b), b)
        } else if c == f {
            Sticker::Corner(next_nbr(f, a), a, f)
        } else if b == f {
            Sticker::Corner(c, f, next_nbr(f, c))
        } else {
            s
        },
    }
}

/// Where the label shown at `s` after the companion center-ring
/// permutation of face `f` stood before: the centers of `f`'s neighbours
/// and the edges between consecutive neighbours rotate one step.
pub open spec fn center_src(f: Face, s: Sticker) -> Sticker {
    match s {
        Sticker::Center(g) => if is_adjacent(f, g) {
            Sticker::Center(next_nbr(f, g))
        } else {
            s
        },
        Sticker::Edge(a, b) => if is_adjacent(f, a) && is_adjacent(f, b) {
            if b == prev_nbr(f, a) {
                Sticker::Edge(next_nbr(f, a), a)
            } else if b == next_nbr(f, a) {
                Sticker::Edge(b, next_nbr(f, b))
            } else {
                s
            }
        } else {
            s
        },
        Sticker::Corner(_, _, _) => s,
    }
}

/// The label assignment after one quarter turn of `f`.
pub open spec fn quarter_map(m: Map<Sticker, Face>, f: Face) -> Map<Sticker, Face> {
    Map::new(|s: Sticker| is_valid(s), |s: Sticker| m[quarter_src(f, s)])
}

/// The label assignment after the center-ring permutation of `f`.
pub open spec fn center_map(m: Map<Sticker, Face>, f: Face) -> Map<Sticker, Face> {
    Map::new(|s: Sticker| is_valid(s), |s: Sticker| m[center_src(f, s)])
}

/// The label assignment after `k` quarter turns of `f`.
pub open spec fn face_turn_n(m: Map<Sticker, Face>, f: Face, k: int) -> Map<Sticker, Face>
    decreases k,
{
    if k <= 0 {
        m
    } else {
        quarter_map(face_turn_n(m, f, k - 1), f)
    }
}

/// The label assignment after one quarter reorientation of the whole cube
/// about the axis through `f`: a quarter turn of `f`, the center ring of
/// `f`, and three quarter turns of the opposite face (three forward
/// quarter turns standing for one backward turn).
pub open spec fn whole_turn(m: Map<Sticker, Face>, f: Face) -> Map<Sticker, Face> {
    let b = spec_opposite(f);
    quarter_map(quarter_map(quarter_map(center_map(quarter_map(m, f), f), b), b), b)
}

/// The label assignment after `k` quarter reorientations about `f`.
pub open spec fn cube_turn_n(m: Map<Sticker, Face>, f: Face, k: int) -> Map<Sticker, Face>
    decreases k,
{
    if k <= 0 {
        m
    } else {
        whole_turn(cube_turn_n(m, f, k - 1), f)
    }
}

/// One four-cycle of the assignment: each of `a`, `b`, `c`, `d` takes the
/// label the next one showed, and everything else keeps its label.
spec fn rot4(
    m: Map<Sticker, Face>, m2: Map<Sticker, Face>,
    a: Sticker, b: Sticker, c: Sticker, d: Sticker,
) -> bool {
    &&& m2[a] == m[b]
    &&& m2[b] == m[c]
    &&& m2[c] == m[d]
    &&& m2[d] == m[a]
    &&& forall|t: Sticker| #![trigger m2[t]]
        is_valid(t) && t != a && t != b && t != c && t != d ==> m2[t] == m[t]
}

/// The five alias-ring four-cycles that one quarter turn of `f` performs,
/// in order: `f`'s own edges, the neighbouring edge stickers, `f`'s own
/// corners, and the two rings of neighbouring corner stickers.
spec fn quarter_stages(
    m0: Map<Sticker, Face>, m1: Map<Sticker, Face>, m2: Map<Sticker, Face>,
    m3: Map<Sticker, Face>, m4: Map<Sticker, Face>, m5: Map<Sticker, Face>,
    f: Face,
) -> bool {
    &&& rot4(m0, m1,
        Sticker::Edge(f, adj_at(f, 0)), Sticker::Edge(f, adj_at(f, 1)),
        Sticker::Edge(f, adj_at(f, 2)), Sticker::Edge(f, adj_at(f, 3)))
    &&& rot4(m1, m2,
        Sticker::Edge(adj_at(f, 0), f), Sticker::Edge(adj_at(f, 1), f),
        Sticker::Edge(adj_at(f, 2), f), Sticker::Edge(adj_at(f, 3), f))
    &&& rot4(m2, m3,
        Sticker::Corner(f, adj_at(f, 1), adj_at(f, 0)), Sticker::Corner(f, adj_at(f, 2), adj_at(f, 1)),
        Sticker::Corner(f, adj_at(f, 3), adj_at(f, 2)), Sticker::Corner(f, adj_at(f, 0), adj_at(f, 3)))
    &&& rot4(m3, m4,
        Sticker::Corner(adj_at(f, 0), adj_at(f, 3), f), Sticker::Corner(adj_at(f, 1), adj_at(f, 0), f),
        Sticker::Corner(adj_at(f, 2), adj_at(f, 1), f), Sticker::Corner(adj_at(f, 3), adj_at(f, 2), f))
    &&& rot4(m4, m5,
        Sticker::Corner(adj_at(f, 3), f, adj_at(f, 0)), Sticker::Corner(adj_at(f, 0), f, adj_at(f, 1)),
        Sticker::Corner(adj_at(f, 1), f, adj_at(f, 2)), Sticker::Corner(adj_at(f, 2), f, adj_at(f, 3)))
}

/// The three four-cycles of the companion center-ring permutation of `f`:
/// the neighbour centers, then the two alias rings of the edges between
/// consecutive neighbours.
spec fn center_stages(
    m0: Map<Sticker, Face>, m1: Map<Sticker, Face>, m2: Map<Sticker, Face>,
    m3: Map<Sticker, Face>, f: Face,
) -> bool {
    &&& rot4(m0, m1,
        Sticker::Center(adj_at(f, 0)), Sticker::Center(adj_at(f, 1)),
        Sticker::Center(adj_at(f, 2)), Sticker::Center(adj_at(f, 3)))
    &&& rot4(m1, m2,
        Sticker::Edge(adj_at(f, 0), adj_at(f, 3)), Sticker::Edge(adj_at(f, 1), adj_at(f, 0)),
        Sticker::Edge(adj_at(f, 2), adj_at(f, 1)), Sticker::Edge(adj_at(f, 3), adj_at(f, 2)))
    &&& rot4(m2, m3,
        Sticker::Edge(adj_at(f, 3), adj_at(f, 0)), Sticker::Edge(adj_at(f, 0), adj_at(f, 1)),
        Sticker::Edge(adj_at(f, 1), adj_at(f, 2)), Sticker::Edge(adj_at(f, 2), adj_at(f, 3)))
}

#[verifier::rlimit(50)]
proof fn lemma_qs_untouched(
    m0: Map<Sticker, Face>, m1: Map<Sticker, Face>, m2: Map<Sticker, Face>,
    m3: Map<Sticker, Face>, m4: Map<Sticker, Face>, m5: Map<Sticker, Face>,
    f: Face, s: Sticker,
)
    requires
        quarter_stages(m0, m1, m2, m3, m4, m5, f),
        is_valid(s),
        match s {
            Sticker::Center(_) => true,
            Sticker::Edge(a, b) => a != f && b != f,
            Sticker::Corner(a, b, c) => a != f && b != f && c != f,
        },
    ensures
        m5[s] == m0[quarter_src(f, s)],
{
    lemma_ring(f, f, 0);
    lemma_ring(f, f, 1);
    lemma_ring(f, f, 2);
    lemma_ring(f, f, 3);
    assert(m1[s] == m0[s]);
    assert(m2[s] == m1[s]);
    assert(m3[s] == m2[s]);
    assert(m4[s] == m3[s]);
    assert(m5[s] == m4[s]);
}

#[verifier::rlimit(50)]
proof fn lemma_qs_edge_top(
    m0: Map<Sticker, Face>, m1: Map<Sticker, Face>, m2: Map<Sticker, Face>,
    m3: Map<Sticker, Face>, m4: Map<Sticker, Face>, m5: Map<Sticker, Face>,
    f: Face, y: Face,
)
    requires
        quarter_stages(m0, m1, m2, m3, m4, m5, f),
        is_adjacent(f, y),
    ensures
        m5[Sticker::Edge(f, y)] == m0[quarter_src(f, Sticker::Edge(f, y))],
{
    lemma_ring(f, y, 0);
    lemma_ring(f, f, slot_of(f, y) + 1);
    let s = Sticker::Edge(f, y);
    let q = quarter_src(f, s);
    assert(is_valid(s));
    assert(is_valid(q));
    let m = slot_of(f, y);
    if m == 0 {
        assert(m1[s] == m0[Sticker::Edge(f, adj_at(f, 1))]);
    } else if m == 1 {
        assert(m1[s] == m0[Sticker::Edge(f, adj_at(f, 2))]);
    } else if m == 2 {
        assert(m1[s] == m0[Sticker::Edge(f, adj_at(f, 3))]);
    } else {
        assert(m1[s] == m0[Sticker::Edge(f, adj_at(f, 0))]);
    }
    assert(m1[s] == m0[q]);
    assert(m2[s] == m1[s]);
    assert(m3[s] == m2[s]);
    assert(m4[s] == m3[s]);
    assert(m5[s] == m4[s]);
}

#[verifier::rlimit(50)]
proof fn lemma_qs_edge_side(
    m0: Map<Sticker, Face>, m1: Map<Sticker, Face>, m2: Map<Sticker, Face>,
    m3: Map<Sticker, Face>, m4: Map<Sticker, Face>, m5: Map<Sticker, Face>,
    f: Face, a: Face,
)
    requires
        quarter_stages(m0, m1, m2, m3, m4, m5, f),
        is_adjacent(f, a),
    ensures
        m5[Sticker::Edge(a, f)] == m0[quarter_src(f, Sticker::Edge(a, f))],
{
    lemma_ring(f, a, 0);
    lemma_ring(f, f, slot_of(f, a) + 1);
    lemma_adjacent_sym(f, a);
    lemma_adjacent_sym(f, adj_at(f, slot_of(f, a) + 1));
    let s = Sticker::Edge(a, f);
    let q = quarter_src(f, s);
    assert(is_valid(s));
    assert(is_valid(q));
    let m = slot_of(f, a);
    if m == 0 {
        assert(m2[s] == m1[Sticker::Edge(adj_at(f, 1), f)]);
    } else if m == 1 {
        assert(m2[s] == m1[Sticker::Edge(adj_at(f, 2), f)]);
    } else if m == 2 {
        assert(m2[s] == m1[Sticker::Edge(adj_at(f, 3), f)]);
    } else {
        assert(m2[s] == m1[Sticker::Edge(adj_at(f, 0), f)]);
    }
    assert(m2[s] == m1[q]);
    assert(m1[q] == m0[q]);
    assert(m3[s] == m2[s]);
    assert(m4[s] == m3[s]);
    assert(m5[s] == m4[s]);
}

#[verifier::rlimit(50)]
proof fn lemma_qs_corner_top(
    m0: Map<Sticker, Face>, m1: Map<Sticker, Face>, m2: Map<Sticker, Face>,
    m3: Map<Sticker, Face>, m4: Map<Sticker, Face>, m5: Map<Sticker, Face>,
    f: Face, y: Face, z: Face,
)
    requires
        quarter_stages(m0, m1, m2, m3, m4, m5, f),
        is_adjacent(f, z),
        y == next_nbr(f, z),
    ensures
        m5[Sticker::Corner(f, y, z)] == m0[quarter_src(f, Sticker::Corner(f, y, z))],
{
    lemma_ring(f, z, 0);
    lemma_ring(f, f, slot_of(f, z) + 1);
    lemma_ring(f, f, slot_of(f, z) + 2);
    let s = Sticker::Corner(f, y, z);
    let q = quarter_src(f, s);
    assert(is_valid(s));
    assert(is_valid(q));
    let m = slot_of(f, z);
    if m == 0 {
        assert(m3[s] == m2[Sticker::Corner(f, adj_at(f, 2), adj_at(f, 1))]);
    } else if m == 1 {
        assert(m3[s] == m2[Sticker::Corner(f, adj_at(f, 3), adj_at(f, 2))]);
    } else if m == 2 {
        assert(m3[s] == m2[Sticker::Corner(f, adj_at(f, 0), adj_at(f, 3))]);
    } else {
        assert(m3[s] == m2[Sticker::Corner(f, adj_at(f, 1), adj_at(f, 0))]);
    }
    assert(m3[s] == m2[q]);
    assert(m1[q] == m0[q]);
    assert(m2[q] == m1[q]);
    assert(m4[s] == m3[s]);
    assert(m5[s] == m4[s]);
}

#[verifier::rlimit(50)]
proof fn lemma_qs_corner_side1(
    m0: Map<Sticker, Face>, m1: Map<Sticker, Face>, m2: Map<Sticker, Face>,
    m3: Map<Sticker, Face>, m4: Map<Sticker, Face>, m5: Map<Sticker, Face>,
    f: Face, a: Face, y: Face,
)
    requires
        quarter_stages(m0, m1, m2, m3, m4, m5, f),
        is_adjacent(a, f),
        y == next_nbr(a, f),
    ensures
        m5[Sticker::Corner(a, y, f)] == m0[quarter_src(f, Sticker::Corner(a, y, f))],
{
    lemma_adjacent_sym(a, f);
    lemma_ring(f, a, 0);
    lemma_ring_coherence(f, a);
    lemma_ring(f, f, slot_of(f, a) + 1);
    lemma_ring(f, f, slot_of(f, a) + 3);
    lemma_adjacent_sym(f, adj_at(f, slot_of(f, a) + 1));
    lemma_ring_coherence(f, adj_at(f, slot_of(f, a) + 1));
    let s = Sticker::Corner(a, y, f);
    let q = quarter_src(f, s);
    assert(y == adj_at(f, slot_of(f, a) + 3));
    assert(is_valid(s));
    assert(is_valid(q));
    let m = slot_of(f, a);
    if m == 0 {
        assert(m4[s] == m3[Sticker::Corner(adj_at(f, 1), adj_at(f, 0), f)]);
    } else if m == 1 {
        assert(m4[s] == m3[Sticker::Corner(adj_at(f, 2), adj_at(f, 1), f)]);
    } else if m == 2 {
        assert(m4[s] == m3[Sticker::Corner(adj_at(f, 3), adj_at(f, 2), f)]);
    } else {
        assert(m4[s] == m3[Sticker::Corner(adj_at(f, 0), adj_at(f, 3), f)]);
    }
    assert(m4[s] == m3[q]);
    assert(m1[q] == m0[q]);
    assert(m2[q] == m1[q]);
    assert(m3[q] == m2[q]);
    assert(m5[s] == m4[s]);
}

#[verifier::rlimit(50)]
proof fn lemma_qs_corner_side2(
    m0: Map<Sticker, Face>, m1: Map<Sticker, Face>, m2: Map<Sticker, Face>,
    m3: Map<Sticker, Face>, m4: Map<Sticker, Face>, m5: Map<Sticker, Face>,
    f: Face, a: Face, z: Face,
)
    requires
        quarter_stages(m0, m1, m2, m3, m4, m5, f),
        is_adjacent(a, z),
        f == next_nbr(a, z),
        a != f,
        z != f,
    ensures
        m5[Sticker::Corner(a, f, z)] == m0[quarter_src(f, Sticker::Corner(a, f, z))],
{
    lemma_ring(a, z, 0);
    lemma_ring(a, f, slot_of(a, z) + 1);
    lemma_adjacent_sym(a, f);
    assert(z == prev_nbr(a, f));
    lemma_ring(f, a, 0);
    lemma_ring_coherence(f, a);
    lemma_ring(f, f, slot_of(f, a) + 1);
    lemma_ring(f, f, slot_of(f, a) + 2);
    lemma_adjacent_sym(f, adj_at(f, slot_of(f, a) + 1));
    lemma_adjacent_sym(f, adj_at(f, slot_of(f, a) + 2));
    lemma_ring_coherence(f, adj_at(f, slot_of(f, a) + 1));
    let s = Sticker::Corner(a, f, z);
    let q = quarter_src(f, s);
    let m = slot_of(f, a);
    assert(z == adj_at(f, m + 1));
    assert(is_valid(s));
    assert(is_valid(q));
    if m == 0 {
        assert(m5[s] == m4[Sticker::Corner(adj_at(f, 1), f, adj_at(f, 2))]);
    } else if m == 1 {
        assert(m5[s] == m4[Sticker::Corner(adj_at(f, 2), f, adj_at(f, 3))]);
    } else if m == 2 {
        assert(m5[s] == m4[Sticker::Corner(adj_at(f, 3), f, adj_at(f, 0))]);
    } else {
        assert(m5[s] == m4[Sticker::Corner(adj_at(f, 0), f, adj_at(f, 1))]);
    }
    assert(m5[s] == m4[q]);
    assert(m1[q] == m0[q]);
    assert(m2[q] == m1[q]);
    assert(m3[q] == m2[q]);
    assert(m4[q] == m3[q]);
}

/// The five staged four-cycles compose to exactly the `quarter_src`
/// permutation of the whole assignment.
#[verifier::rlimit(50)]
proof fn lemma_quarter_stages_compose(
    m0: Map<Sticker, Face>, m1: Map<Sticker, Face>, m2: Map<Sticker, Face>,
    m3: Map<Sticker, Face>, m4: Map<Sticker, Face>, m5: Map<Sticker, Face>,
    f: Face,
)
    requires
        quarter_stages(m0, m1, m2, m3, m4, m5, f),
    ensures
        forall|s: Sticker| is_valid(s) ==> m5[s] == m0[quarter_src(f, s)],
{
    assert forall|s: Sticker| is_valid(s) implies m5[s] == m0[quarter_src(f, s)] by {
        match s {
            Sticker::Center(_) => {
                lemma_qs_untouched(m0, m1, m2, m3, m4, m5, f, s);
            }
            Sticker::Edge(a, y) => {
                if a == f {
                    lemma_qs_edge_top(m0, m1, m2, m3, m4, m5, f, y);
                } else if y == f {
                    lemma_qs_edge_side(m0, m1, m2, m3, m4, m5, f, a);
                } else {
                    lemma_qs_untouched(m0, m1, m2, m3, m4, m5, f, s);
                }
            }
            Sticker::Corner(a, y, z) => {
                if a == f {
                    lemma_qs_corner_top(m0, m1, m2, m3, m4, m5, f, y, z);
                } else if z == f {
                    lemma_qs_corner_side1(m0, m1, m2, m3, m4, m5, f, a, y);
                } else if y == f {
                    lemma_qs_corner_side2(m0, m1, m2, m3, m4, m5, f, a, z);
                } else {
                    lemma_qs_untouched(m0, m1, m2, m3, m4, m5, f, s);
                }
            }
        }
    }
}

#[verifier::rlimit(50)]
proof fn lemma_cs_untouched(
    m0: Map<Sticker, Face>, m1: Map<Sticker, Face>, m2: Map<Sticker, Face>,
    m3: Map<Sticker, Face>, f: Face, s: Sticker,
)
    requires
        center_stages(m0, m1, m2, m3, f),
        is_valid(s),
        match s {
            Sticker::Center(g) => !is_adjacent(f, g),
            Sticker::Edge(a, b) => !(is_adjacent(f, a) && is_adjacent(f, b)),
            Sticker::Corner(_, _, _) => true,
        },
    ensures
        m3[s] == m0[center_src(f, s)],
{
    lemma_ring(f, f, 0);
    lemma_ring(f, f, 1);
    lemma_ring(f, f, 2);
    lemma_ring(f, f, 3);
    assert(m1[s] == m0[s]);
    assert(m2[s] == m1[s]);
    assert(m3[s] == m2[s]);
}

#[verifier::rlimit(50)]
proof fn lemma_cs_center(
    m0: Map<Sticker, Face>, m1: Map<Sticker, Face>, m2: Map<Sticker, Face>,
    m3: Map<Sticker, Face>, f: Face, g: Face,
)
    requires
        center_stages(m0, m1, m2, m3, f),
        is_adjacent(f, g),
    ensures
        m3[Sticker::Center(g)] == m0[center_src(f, Sticker::Center(g))],
{
    lemma_ring(f, g, 0);
    lemma_ring(f, f, slot_of(f, g) + 1);
    let s = Sticker::Center(g);
    let q = center_src(f, s);
    assert(is_valid(s));
    assert(is_valid(q));
    let m = slot_of(f, g);
    if m == 0 {
        assert(m1[s] == m0[Sticker::Center(adj_at(f, 1))]);
    } else if m == 1 {
        assert(m1[s] == m0[Sticker::Center(adj_at(f, 2))]);
    } else if m == 2 {
        assert(m1[s] == m0[Sticker::Center(adj_at(f, 3))]);
    } else {
        assert(m1[s] == m0[Sticker::Center(adj_at(f, 0))]);
    }
    assert(m1[s] == m0[q]);
    assert(m2[s] == m1[s]);
    assert(m3[s] == m2[s]);
}

#[verifier::rlimit(50)]
proof fn lemma_cs_edge_prev(
    m0: Map<Sticker, Face>, m1: Map<Sticker, Face>, m2: Map<Sticker, Face>,
    m3: Map<Sticker, Face>, f: Face, a: Face,
)
    requires
        center_stages(m0, m1, m2, m3, f),
        is_adjacent(f, a),
    ensures
        m3[Sticker::Edge(a, prev_nbr(f, a))]
            == m0[center_src(f, Sticker::Edge(a, prev_nbr(f, a)))],
{
    lemma_ring(f, a, 0);
    lemma_ring(f, f, slot_of(f, a) + 1);
    lemma_ring(f, f, slot_of(f, a) + 2);
    lemma_ring(f, f, slot_of(f, a) + 3);
    lemma_ring_opposite(f, slot_of(f, a) + 3);
    lemma_ring_opposite(f, slot_of(f, a) + 1);
    let s = Sticker::Edge(a, prev_nbr(f, a));
    let q = center_src(f, s);
    assert(is_valid(s));
    assert(is_valid(q));
    let m = slot_of(f, a);
    if m == 0 {
        assert(m2[s] == m1[Sticker::Edge(adj_at(f, 1), adj_at(f, 0))]);
    } else if m == 1 {
        assert(m2[s] == m1[Sticker::Edge(adj_at(f, 2), adj_at(f, 1))]);
    } else if m == 2 {
        assert(m2[s] == m1[Sticker::Edge(adj_at(f, 3), adj_at(f, 2))]);
    } else {
        assert(m2[s] == m1[Sticker::Edge(adj_at(f, 0), adj_at(f, 3))]);
    }
    assert(m2[s] == m1[q]);
    assert(m1[q] == m0[q]);
    assert(m3[s] == m2[s]);
}

#[verifier::rlimit(50)]
proof fn lemma_cs_edge_next(
    m0: Map<Sticker, Face>, m1: Map<Sticker, Face>, m2: Map<Sticker, Face>,
    m3: Map<Sticker, Face>, f: Face, a: Face,
)
    requires
        center_stages(m0, m1, m2, m3, f),
        is_adjacent(f, a),
    ensures
        m3[Sticker::Edge(a, next_nbr(f, a))]
            == m0[center_src(f, Sticker::Edge(a, next_nbr(f, a)))],
{
    lemma_ring(f, a, 0);
    lemma_ring(f, f, slot_of(f, a) + 1);
    lemma_ring(f, f, slot_of(f, a) + 2);
    lemma_ring(f, f, slot_of(f, a) + 3);
    lemma_ring_opposite(f, slot_of(f, a));
    lemma_ring_opposite(f, slot_of(f, a) + 2);
    let s = Sticker::Edge(a, next_nbr(f, a));
    let q = center_src(f, s);
    assert(is_valid(s));
    assert(is_valid(q));
    let m = slot_of(f, a);
    if m == 0 {
        assert(m3[s] == m2[Sticker::Edge(adj_at(f, 1), adj_at(f, 2))]);
    } else if m == 1 {
        assert(m3[s] == m2[Sticker::Edge(adj_at(f, 2), adj_at(f, 3))]);
    } else if m == 2 {
        assert(m3[s] == m2[Sticker::Edge(adj_at(f, 3), adj_at(f, 0))]);
    } else {
        assert(m3[s] == m2[Sticker::Edge(adj_at(f, 0), adj_at(f, 1))]);
    }
    assert(m3[s] == m2[q]);
    assert(m1[q] == m0[q]);
    assert(m2[q] == m1[q]);
}

/// The three staged four-cycles compose to exactly the `center_src`
/// permutation of the whole assignment.
#[verifier::rlimit(80)]
proof fn lemma_center_stages_compose(
    m0: Map<Sticker, Face>, m1: Map<Sticker, Face>, m2: Map<Sticker, Face>,
    m3: Map<Sticker, Face>, f: Face,
)
    requires
        center_stages(m0, m1, m2, m3, f),
    ensures
        forall|s: Sticker| is_valid(s) ==> m3[s] == m0[center_src(f, s)],
{
    assert forall|s: Sticker| is_valid(s) implies m3[s] == m0[center_src(f, s)] by {
        match s {
            Sticker::Center(g) => {
                if is_adjacent(f, g) {
                    lemma_cs_center(m0, m1, m2, m3, f, g);
                } else {
                    lemma_cs_untouched(m0, m1, m2, m3, f, s);
                }
            }
            Sticker::Edge(a, b) => {
                if is_adjacent(f, a) && is_adjacent(f, b) {
                    lemma_ring(f, a, 0);
                    lemma_ring(f, b, 0);
                    lemma_ring_opposite(f, slot_of(f, a));
                    lemma_ring_opposite(f, slot_of(f, a) + 1);
                    lemma_ring_opposite(f, slot_of(f, a) + 2);
                    lemma_ring_opposite(f, slot_of(f, a) + 3);
                    if b == prev_nbr(f, a) {
                        lemma_cs_edge_prev(m0, m1, m2, m3, f, a);
                    } else if b == next_nbr(f, a) {
                        lemma_cs_edge_next(m0, m1, m2, m3, f, a);
                    } else {
                        let m = slot_of(f, a);
                        let k = slot_of(f, b);
                        assert(k == m || k == (m + 1) % 4 || k == (m + 2) % 4 || k == (m + 3) % 4);
                        assert(b != spec_opposite(a));
                        assert(false);
                    }
                } else {
                    lemma_cs_untouched(m0, m1, m2, m3, f, s);
                }
            }
            Sticker::Corner(_, _, _) => {
                lemma_cs_untouched(m0, m1, m2, m3, f, s);
            }
        }
    }
}

/// The label assignment of a solved cube: every name shows its owner.
pub open spec fn solved_map() -> Map<Sticker, Face> {
    Map::new(|s: Sticker| is_valid(s), |s: Sticker| owner(s))
}

/// The sticker state of the puzzle.
pub struct Cube {
    labels: Vec<Face>,
}

impl View for Cube {
    type V = Map<Sticker, Face>;

    /// The colour shown at every valid sticker name.
    closed spec fn view(&self) -> Map<Sticker, Face> {
        Map::new(|s: Sticker| is_valid(s), |s: Sticker| self.labels@[sticker_index(s)])
    }
}

impl Cube {
    /// The label assignment covers exactly the 54 positions.
    pub closed spec fn wf(&self) -> bool {
        self.labels@.len() == 54
    }

    /// How many of the 54 positions show the colour `g`.
    pub closed spec fn color_count(&self, g: Face) -> int {
        count_upto(self.labels@, g, 54)
    }

    /// The initial label derivation: every name shows the colour of the
    /// face it is built from, giving all 54 positions their solved label.
    pub fn initialize_stickers() -> (v: Vec<Face>)
        ensures
            v@ == solved_seq(),
            v@.len() == 54,
    {
        let mut v: Vec<Face> = Vec::new();
        let mut ci: usize = 0;
        while ci < 6
            invariant
                ci <= 6,
                v@.len() == ci,
                forall|i: int| 0 <= i < ci ==> v@[i] == solved_seq()[i],
            decreases 6 - ci,
        {
            proof {
                crate::sticker::lemma_solved_seq_at(0, 0, ci as int);
            }
            v.push(Self::face_for(ci));
            ci += 1;
        }
        let mut fi: usize = 0;
        while fi < 6
            invariant
                fi <= 6,
                v@.len() == 6 + 4 * fi,
                forall|i: int| 0 <= i < 6 + 4 * fi ==> v@[i] == solved_seq()[i],
            decreases 6 - fi,
        {
            let mut n: usize = 0;
            while n < 4
                invariant
                    fi < 6,
                    n <= 4,
                    v@.len() == 6 + 4 * fi + n,
                    forall|i: int| 0 <= i < 6 + 4 * fi + n ==> v@[i] == solved_seq()[i],
                decreases 4 - n,
            {
                proof {
                    crate::sticker::lemma_solved_seq_at(fi as int, n as int, 0);
                }
                v.push(Self::face_for(fi));
                n += 1;
            }
            fi += 1;
        }
        let mut fi: usize = 0;
        while fi < 6
            invariant
                fi <= 6,
                v@.len() == 30 + 4 * fi,
                forall|i: int| 0 <= i < 30 + 4 * fi ==> v@[i] == solved_seq()[i],
            decreases 6 - fi,
        {
            let mut n: usize = 0;
            while n < 4
                invariant
                    fi < 6,
                    n <= 4,
                    v@.len() == 30 + 4 * fi + n,
                    forall|i: int| 0 <= i < 30 + 4 * fi + n ==> v@[i] == solved_seq()[i],
                decreases 4 - n,
            {
                proof {
                    crate::sticker::lemma_solved_seq_at(fi as int, n as int, 0);
                }
                v.push(Self::face_for(fi));
                n += 1;
            }
            fi += 1;
        }
        proof {
            crate::sticker::lemma_solved_seq_at(0, 0, 0);
            assert(v@ =~= solved_seq());
        }
        v
    }

    /// The face numbered `i` in the layout order.
    fn face_for(i: usize) -> (r: Face)
        requires
            i < 6,
        ensures
            r == crate::sticker::face_at(i as int),
    {
        if i == 0 { Face::U }
        else if i == 1 { Face::D }
        else if i == 2 { Face::L }
        else if i == 3 { Face::R }
        else if i == 4 { Face::F }
        else { Face::B }
    }

    /// A fresh, solved cube.
    pub fn new() -> (c: Cube)
        ensures
            c.wf(),
            c@ == solved_map(),
            forall|g: Face| c.color_count(g) == 9,
    {
        let labels = Self::initialize_stickers();
        let c = Cube { labels };
        proof {
            assert forall|s: Sticker| is_valid(s) implies c@[s] == owner(s) by {
                lemma_solved_owner(s);
            }
            assert(c@ =~= solved_map());
            assert forall|g: Face| c.color_count(g) == 9 by {
                lemma_solved_count(g);
            }
        }
        c
    }

    /// Replace the state with a fresh solved assignment.
    pub fn reset(&mut self)
        ensures
            final(self).wf(),
            final(self)@ == solved_map(),
            forall|g: Face| final(self).color_count(g) == 9,
    {
        *self = Self::new();
    }

    /// The colour currently shown at a sticker position.
    pub fn label(&self, s: Sticker) -> (r: Face)
        requires
            self.wf(),
            is_valid(s),
        ensures
            r == self@[s],
    {
        let i = s.position();
        self.labels[i]
    }

    /// A read-only export of the whole assignment, by position index.
    pub fn snapshot(&self) -> (v: Vec<Face>)
        requires
            self.wf(),
        ensures
            v@.len() == 54,
            forall|s: Sticker| is_valid(s) ==> v@[sticker_index(s)] == self@[s],
    {
        let mut v: Vec<Face> = Vec::new();
        let mut i: usize = 0;
        while i < 54
            invariant
                self.wf(),
                i <= 54,
                v@.len() == i,
                forall|j: int| 0 <= j < i ==> v@[j] == self.labels@[j],
            decreases 54 - i,
        {
            v.push(self.labels[i]);
            i += 1;
        }
        proof {
            assert forall|s: Sticker| is_valid(s) implies v@[sticker_index(s)] == self@[s] by {
                lemma_index_range(s);
            }
        }
        v
    }

    /// Write one position of the assignment.
    fn set_label(&mut self, s: Sticker, c: Face)
        requires
            old(self).wf(),
            is_valid(s),
        ensures
            final(self).wf(),
            forall|t: Sticker| is_valid(t)
                ==> final(self)@[t] == (if t == s { c } else { old(self)@[t] }),
            forall|g: Face| final(self).color_count(g) == old(self).color_count(g)
                - (if old(self)@[s] == g { 1int } else { 0int })
                + (if c == g { 1int } else { 0int }),
    {
        let i = s.position();
        self.labels.set(i, c);
        proof {
            assert forall|t: Sticker| is_valid(t)
                implies self@[t] == (if t == s { c } else { old(self)@[t] }) by {
                if t != s {
                    if sticker_index(t) == sticker_index(s) {
                        lemma_names_collision_free(t, s);
                    }
                }
            }
            assert forall|g: Face| self.color_count(g) == old(self).color_count(g)
                - (if old(self)@[s] == g { 1int } else { 0int })
                + (if c == g { 1int } else { 0int }) by {
                lemma_count_update(old(self).labels@, sticker_index(s), c, g, 54);
            }
        }
    }

    /// Rotate the labels of four distinct positions one step: each of the
    /// four names takes the label the next one showed.
    fn rotate4(&mut self, a: Sticker, b: Sticker, c: Sticker, d: Sticker)
        requires
            old(self).wf(),
            is_valid(a),
            is_valid(b),
            is_valid(c),
            is_valid(d),
            a != b, a != c, a != d, b != c, b != d, c != d,
        ensures
            final(self).wf(),
            final(self)@[a] == old(self)@[b],
            final(self)@[b] == old(self)@[c],
            final(self)@[c] == old(self)@[d],
            final(self)@[d] == old(self)@[a],
            forall|t: Sticker| #![trigger final(self)@[t]]
                is_valid(t) && t != a && t != b && t != c && t != d
                ==> final(self)@[t] == old(self)@[t],
            forall|g: Face| final(self).color_count(g) == old(self).color_count(g),
    {
        let va = self.label(a);
        let vb = self.label(b);
        let vc = self.label(c);
        let vd = self.label(d);
        self.set_label(a, vb);
        self.set_label(b, vc);
        self.set_label(c, vd);
        self.set_label(d, va);
    }

    /// One counter-clockwise quarter turn of face `f`: only the nine
    /// stickers of `f`'s own layer move, each of the five alias rings
    /// rotating one step along `f`'s neighbour ring; every other name
    /// keeps its label, and every colour keeps its count.
    #[verifier::rlimit(50)]
    pub fn turn_raw(&mut self, f: Face)
        requires
            old(self).wf(),
        ensures
            final(self).wf(),
            final(self)@ == quarter_map(old(self)@, f),
            forall|g: Face| final(self).color_count(g) == old(self).color_count(g),
    {
        let i0 = f.adjacent(0);
        let i1 = f.adjacent(1);
        let i2 = f.adjacent(2);
        let i3 = f.adjacent(3);
        proof {
            lemma_ring(f, f, 0);
            lemma_ring(f, f, 1);
            lemma_ring(f, f, 2);
            lemma_ring(f, f, 3);
            lemma_adjacent_sym(f, i0);
            lemma_adjacent_sym(f, i1);
            lemma_adjacent_sym(f, i2);
            lemma_adjacent_sym(f, i3);
            lemma_ring_coherence(f, i0);
            lemma_ring_coherence(f, i1);
            lemma_ring_coherence(f, i2);
            lemma_ring_coherence(f, i3);
            lemma_ring_opposite(f, 0);
            lemma_ring_opposite(f, 1);
            lemma_ring_opposite(f, 2);
            lemma_ring_opposite(f, 3);
        }
        self.rotate4(
            Sticker::Edge(f, i0), Sticker::Edge(f, i1),
            Sticker::Edge(f, i2), Sticker::Edge(f, i3),
        );
        let ghost st1 = *self;
        self.rotate4(
            Sticker::Edge(i0, f), Sticker::Edge(i1, f),
            Sticker::Edge(i2, f), Sticker::Edge(i3, f),
        );
        let ghost st2 = *self;
        self.rotate4(
            Sticker::Corner(f, i1, i0), Sticker::Corner(f, i2, i1),
            Sticker::Corner(f, i3, i2), Sticker::Corner(f, i0, i3),
        );
        let ghost st3 = *self;
        self.rotate4(
            Sticker::Corner(i0, i3, f), Sticker::Corner(i1, i0, f),
            Sticker::Corner(i2, i1, f), Sticker::Corner(i3, i2, f),
        );
        let ghost st4 = *self;
        self.rotate4(
            Sticker::Corner(i3, f, i0), Sticker::Corner(i0, f, i1),
            Sticker::Corner(i1, f, i2), Sticker::Corner(i2, f, i3),
        );
        proof {
            assert(quarter_stages(old(self)@, st1@, st2@, st3@, st4@, self@, f));
            lemma_quarter_stages_compose(old(self)@, st1@, st2@, st3@, st4@, self@, f);
            assert(self@ =~= quarter_map(old(self)@, f));
        }
    }

    /// The companion center-ring permutation of face `f`: the centers of
    /// `f`'s four neighbours and the edge stickers on the rim between
    /// consecutive neighbours rotate one step.  Used only as part of a
    /// whole-cube reorientation.
    #[verifier::rlimit(50)]
    pub fn turn_raw_center(&mut self, f: Face)
        requires
            old(self).wf(),
        ensures
            final(self).wf(),
            final(self)@ == center_map(old(self)@, f),
            forall|g: Face| final(self).color_count(g) == old(self).color_count(g),
    {
        let i0 = f.adjacent(0);
        let i1 = f.adjacent(1);
        let i2 = f.adjacent(2);
        let i3 = f.adjacent(3);
        proof {
            lemma_ring(f, f, 0);
            lemma_ring(f, f, 1);
            lemma_ring(f, f, 2);
            lemma_ring(f, f, 3);
            lemma_ring_opposite(f, 0);
            lemma_ring_opposite(f, 1);
            lemma_ring_opposite(f, 2);
            lemma_ring_opposite(f, 3);
        }
        self.rotate4(
            Sticker::Center(i0), Sticker::Center(i1),
            Sticker::Center(i2), Sticker::Center(i3),
        );
        let ghost st1 = *self;
        self.rotate4(
            Sticker::Edge(i0, i3), Sticker::Edge(i1, i0),
            Sticker::Edge(i2, i1), Sticker::Edge(i3, i2),
        );
        let ghost st2 = *self;
        self.rotate4(
            Sticker::Edge(i3, i0), Sticker::Edge(i0, i1),
            Sticker::Edge(i1, i2), Sticker::Edge(i2, i3),
        );
        proof {
            assert(center_stages(old(self)@, st1@, st2@, self@, f));
            lemma_center_stages_compose(old(self)@, st1@, st2@, self@, f);
            assert(self@ =~= center_map(old(self)@, f));
        }
    }

    /// `i` quarter turns of face `f` (none for `i <= 0`).
    pub fn turn(&mut self, f: Face, i: i32)
        requires
            old(self).wf(),
        ensures
            final(self).wf(),
            final(self)@ == face_turn_n(old(self)@, f, if i >= 0 { i as int } else { 0 }),
            forall|g: Face| final(self).color_count(g) == old(self).color_count(g),
    {
        let mut n: i32 = 0;
        while n < i
            invariant
                self.wf(),
                0 <= n,
                n <= i || n == 0,
                self@ == face_turn_n(old(self)@, f, n as int),
                forall|g: Face| self.color_count(g) == old(self).color_count(g),
            decreases i - n,
        {
            self.turn_raw(f);
            n += 1;
        }
    }

    /// `i` quarter reorientations of the whole cube about the axis through
    /// `f` (none for `i <= 0`): each one is a quarter turn of `f`, the
    /// center ring of `f`, and three quarter turns of the opposite face,
    /// three forward quarter turns standing for one backward turn.
    pub fn turn_all(&mut self, f: Face, i: i32)
        requires
            old(self).wf(),
        ensures
            final(self).wf(),
            final(self)@ == cube_turn_n(old(self)@, f, if i >= 0 { i as int } else { 0 }),
            forall|g: Face| final(self).color_count(g) == old(self).color_count(g),
    {
        let bk = f.opposite();
        let mut n: i32 = 0;
        while n < i
            invariant
                self.wf(),
                0 <= n,
                n <= i || n == 0,
                bk == spec_opposite(f),
                self@ == cube_turn_n(old(self)@, f, n as int),
                forall|g: Face| self.color_count(g) == old(self).color_count(g),
            decreases i - n,
        {
            self.turn_raw(f);
            self.turn_raw_center(f);
            self.turn_raw(bk);
            self.turn_raw(bk);
            self.turn_raw(bk);
            n += 1;
        }
    }

    /// The face-turn command of the interface: `quarter_turns` quarter
    /// turns of the face `f`.
    pub fn apply_face_turn(&mut self, f: Face, quarter_turns: i32)
        requires
            old(self).wf(),
        ensures
            final(self).wf(),
            final(self)@ == face_turn_n(
                old(self)@, f,
                if quarter_turns >= 0 { quarter_turns as int } else { 0 },
            ),
            forall|g: Face| final(self).color_count(g) == old(self).color_count(g),
    {
        self.turn(f, quarter_turns);
    }

    /// The reorientation command of the interface: `quarter_turns` quarter
    /// reorientations of the whole cube about the axis through `f`.
    pub fn apply_cube_reorientation(&mut self, f: Face, quarter_turns: i32)
        requires
            old(self).wf(),
        ensures
            final(self).wf(),
            final(self)@ == cube_turn_n(
                old(self)@, f,
                if quarter_turns >= 0 { quarter_turns as int } else { 0 },
            ),
            forall|g: Face| final(self).color_count(g) == old(self).color_count(g),
    {
        self.turn_all(f, quarter_turns);
    }
}

} // verus!
