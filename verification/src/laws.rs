//! The algebraic laws of the permutation engine: a face turn has order
//! four, three quarter turns invert one, and a whole-cube reorientation
//! has order four as well.

use vstd::prelude::*;
use crate::face::{
    Face, adj_at, is_adjacent, next_nbr, prev_nbr, slot_of, spec_opposite,
    lemma_adjacent_sym, lemma_opposite, lemma_ring, lemma_ring_coherence, lemma_ring_opposite,
};
use crate::sticker::{Sticker, is_valid};
use crate::cube::{center_src, cube_turn_n, face_turn_n, quarter_src, whole_turn};

verus! {

/// The domain every label assignment has: all valid sticker names.
pub open spec fn all_names(m: Map<Sticker, Face>) -> bool {
    forall|s: Sticker| #[trigger] m.dom().contains(s) <==> is_valid(s)
}

/// A quarter turn sends valid names to valid names.
#[verifier::rlimit(100)]
pub proof fn lemma_quarter_src_valid(f: Face, s: Sticker)
    requires
        is_valid(s),
    ensures
        is_valid(quarter_src(f, s)),
{
    lemma_ring(f, f, 0);
    lemma_ring(f, f, 1);
    lemma_ring(f, f, 2);
    lemma_ring(f, f, 3);
    lemma_ring(f, f, 4);
    lemma_ring(f, f, 5);
    lemma_adjacent_sym(f, adj_at(f, 0));
    lemma_adjacent_sym(f, adj_at(f, 1));
    lemma_adjacent_sym(f, adj_at(f, 2));
    lemma_adjacent_sym(f, adj_at(f, 3));
    lemma_ring_coherence(f, adj_at(f, 0));
    lemma_ring_coherence(f, adj_at(f, 1));
    lemma_ring_coherence(f, adj_at(f, 2));
    lemma_ring_coherence(f, adj_at(f, 3));
    match s {
        Sticker::Center(_) => {}
        Sticker::Edge(a, y) => {
            if a == f {
                lemma_ring(f, y, 0);
            } else if y == f {
                lemma_ring(f, a, 0);
            }
        }
        Sticker::Corner(a, y, z) => {
            if a == f {
                lemma_ring(f, z, 0);
            } else if z == f {
                lemma_adjacent_sym(a, f);
                lemma_ring(f, a, 0);
                lemma_ring_coherence(f, a);
            } else if y == f {
                lemma_ring(a, z, 0);
                lemma_ring(a, f, slot_of(a, z) + 1);
                lemma_adjacent_sym(a, f);
                lemma_ring(f, a, 0);
                lemma_ring_coherence(f, a);
            }
        }
    }
}

/// The center-ring permutation sends valid names to valid names.
pub proof fn lemma_center_src_valid(f: Face, s: Sticker)
    requires
        is_valid(s),
    ensures
        is_valid(center_src(f, s)),
{
    match s {
        Sticker::Center(_) => {}
        Sticker::Edge(a, y) => {
            if is_adjacent(f, a) && is_adjacent(f, y) {
                lemma_ring(f, a, 0);
                lemma_ring(f, f, slot_of(f, a) + 1);
                lemma_ring(f, f, slot_of(f, a) + 2);
                lemma_ring_opposite(f, slot_of(f, a) + 1);
                lemma_ring_opposite(f, slot_of(f, a) + 3);
                lemma_adjacent_sym(f, adj_at(f, slot_of(f, a) + 1));
                lemma_ring(f, y, 0);
                lemma_ring(f, f, slot_of(f, y) + 1);
                lemma_ring_opposite(f, slot_of(f, y));
                lemma_ring_opposite(f, slot_of(f, y) + 2);
            }
        }
        Sticker::Corner(_, _, _) => {}
    }
}

#[verifier::rlimit(100)]
proof fn lemma_q4_edge_top(f: Face, y: Face)
    requires
        is_adjacent(f, y),
    ensures
        quarter_src(f, quarter_src(f, quarter_src(f, quarter_src(f, Sticker::Edge(f, y)))))
            == Sticker::Edge(f, y),
{
    lemma_ring(f, y, 0);
    lemma_ring(f, f, 0);
    lemma_ring(f, f, 1);
    lemma_ring(f, f, 2);
    lemma_ring(f, f, 3);
    lemma_ring(f, f, 4);
    lemma_ring(f, f, 5);
    lemma_ring(f, f, 6);
    lemma_ring(f, f, 7);
    let s = Sticker::Edge(f, y);
    let m = slot_of(f, y);
    if m == 0 {
        assert(quarter_src(f, quarter_src(f, quarter_src(f, quarter_src(f, s)))) == s);
    } else if m == 1 {
        assert(quarter_src(f, quarter_src(f, quarter_src(f, quarter_src(f, s)))) == s);
    } else if m == 2 {
        assert(quarter_src(f, quarter_src(f, quarter_src(f, quarter_src(f, s)))) == s);
    } else {
        assert(quarter_src(f, quarter_src(f, quarter_src(f, quarter_src(f, s)))) == s);
    }
}

#[verifier::rlimit(100)]
proof fn lemma_q4_edge_side(f: Face, a: Face)
    requires
        is_adjacent(f, a),
    ensures
        quarter_src(f, quarter_src(f, quarter_src(f, quarter_src(f, Sticker::Edge(a, f)))))
            == Sticker::Edge(a, f),
{
    lemma_ring(f, a, 0);
    lemma_ring(f, f, 0);
    lemma_ring(f, f, 1);
    lemma_ring(f, f, 2);
    lemma_ring(f, f, 3);
    lemma_ring(f, f, 4);
    lemma_ring(f, f, 5);
    lemma_ring(f, f, 6);
    lemma_ring(f, f, 7);
    let s = Sticker::Edge(a, f);
    let m = slot_of(f, a);
    if m == 0 {
        assert(quarter_src(f, quarter_src(f, quarter_src(f, quarter_src(f, s)))) == s);
    } else if m == 1 {
        assert(quarter_src(f, quarter_src(f, quarter_src(f, quarter_src(f, s)))) == s);
    } else if m == 2 {
        assert(quarter_src(f, quarter_src(f, quarter_src(f, quarter_src(f, s)))) == s);
    } else {
        assert(quarter_src(f, quarter_src(f, quarter_src(f, quarter_src(f, s)))) == s);
    }
}

#[verifier::rlimit(100)]
proof fn lemma_q4_corner_top(f: Face, y: Face, z: Face)
    requires
        is_adjacent(f, z),
        y == next_nbr(f, z),
    ensures
        quarter_src(f, quarter_src(f, quarter_src(f, quarter_src(f, Sticker::Corner(f, y, z)))))
            == Sticker::Corner(f, y, z),
{
    lemma_ring(f, z, 0);
    lemma_ring(f, f, 0);
    lemma_ring(f, f, 1);
    lemma_ring(f, f, 2);
    lemma_ring(f, f, 3);
    lemma_ring(f, f, 4);
    lemma_ring(f, f, 5);
    lemma_ring(f, f, 6);
    lemma_ring(f, f, 7);
    let s = Sticker::Corner(f, y, z);
    let m = slot_of(f, z);
    if m == 0 {
        assert(quarter_src(f, quarter_src(f, quarter_src(f, quarter_src(f, s)))) == s);
    } else if m == 1 {
        assert(quarter_src(f, quarter_src(f, quarter_src(f, quarter_src(f, s)))) == s);
    } else if m == 2 {
        assert(quarter_src(f, quarter_src(f, quarter_src(f, quarter_src(f, s)))) == s);
    } else {
        assert(quarter_src(f, quarter_src(f, quarter_src(f, quarter_src(f, s)))) == s);
    }
}

#[verifier::rlimit(100)]
proof fn lemma_q4_corner_side1(f: Face, a: Face, y: Face)
    requires
        is_adjacent(a, f),
        y == next_nbr(a, f),
    ensures
        quarter_src(f, quarter_src(f, quarter_src(f, quarter_src(f, Sticker::Corner(a, y, f)))))
            == Sticker::Corner(a, y, f),
{
    lemma_adjacent_sym(a, f);
    lemma_ring(f, a, 0);
    lemma_ring_coherence(f, a);
    lemma_ring(f, f, 0);
    lemma_ring(f, f, 1);
    lemma_ring(f, f, 2);
    lemma_ring(f, f, 3);
    lemma_ring(f, f, 4);
    lemma_ring(f, f, 5);
    lemma_ring(f, f, 6);
    lemma_ring(f, f, 7);
    let s = Sticker::Corner(a, y, f);
    let m = slot_of(f, a);
    assert(y == adj_at(f, m + 3));
    if m == 0 {
        assert(quarter_src(f, quarter_src(f, quarter_src(f, quarter_src(f, s)))) == s);
    } else if m == 1 {
        assert(quarter_src(f, quarter_src(f, quarter_src(f, quarter_src(f, s)))) == s);
    } else if m == 2 {
        assert(quarter_src(f, quarter_src(f, quarter_src(f, quarter_src(f, s)))) == s);
    } else {
        assert(quarter_src(f, quarter_src(f, quarter_src(f, quarter_src(f, s)))) == s);
    }
}

#[verifier::rlimit(100)]
proof fn lemma_q4_corner_side2(f: Face, a: Face, z: Face)
    requires
        is_adjacent(a, z),
        f == next_nbr(a, z),
        a != f,
        z != f,
    ensures
        quarter_src(f, quarter_src(f, quarter_src(f, quarter_src(f, Sticker::Corner(a, f, z)))))
            == Sticker::Corner(a, f, z),
{
    lemma_ring(a, z, 0);
    lemma_ring(a, f, slot_of(a, z) + 1);
    lemma_adjacent_sym(a, f);
    assert(z == prev_nbr(a, f));
    lemma_ring(f, a, 0);
    lemma_ring_coherence(f, a);
    lemma_ring(f, f, 0);
    lemma_ring(f, f, 1);
    lemma_ring(f, f, 2);
    lemma_ring(f, f, 3);
    lemma_ring(f, f, 4);
    lemma_ring(f, f, 5);
    lemma_ring(f, f, 6);
    lemma_ring(f, f, 7);
    let s = Sticker::Corner(a, f, z);
    let m = slot_of(f, a);
    assert(z == adj_at(f, m + 1));
    if m == 0 {
        assert(quarter_src(f, quarter_src(f, quarter_src(f, quarter_src(f, s)))) == s);
    } else if m == 1 {
        assert(quarter_src(f, quarter_src(f, quarter_src(f, quarter_src(f, s)))) == s);
    } else if m == 2 {
        assert(quarter_src(f, quarter_src(f, quarter_src(f, quarter_src(f, s)))) == s);
    } else {
        assert(quarter_src(f, quarter_src(f, quarter_src(f, quarter_src(f, s)))) == s);
    }
}

/// Four quarter turns of one face return every sticker name to itself.
pub proof fn lemma_quarter_src_order_four(f: Face, s: Sticker)
    requires
        is_valid(s),
    ensures
        quarter_src(f, quarter_src(f, quarter_src(f, quarter_src(f, s)))) == s,
{
    match s {
        Sticker::Center(_) => {}
        Sticker::Edge(a, y) => {
            if a == f {
                lemma_q4_edge_top(f, y);
            } else if y == f {
                lemma_q4_edge_side(f, a);
            }
        }
        Sticker::Corner(a, y, z) => {
            if a == f {
                lemma_q4_corner_top(f, y, z);
            } else if z == f {
                lemma_q4_corner_side1(f, a, y);
            } else if y == f {
                lemma_q4_corner_side2(f, a, z);
            }
        }
    }
}

#[verifier::rlimit(100)]
proof fn lemma_c4_center(f: Face, g: Face)
    requires
        is_adjacent(f, g),
    ensures
        center_src(f, center_src(f, center_src(f, center_src(f, Sticker::Center(g)))))
            == Sticker::Center(g),
{
    lemma_ring(f, g, 0);
    lemma_ring(f, f, 0);
    lemma_ring(f, f, 1);
    lemma_ring(f, f, 2);
    lemma_ring(f, f, 3);
    lemma_ring(f, f, 4);
    lemma_ring(f, f, 5);
    lemma_ring(f, f, 6);
    lemma_ring(f, f, 7);
    let s = Sticker::Center(g);
    let m = slot_of(f, g);
    if m == 0 {
        assert(center_src(f, center_src(f, center_src(f, center_src(f, s)))) == s);
    } else if m == 1 {
        assert(center_src(f, center_src(f, center_src(f, center_src(f, s)))) == s);
    } else if m == 2 {
        assert(center_src(f, center_src(f, center_src(f, center_src(f, s)))) == s);
    } else {
        assert(center_src(f, center_src(f, center_src(f, center_src(f, s)))) == s);
    }
}

#[verifier::rlimit(100)]
proof fn lemma_c4_edge(f: Face, a: Face, y: Face)
    requires
        is_adjacent(f, a),
        is_adjacent(f, y),
        is_adjacent(a, y),
    ensures
        center_src(f, center_src(f, center_src(f, center_src(f, Sticker::Edge(a, y)))))
            == Sticker::Edge(a, y),
{
    lemma_ring(f, a, 0);
    lemma_ring(f, y, 0);
    lemma_ring(f, f, 0);
    lemma_ring(f, f, 1);
    lemma_ring(f, f, 2);
    lemma_ring(f, f, 3);
    lemma_ring(f, f, 4);
    lemma_ring(f, f, 5);
    lemma_ring(f, f, 6);
    lemma_ring(f, f, 7);
    lemma_ring_opposite(f, 0);
    lemma_ring_opposite(f, 1);
    lemma_ring_opposite(f, 2);
    lemma_ring_opposite(f, 3);
    let s = Sticker::Edge(a, y);
    let m = slot_of(f, a);
    if m == 0 {
        assert(center_src(f, center_src(f, center_src(f, center_src(f, s)))) == s);
    } else if m == 1 {
        assert(center_src(f, center_src(f, center_src(f, center_src(f, s)))) == s);
    } else if m == 2 {
        assert(center_src(f, center_src(f, center_src(f, center_src(f, s)))) == s);
    } else {
        assert(center_src(f, center_src(f, center_src(f, center_src(f, s)))) == s);
    }
}

/// The center-ring permutation of one face, applied four times, returns
/// every sticker name to itself.
pub proof fn lemma_center_src_order_four(f: Face, s: Sticker)
    requires
        is_valid(s),
    ensures
        center_src(f, center_src(f, center_src(f, center_src(f, s)))) == s,
{
    match s {
        Sticker::Center(g) => {
            if is_adjacent(f, g) {
                lemma_c4_center(f, g);
            }
        }
        Sticker::Edge(a, y) => {
            if is_adjacent(f, a) && is_adjacent(f, y) {
                lemma_c4_edge(f, a, y);
            }
        }
        Sticker::Corner(_, _, _) => {}
    }
}

/// One quarter turn of a face, then three more, is the identity on the
/// whole label assignment; equally, four single quarter turns compose to
/// the identity (the order-four law of a face turn).
pub proof fn lemma_face_turn_order_four(m: Map<Sticker, Face>, f: Face)
    requires
        all_names(m),
    ensures
        face_turn_n(m, f, 4) == m,
{
    assert forall|s: Sticker| is_valid(s)
        implies face_turn_n(m, f, 4)[s] == m[s] by {
        let s1 = quarter_src(f, s);
        let s2 = quarter_src(f, s1);
        let s3 = quarter_src(f, s2);
        let s4 = quarter_src(f, s3);
        lemma_quarter_src_valid(f, s);
        lemma_quarter_src_valid(f, s1);
        lemma_quarter_src_valid(f, s2);
        lemma_quarter_src_valid(f, s3);
        lemma_quarter_src_order_four(f, s);
        assert(face_turn_n(m, f, 4)[s] == face_turn_n(m, f, 3)[s1]);
        assert(face_turn_n(m, f, 3)[s1] == face_turn_n(m, f, 2)[s2]);
        assert(face_turn_n(m, f, 2)[s2] == face_turn_n(m, f, 1)[s3]);
        assert(face_turn_n(m, f, 1)[s3] == face_turn_n(m, f, 0)[s4]);
    }
    assert(face_turn_n(m, f, 4) =~= m);
}

/// Turning a face `a` times and then `b` more times is the same as
/// turning it `a + b` times.
pub proof fn lemma_face_turn_add(m: Map<Sticker, Face>, f: Face, a: int, b: int)
    requires
        0 <= a,
        0 <= b,
    ensures
        face_turn_n(face_turn_n(m, f, a), f, b) == face_turn_n(m, f, a + b),
    decreases b,
{
    if b > 0 {
        lemma_face_turn_add(m, f, a, b - 1);
    }
}

/// The inverse law: one quarter turn of `f` followed by three quarter
/// turns of `f` restores the assignment, and so does one quarter turn
/// applied four times in a row.
pub proof fn lemma_face_turn_inverse(m: Map<Sticker, Face>, f: Face)
    requires
        all_names(m),
    ensures
        face_turn_n(face_turn_n(m, f, 1), f, 3) == m,
        face_turn_n(face_turn_n(face_turn_n(face_turn_n(m, f, 1), f, 1), f, 1), f, 1) == m,
{
    lemma_face_turn_add(m, f, 1, 3);
    lemma_face_turn_add(m, f, 1, 1);
    lemma_face_turn_add(m, f, 2, 1);
    lemma_face_turn_add(m, f, 3, 1);
    lemma_face_turn_order_four(m, f);
}


/// Whether the name `s` mentions the face `g`.
pub open spec fn mentions(g: Face, s: Sticker) -> bool {
    match s {
        Sticker::Center(a) => a == g,
        Sticker::Edge(a, b) => a == g || b == g,
        Sticker::Corner(a, b, c) => a == g || b == g || c == g,
    }
}

/// No valid name mentions both a face and its opposite: the faces of one
/// sticker position are mutually adjacent.
#[verifier::rlimit(100)]
pub proof fn lemma_no_opposite_pair(g: Face, s: Sticker)
    requires
        is_valid(s),
    ensures
        !(mentions(g, s) && mentions(spec_opposite(g), s)),
{
    lemma_opposite(g);
    match s {
        Sticker::Center(_) => {}
        Sticker::Edge(a, y) => {
            lemma_opposite(a);
        }
        Sticker::Corner(a, y, z) => {
            lemma_opposite(a);
            lemma_ring(a, z, 0);
            lemma_ring(a, a, slot_of(a, z) + 1);
            lemma_ring(a, a, slot_of(a, z) + 2);
            lemma_ring_opposite(a, slot_of(a, z));
            lemma_opposite(z);
            lemma_opposite(y);
        }
    }
}

/// A quarter turn of `g` keeps every moved name a `g`-name.
proof fn lemma_q_keeps_mention(g: Face, s: Sticker)
    requires
        is_valid(s),
        mentions(g, s),
    ensures
        mentions(g, quarter_src(g, s)),
{
}

/// Where the label shown at `s` after one whole-cube quarter
/// reorientation about `f` stood before: three quarter turns of the
/// opposite face, then the center ring, then the quarter turn of `f`.
pub open spec fn whole_src(f: Face, s: Sticker) -> Sticker {
    let b = spec_opposite(f);
    quarter_src(f, center_src(f, quarter_src(b, quarter_src(b, quarter_src(b, s)))))
}

/// The reorientation sends valid names to valid names.
pub proof fn lemma_whole_src_valid(f: Face, s: Sticker)
    requires
        is_valid(s),
    ensures
        is_valid(whole_src(f, s)),
{
    let b = spec_opposite(f);
    let t1 = quarter_src(b, s);
    let t2 = quarter_src(b, t1);
    let t3 = quarter_src(b, t2);
    let t4 = center_src(f, t3);
    lemma_quarter_src_valid(b, s);
    lemma_quarter_src_valid(b, t1);
    lemma_quarter_src_valid(b, t2);
    lemma_center_src_valid(f, t3);
    lemma_quarter_src_valid(f, t4);
}

/// Indexing the reorientation transform is indexing the source map.
pub proof fn lemma_whole_turn_points(m: Map<Sticker, Face>, f: Face, s: Sticker)
    requires
        is_valid(s),
    ensures
        whole_turn(m, f)[s] == m[whole_src(f, s)],
{
    let b = spec_opposite(f);
    let t1 = quarter_src(b, s);
    let t2 = quarter_src(b, t1);
    let t3 = quarter_src(b, t2);
    let t4 = center_src(f, t3);
    lemma_quarter_src_valid(b, s);
    lemma_quarter_src_valid(b, t1);
    lemma_quarter_src_valid(b, t2);
    lemma_center_src_valid(f, t3);
}

/// On a name of the turned face's own layer, a reorientation acts as the
/// plain quarter turn of `f`.
#[verifier::rlimit(100)]
proof fn lemma_whole_on_f_name(f: Face, s: Sticker)
    requires
        is_valid(s),
        mentions(f, s),
    ensures
        whole_src(f, s) == quarter_src(f, s),
        is_valid(quarter_src(f, s)),
        mentions(f, quarter_src(f, s)),
{
    lemma_opposite(f);
    lemma_no_opposite_pair(f, s);
    lemma_quarter_src_valid(f, s);
    lemma_q_keeps_mention(f, s);
}

/// On a name of the opposite face's layer, a reorientation acts as the
/// three quarter turns of that face.
#[verifier::rlimit(100)]
proof fn lemma_whole_on_opposite_name(f: Face, s: Sticker)
    requires
        is_valid(s),
        mentions(spec_opposite(f), s),
    ensures
        whole_src(f, s) == quarter_src(
            spec_opposite(f),
            quarter_src(spec_opposite(f), quarter_src(spec_opposite(f), s)),
        ),
        is_valid(whole_src(f, s)),
        mentions(spec_opposite(f), whole_src(f, s)),
{
    let b = spec_opposite(f);
    lemma_opposite(f);
    let t1 = quarter_src(b, s);
    let t2 = quarter_src(b, t1);
    let t3 = quarter_src(b, t2);
    lemma_quarter_src_valid(b, s);
    lemma_quarter_src_valid(b, t1);
    lemma_quarter_src_valid(b, t2);
    lemma_q_keeps_mention(b, s);
    lemma_q_keeps_mention(b, t1);
    lemma_q_keeps_mention(b, t2);
    lemma_no_opposite_pair(b, t3);
}

/// On an equatorial name, a reorientation acts as the center-ring
/// permutation of `f`.
#[verifier::rlimit(100)]
proof fn lemma_whole_on_equator_name(f: Face, s: Sticker)
    requires
        is_valid(s),
        !mentions(f, s),
        !mentions(spec_opposite(f), s),
    ensures
        whole_src(f, s) == center_src(f, s),
        is_valid(center_src(f, s)),
        !mentions(f, center_src(f, s)),
        !mentions(spec_opposite(f), center_src(f, s)),
{
    lemma_opposite(f);
    lemma_center_src_valid(f, s);
    match s {
        Sticker::Center(g) => {
            if is_adjacent(f, g) {
                lemma_ring(f, g, 0);
                lemma_ring(f, f, slot_of(f, g) + 1);
            }
        }
        Sticker::Edge(a, y) => {
            if is_adjacent(f, a) && is_adjacent(f, y) {
                lemma_ring(f, a, 0);
                lemma_ring(f, f, slot_of(f, a) + 1);
                lemma_ring(f, y, 0);
                lemma_ring(f, f, slot_of(f, y) + 1);
            }
        }
        Sticker::Corner(_, _, _) => {}
    }
}

/// Four quarter reorientations about one axis return every sticker name
/// to itself.
#[verifier::rlimit(100)]
pub proof fn lemma_whole_src_order_four(f: Face, s: Sticker)
    requires
        is_valid(s),
    ensures
        whole_src(f, whole_src(f, whole_src(f, whole_src(f, s)))) == s,
{
    let b = spec_opposite(f);
    lemma_opposite(f);
    if mentions(f, s) {
        let s1 = quarter_src(f, s);
        let s2 = quarter_src(f, s1);
        let s3 = quarter_src(f, s2);
        lemma_whole_on_f_name(f, s);
        lemma_whole_on_f_name(f, s1);
        lemma_whole_on_f_name(f, s2);
        lemma_whole_on_f_name(f, s3);
        lemma_quarter_src_order_four(f, s);
    } else if mentions(b, s) {
        let e1 = quarter_src(b, s);
        let e2 = quarter_src(b, e1);
        let e3 = quarter_src(b, e2);
        lemma_quarter_src_valid(b, s);
        lemma_quarter_src_valid(b, e1);
        lemma_quarter_src_valid(b, e2);
        lemma_quarter_src_valid(b, e3);
        lemma_q_keeps_mention(b, s);
        lemma_q_keeps_mention(b, e1);
        lemma_q_keeps_mention(b, e2);
        lemma_q_keeps_mention(b, e3);
        lemma_quarter_src_order_four(b, s);
        lemma_whole_on_opposite_name(f, s);
        assert(whole_src(f, s) == e3);
        lemma_whole_on_opposite_name(f, e3);
        assert(whole_src(f, e3) == e2);
        lemma_whole_on_opposite_name(f, e2);
        assert(whole_src(f, e2) == e1);
        lemma_whole_on_opposite_name(f, e1);
        assert(whole_src(f, e1) == s);
    } else {
        let s1 = center_src(f, s);
        let s2 = center_src(f, s1);
        let s3 = center_src(f, s2);
        lemma_whole_on_equator_name(f, s);
        lemma_whole_on_equator_name(f, s1);
        lemma_whole_on_equator_name(f, s2);
        lemma_whole_on_equator_name(f, s3);
        lemma_center_src_order_four(f, s);
    }
}

/// Four quarter reorientations of the whole cube about one axis restore
/// the entire label assignment (the order-four law of a reorientation,
/// built from turns of order dividing four).
pub proof fn lemma_cube_reorientation_order_four(m: Map<Sticker, Face>, f: Face)
    requires
        all_names(m),
    ensures
        cube_turn_n(m, f, 4) == m,
{
    assert forall|s: Sticker| is_valid(s)
        implies cube_turn_n(m, f, 4)[s] == m[s] by {
        let s1 = whole_src(f, s);
        let s2 = whole_src(f, s1);
        let s3 = whole_src(f, s2);
        lemma_whole_src_valid(f, s);
        lemma_whole_src_valid(f, s1);
        lemma_whole_src_valid(f, s2);
        lemma_whole_src_valid(f, s3);
        lemma_whole_turn_points(cube_turn_n(m, f, 3), f, s);
        lemma_whole_turn_points(cube_turn_n(m, f, 2), f, s1);
        lemma_whole_turn_points(cube_turn_n(m, f, 1), f, s2);
        lemma_whole_turn_points(cube_turn_n(m, f, 0), f, s3);
        lemma_whole_src_order_four(f, s);
    }
    assert(cube_turn_n(m, f, 4) =~= m);
}



/// The frame of a face turn: a name that does not mention the turned
/// face keeps its label; in particular no center ever moves under a
/// face turn.
pub proof fn lemma_face_turn_frame(f: Face, s: Sticker)
    requires
        is_valid(s),
        !mentions(f, s),
    ensures
        quarter_src(f, s) == s,
{
}

/// The other name of the same physical edge piece: the one written from
/// its second face.
pub open spec fn edge_mate(s: Sticker) -> Sticker {
    match s {
        Sticker::Edge(a, b) => Sticker::Edge(b, a),
        _ => s,
    }
}

/// The next name of the same physical corner piece, one face around.
pub open spec fn corner_mate(s: Sticker) -> Sticker {
    match s {
        Sticker::Corner(a, b, c) => Sticker::Corner(b, c, a),
        _ => s,
    }
}

/// The mates of a valid name are valid: the naming covers each physical
/// piece once from every face it shows.
#[verifier::rlimit(100)]
pub proof fn lemma_mates_valid(s: Sticker)
    requires
        is_valid(s),
    ensures
        is_valid(edge_mate(s)),
        is_valid(corner_mate(s)),
{
    match s {
        Sticker::Center(_) => {}
        Sticker::Edge(a, y) => {
            lemma_adjacent_sym(a, y);
        }
        Sticker::Corner(a, y, z) => {
            lemma_ring(a, z, 0);
            lemma_ring(a, a, slot_of(a, z) + 1);
            lemma_adjacent_sym(a, y);
            lemma_ring_coherence(a, y);
        }
    }
}

/// The names of one physical piece move as a rigid unit: a quarter turn
/// sends the mate of a name to the mate of that name's source, so the two
/// names of an edge and the three names of a corner always carry the
/// labels of one coherent piece.  The center-ring permutation does the
/// same.
pub proof fn lemma_turn_moves_pieces_rigidly(f: Face, s: Sticker)
    requires
        is_valid(s),
    ensures
        s is Edge ==> quarter_src(f, edge_mate(s)) == edge_mate(quarter_src(f, s)),
        s is Corner ==> quarter_src(f, corner_mate(s)) == corner_mate(quarter_src(f, s)),
        s is Edge ==> center_src(f, edge_mate(s)) == edge_mate(center_src(f, s)),
{
    match s {
        Sticker::Center(_) => {}
        Sticker::Edge(_, _) => {
            lemma_rigid_edge_quarter(f, s);
            lemma_rigid_edge_center(f, s);
        }
        Sticker::Corner(_, _, _) => {
            lemma_rigid_corner_quarter(f, s);
        }
    }
}

#[verifier::rlimit(100)]
proof fn lemma_rigid_edge_quarter(f: Face, s: Sticker)
    requires
        is_valid(s),
        s is Edge,
    ensures
        quarter_src(f, edge_mate(s)) == edge_mate(quarter_src(f, s)),
{
    lemma_mates_valid(s);
}

#[verifier::rlimit(100)]
proof fn lemma_rigid_corner_quarter(f: Face, s: Sticker)
    requires
        is_valid(s),
        s is Corner,
    ensures
        quarter_src(f, corner_mate(s)) == corner_mate(quarter_src(f, s)),
{
    lemma_mates_valid(s);
}

#[verifier::rlimit(100)]
proof fn lemma_rigid_edge_center(f: Face, s: Sticker)
    requires
        is_valid(s),
        s is Edge,
    ensures
        center_src(f, edge_mate(s)) == edge_mate(center_src(f, s)),
{
    lemma_mates_valid(s);
    match s {
        Sticker::Edge(a, y) => {
            if is_adjacent(f, a) && is_adjacent(f, y) {
                lemma_ring(f, a, 0);
                lemma_ring(f, y, 0);
                lemma_ring_opposite(f, slot_of(f, a));
                lemma_ring_opposite(f, slot_of(f, a) + 1);
                lemma_ring_opposite(f, slot_of(f, a) + 2);
                lemma_ring_opposite(f, slot_of(f, a) + 3);
            }
        }
        _ => {}
    }
}

} // verus!
