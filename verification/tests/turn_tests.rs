use twisty::cube::Cube;
use twisty::face::Face;
use twisty::sticker::Sticker;

const FACES: [Face; 6] = [Face::U, Face::D, Face::L, Face::R, Face::F, Face::B];

/// The snapshot of a solved cube, then after one quarter turn of `r`,
/// both in position-index order (hand-traced from the turn algorithm).
fn solved() -> Vec<Face> {
    Cube::new().snapshot()
}

#[test]
fn raw_turn_of_r_moves_exactly_twelve_labels() {
    let mut c = Cube::new();
    c.turn_raw(Face::R);
    let changed = [
        (Sticker::Edge(Face::U, Face::R), Face::F),
        (Sticker::Edge(Face::F, Face::R), Face::D),
        (Sticker::Edge(Face::D, Face::R), Face::B),
        (Sticker::Edge(Face::B, Face::R), Face::U),
        (Sticker::Corner(Face::U, Face::B, Face::R), Face::F),
        (Sticker::Corner(Face::F, Face::U, Face::R), Face::D),
        (Sticker::Corner(Face::D, Face::F, Face::R), Face::B),
        (Sticker::Corner(Face::B, Face::D, Face::R), Face::U),
        (Sticker::Corner(Face::U, Face::R, Face::F), Face::F),
        (Sticker::Corner(Face::F, Face::R, Face::D), Face::D),
        (Sticker::Corner(Face::D, Face::R, Face::B), Face::B),
        (Sticker::Corner(Face::B, Face::R, Face::U), Face::U),
    ];
    for &(s, want) in changed.iter() {
        assert_eq!(c.label(s), want);
    }
    // every other name, the nine r-face names and all centers included,
    // still shows its owner
    let fresh = Cube::new();
    let mut moved = 0;
    for &f in FACES.iter() {
        let mut check = |s: Sticker| {
            if c.label(s) != fresh.label(s) {
                moved += 1;
            }
        };
        check(Sticker::Center(f));
        for n in 0..4 {
            check(Sticker::Edge(f, f.adjacent(n)));
            check(Sticker::Corner(f, f.adjacent((n + 1) % 4), f.adjacent(n)));
        }
    }
    assert_eq!(moved, 12);
}

#[test]
fn turn_of_r_matches_reference_snapshot() {
    let mut c = Cube::new();
    c.turn(Face::R, 1);
    let expected: Vec<Face> = vec![
        Face::U, Face::D, Face::L, Face::R, Face::F, Face::B, Face::U, Face::U, Face::U,
        Face::F, Face::B, Face::D, Face::D, Face::D, Face::L, Face::L, Face::L, Face::L,
        Face::R, Face::R, Face::R, Face::R, Face::F, Face::F, Face::F, Face::D, Face::U,
        Face::B, Face::B, Face::B, Face::U, Face::U, Face::F, Face::F, Face::B, Face::D,
        Face::D, Face::B, Face::L, Face::L, Face::L, Face::L, Face::R, Face::R, Face::R,
        Face::R, Face::F, Face::F, Face::D, Face::D, Face::U, Face::B, Face::B, Face::U,
    ];
    assert_eq!(c.snapshot(), expected);
}

#[test]
fn four_quarter_turns_are_the_identity() {
    for &f in FACES.iter() {
        let mut c = Cube::new();
        c.turn(f, 4);
        assert_eq!(c.snapshot(), solved());
    }
}

#[test]
fn one_turn_then_three_is_the_identity() {
    for &f in FACES.iter() {
        let mut c = Cube::new();
        c.turn(f, 1);
        c.turn(f, 3);
        assert_eq!(c.snapshot(), solved());
        let mut d = Cube::new();
        d.turn(f, 1);
        d.turn(f, 1);
        d.turn(f, 1);
        d.turn(f, 1);
        assert_eq!(d.snapshot(), solved());
    }
}

#[test]
fn four_reorientations_are_the_identity() {
    for &f in FACES.iter() {
        let mut c = Cube::new();
        c.turn_all(f, 4);
        assert_eq!(c.snapshot(), solved());
    }
}

#[test]
fn r_turn_then_u_reorientation_matches_reference_snapshot() {
    let mut c = Cube::new();
    c.apply_face_turn(Face::R, 1);
    c.apply_cube_reorientation(Face::U, 1);
    let expected: Vec<Face> = vec![
        Face::U, Face::D, Face::F, Face::B, Face::R, Face::L, Face::U, Face::U, Face::F,
        Face::U, Face::D, Face::B, Face::D, Face::D, Face::F, Face::F, Face::D, Face::F,
        Face::B, Face::U, Face::B, Face::B, Face::R, Face::R, Face::R, Face::R, Face::L,
        Face::L, Face::L, Face::L, Face::U, Face::F, Face::F, Face::U, Face::B, Face::B,
        Face::D, Face::D, Face::F, Face::D, Face::D, Face::F, Face::U, Face::U, Face::B,
        Face::B, Face::R, Face::R, Face::R, Face::R, Face::L, Face::L, Face::L, Face::L,
    ];
    assert_eq!(c.snapshot(), expected);
}

#[test]
fn zero_or_negative_counts_change_nothing() {
    let mut c = Cube::new();
    c.turn(Face::F, 1);
    let before = c.snapshot();
    c.turn(Face::U, 0);
    c.turn(Face::L, -3);
    c.turn_all(Face::B, 0);
    assert_eq!(c.snapshot(), before);
}

#[test]
fn colour_counts_stay_nine_under_any_turns() {
    let mut c = Cube::new();
    c.turn(Face::R, 1);
    c.turn_all(Face::U, 2);
    c.turn(Face::B, 3);
    c.turn_raw_center(Face::L);
    let snap = c.snapshot();
    for &f in FACES.iter() {
        assert_eq!(snap.iter().filter(|&&x| x == f).count(), 9);
    }
}

#[test]
fn reset_after_turns_restores_the_solved_snapshot() {
    let mut c = Cube::new();
    c.turn(Face::R, 1);
    c.turn_all(Face::F, 3);
    c.turn(Face::D, 2);
    c.reset();
    assert_eq!(c.snapshot(), solved());
}
