use twisty::cube::Cube;
use twisty::face::Face;
use twisty::sticker::Sticker;

const FACES: [Face; 6] = [Face::U, Face::D, Face::L, Face::R, Face::F, Face::B];

fn all_names() -> Vec<Sticker> {
    let mut v = Vec::new();
    for &f in FACES.iter() {
        v.push(Sticker::Center(f));
    }
    for &f in FACES.iter() {
        for n in 0..4 {
            v.push(Sticker::Edge(f, f.adjacent(n)));
        }
    }
    for &f in FACES.iter() {
        for n in 0..4 {
            v.push(Sticker::Corner(f, f.adjacent((n + 1) % 4), f.adjacent(n)));
        }
    }
    v
}

#[test]
fn initialize_yields_54_labels() {
    assert_eq!(Cube::initialize_stickers().len(), 54);
}

#[test]
fn naming_is_collision_free() {
    let names = all_names();
    assert_eq!(names.len(), 54);
    let mut seen = [false; 54];
    for s in names {
        let p = s.position();
        assert!(!seen[p], "two names at one position");
        seen[p] = true;
    }
    assert!(seen.iter().all(|&b| b));
}

#[test]
fn solved_cube_shows_owner_everywhere() {
    let c = Cube::new();
    for s in all_names() {
        let expected = match s {
            Sticker::Center(f) => f,
            Sticker::Edge(f, _) => f,
            Sticker::Corner(f, _, _) => f,
        };
        assert_eq!(c.label(s), expected);
    }
}

#[test]
fn solved_cube_has_nine_of_each_colour() {
    let c = Cube::new();
    let snap = c.snapshot();
    assert_eq!(snap.len(), 54);
    for &f in FACES.iter() {
        assert_eq!(snap.iter().filter(|&&x| x == f).count(), 9);
    }
}

#[test]
fn reset_restores_solved_snapshot() {
    let mut c = Cube::new();
    c.reset();
    assert_eq!(c.snapshot(), Cube::new().snapshot());
}

#[test]
fn adjacency_is_counter_clockwise_rings() {
    assert_eq!(Face::F.adjacent(0), Face::U);
    assert_eq!(Face::F.adjacent(1), Face::L);
    assert_eq!(Face::F.adjacent(2), Face::D);
    assert_eq!(Face::F.adjacent(3), Face::R);
    assert_eq!(Face::U.opposite(), Face::D);
    assert_eq!(Face::L.opposite(), Face::R);
    assert_eq!(Face::B.opposite(), Face::F);
}
