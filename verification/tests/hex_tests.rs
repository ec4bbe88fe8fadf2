use hexwar::hex::{Hex, WorldPos};

#[test]
fn new_and_accessors() {
    let h = Hex::new(3, -2);
    assert_eq!(h.q(), 3);
    assert_eq!(h.r(), -2);
}

#[test]
fn cube_round_trip() {
    let h = Hex::new(4, -7);
    let (x, y, z) = h.to_cube();
    assert_eq!(x, 4);
    assert_eq!(z, -7);
    assert_eq!(x + y + z, 0);
    let back = Hex::from_cube(x, y, z);
    assert_eq!(back.q(), x);
    assert_eq!(back.r(), y);
}

#[test]
fn neighbors_ring() {
    let h = Hex::new(0, 0);
    let ns = h.neighbors();
    assert_eq!(ns.len(), 6);
    let expected = [(1, -1), (1, 0), (0, 1), (-1, 1), (-1, 0), (0, -1)];
    for (i, (dq, dr)) in expected.iter().enumerate() {
        assert_eq!(ns[i], Hex::new(*dq, *dr));
        assert_eq!(h.distance(&ns[i]), 1);
    }
    assert_eq!(h.neighbor(7), Hex::new(1, 0));
}

#[test]
fn distance_symmetry_examples() {
    let pairs = [
        (Hex::new(0, 0), Hex::new(3, -1)),
        (Hex::new(-5, 2), Hex::new(4, 4)),
        (Hex::new(10, -10), Hex::new(-7, 3)),
    ];
    for (a, b) in pairs {
        assert_eq!(a.distance(&b), b.distance(&a));
        assert_eq!(a.distance(&a), 0);
        assert_eq!(b.distance(&b), 0);
    }
}

#[test]
fn distance_values() {
    let o = Hex::new(0, 0);
    assert_eq!(o.distance(&Hex::new(2, 0)), 2);
    assert_eq!(o.distance(&Hex::new(1, 1)), 2);
    assert_eq!(o.distance(&Hex::new(-3, 3)), 3);
    assert_eq!(o.distance(&Hex::new(2, -1)), 2);
}

#[test]
fn world_round_trip() {
    for size in [1i64, 7, 32, 1000] {
        for (q, r) in [(0, 0), (1, 0), (0, 1), (-4, 9), (250, -33), (-1000, -1000)] {
            let h = Hex::new(q, r);
            let p = h.axial_to_world(size);
            let back = Hex::world_to_axial(p, size);
            assert_eq!(back, h);
        }
    }
}

#[test]
fn world_to_axial_rounds_to_nearest() {
    // a point slightly off the center of hex (2, 1) still maps to it
    let size = 100i64;
    let center = Hex::new(2, 1).axial_to_world(size);
    let nudged = WorldPos { x: center.x + 20, y: center.y + 20 };
    assert_eq!(Hex::world_to_axial(nudged, size), Hex::new(2, 1));
}

#[test]
fn keys_distinguish_hexes() {
    let hexes = [
        Hex::new(0, 0),
        Hex::new(0, 1),
        Hex::new(1, 0),
        Hex::new(-1, 0),
        Hex::new(0, -1),
        Hex::new(i32::MAX, i32::MIN),
    ];
    for i in 0..hexes.len() {
        for j in 0..hexes.len() {
            assert_eq!(hexes[i].key() == hexes[j].key(), i == j);
        }
    }
}
