use protostar::hex::Hex;

#[test]
fn test_hex_construction_and_arithmetic() {
    let h = Hex::new(1, -2, 1);
    assert_eq!(h, Hex::new(1, -2, 1));
    assert_eq!(h.scale(3), Hex::new(3, -6, 3));
    assert_eq!(h.add(Hex::new(-1, 2, -1)), Hex::new(0, 0, 0));
}

#[test]
fn test_hex_neighbors() {
    let center = Hex::new(0, 0, 0);
    assert_eq!(center.neighbor(0), Hex::new(1, 0, -1));
    assert_eq!(center.neighbor(1), Hex::new(1, -1, 0));
    assert_eq!(center.neighbor(2), Hex::new(0, -1, 1));
    assert_eq!(center.neighbor(3), Hex::new(-1, 0, 1));
    assert_eq!(center.neighbor(4), Hex::new(-1, 1, 0));
    assert_eq!(center.neighbor(5), Hex::new(0, 1, -1));
}

#[test]
fn test_hex_spiral_first_rings() {
    assert_eq!(Hex::spiral(0), Hex::new(0, 0, 0));
    // Ring one starts above-left of the center and walks the six sides.
    assert_eq!(Hex::spiral(1), Hex::new(-1, 1, 0));
    assert_eq!(Hex::spiral(2), Hex::new(0, 1, -1));
    assert_eq!(Hex::spiral(3), Hex::new(1, 0, -1));
    assert_eq!(Hex::spiral(4), Hex::new(1, -1, 0));
    assert_eq!(Hex::spiral(5), Hex::new(0, -1, 1));
    assert_eq!(Hex::spiral(6), Hex::new(-1, 0, 1));
    // Ring two begins one step farther out.
    assert_eq!(Hex::spiral(7), Hex::new(-2, 2, 0));
    assert_eq!(Hex::spiral(8), Hex::new(-1, 2, -1));
    assert_eq!(Hex::spiral(18), Hex::new(-2, 1, 1));
    // Ring three.
    assert_eq!(Hex::spiral(19), Hex::new(-3, 3, 0));
}
