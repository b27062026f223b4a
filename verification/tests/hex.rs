use hexalon::hex::{FractionalHexCoord, HexCoord};

#[test]
fn distance_is_symmetric_and_zero_on_self() {
    let a = HexCoord { q: 1, r: 2 };
    let b = HexCoord { q: 3, r: -1 };
    assert_eq!(a.distance(&b), b.distance(&a));
    assert_eq!(a.distance(&a), 0);
    assert_eq!(b.distance(&b), 0);
}

#[test]
fn distance_exact_values() {
    let origin = HexCoord { q: 0, r: 0 };
    assert_eq!(origin.distance(&HexCoord { q: 3, r: 0 }), 3);
    assert_eq!(origin.distance(&HexCoord { q: 1, r: -1 }), 1);
    assert_eq!(origin.distance(&HexCoord { q: 2, r: -1 }), 2);
    assert_eq!(origin.distance(&HexCoord { q: -2, r: -2 }), 4);
}

#[test]
fn round_of_exact_lattice_point_is_identity() {
    let c = HexCoord::round(FractionalHexCoord { q_num: 2 * 4, r_num: -3 * 4, den: 4 });
    assert_eq!(c, HexCoord { q: 2, r: -3 });
    let o = HexCoord::round(FractionalHexCoord { q_num: 0, r_num: 0, den: 7 });
    assert_eq!(o, HexCoord { q: 0, r: 0 });
}

#[test]
fn round_on_half_boundary_picks_adjacent_cell() {
    // (q, r) = (1/2, 0): exactly between (0,0) and (1,0).
    let c = HexCoord::round(FractionalHexCoord { q_num: 1, r_num: 0, den: 2 });
    assert!(c == HexCoord { q: 0, r: 0 } || c == HexCoord { q: 1, r: 0 });
    // (q, r) = (0, -1/2): exactly between (0,0) and (0,-1).
    let d = HexCoord::round(FractionalHexCoord { q_num: 0, r_num: -1, den: 2 });
    assert!(d == HexCoord { q: 0, r: 0 } || d == HexCoord { q: 0, r: -1 });
}

#[test]
fn lerp_hits_both_endpoints() {
    let a = HexCoord { q: -2, r: 5 };
    let b = HexCoord { q: 4, r: -3 };
    let n = a.distance(&b) as i64;
    assert_eq!(HexCoord::lerp(&a, &b, 0, n), a);
    assert_eq!(HexCoord::lerp(&a, &b, n, n), b);
}

#[test]
fn add_and_sub_are_componentwise() {
    let a = HexCoord { q: 2, r: -7 };
    let b = HexCoord { q: -5, r: 3 };
    assert_eq!(a.add(&b), HexCoord { q: -3, r: -4 });
    assert_eq!(a.sub(&b), HexCoord { q: 7, r: -10 });
}
