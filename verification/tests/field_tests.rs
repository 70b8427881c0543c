use marching_squares::field::Field;

#[test]
fn get_defaults_to_zero() {
    let f = Field::new();
    assert_eq!(f.get(0, 0), 0);
    assert_eq!(f.get(-17, 42), 0);
}

#[test]
fn set_then_get_returns_value() {
    let mut f = Field::new();
    f.set(3, -2, 7);
    assert_eq!(f.get(3, -2), 7);
    assert_eq!(f.get(-2, 3), 0);
}

#[test]
fn set_overwrites() {
    let mut f = Field::new();
    f.set(1, 1, 5);
    f.set(1, 1, -9);
    assert_eq!(f.get(1, 1), -9);
}

#[test]
fn sample_matches_get_and_is_zero_off_lattice() {
    let mut f = Field::new();
    f.set(2, 2, 11);
    assert_eq!(f.sample(2, 2), 11);
    assert_eq!(f.sample(5, 5), 0);
    assert_eq!(f.sample(0x1_0000_0000, 0), 0);
    assert_eq!(f.sample(0, -0x1_0000_0000), 0);
}

#[test]
fn bounds_start_degenerate_at_origin() {
    let f = Field::new();
    assert_eq!(f.bounds(), (0, 0, 0, 0));
}

#[test]
fn bounds_grow_to_componentwise_extrema() {
    let mut f = Field::new();
    f.set(3, 7, 1);
    f.set(-2, 1, 1);
    f.set(3, 7, 1);
    f.set(0, -4, 1);
    assert_eq!(f.bounds(), (-2, -4, 3, 7));
}

#[test]
fn bounds_always_cover_origin() {
    let mut f = Field::new();
    f.set(5, 6, 1);
    assert_eq!(f.bounds(), (0, 0, 5, 6));
}

#[test]
fn bounds_ignore_call_order_and_repeats() {
    let mut f1 = Field::new();
    f1.set(4, -1, 1);
    f1.set(-3, 2, 1);
    f1.set(4, -1, 1);

    let mut f2 = Field::new();
    f2.set(-3, 2, 9);
    f2.set(4, -1, 9);

    assert_eq!(f1.bounds(), f2.bounds());
}

#[test]
fn bounds_never_shrink() {
    let mut f = Field::new();
    f.set(10, 10, 1);
    f.set(10, 10, 0);
    f.set(1, 1, 0);
    assert_eq!(f.bounds(), (0, 0, 10, 10));
}
