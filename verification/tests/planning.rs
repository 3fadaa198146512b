use image2multires::planning::plan;
use image2multires::TilingError;

#[test]
fn plan_known_pair() {
    // base = min(5184, 3456) = 3456, tile 254:
    // 254 * 2^4 = 4064 is the first doubling past 3456, so 4 + 1 = 5 levels;
    // round(3456 / 2^3) = 432 != 254, so no decrement.
    let p = plan(5184, 3456, 254).unwrap();
    assert_eq!(p.tile_size, 254);
    assert_eq!(p.base_width, 5184);
    assert_eq!(p.base_height, 3456);
    assert_eq!(p.level_count, 5);
}

#[test]
fn plan_edge_case_decrement() {
    // base 1025, tile 256: ceil(log2(1025/256)) + 1 = 4 levels at first,
    // but round(1025 / 2^2) = 256 equals the tile size, so one level drops.
    let p = plan(1025, 1025, 256).unwrap();
    assert_eq!(p.level_count, 3);
}

#[test]
fn plan_no_decrement_on_exact_power() {
    // base 1024 = 256 * 2^2: round(1024 / 2) = 512 != 256, keeps 3 levels.
    let p = plan(1024, 1024, 256).unwrap();
    assert_eq!(p.level_count, 3);
}

#[test]
fn plan_two_levels_for_double() {
    let p = plan(1024, 1024, 512).unwrap();
    assert_eq!(p.level_count, 2);
}

#[test]
fn plan_clamps_tile_size_to_base() {
    // A request larger than the governing base clamps down to the base,
    // which leaves no room for a second level: a planning error.
    let r = plan(5184, 3456, 9999);
    assert!(matches!(r, Err(TilingError::PlanningError(_))));
}

#[test]
fn plan_degenerate_equal_sizes() {
    let r = plan(512, 512, 512);
    assert!(matches!(r, Err(TilingError::PlanningError(_))));
}

#[test]
fn plan_degenerate_zero_tile() {
    let r = plan(100, 100, 0);
    assert!(matches!(r, Err(TilingError::PlanningError(_))));
}

#[test]
fn plan_base_is_smaller_dimension() {
    // base = min(300, 400) = 300 == tile: degenerate.
    let r = plan(300, 400, 300);
    assert!(matches!(r, Err(TilingError::PlanningError(_))));
}

#[test]
fn plan_iterative_halving_differs_from_fresh_ratio() {
    // 1000 halves to 500, 250, 125, 62: floor(1000 / 2^4) = 62, not the
    // rounded ratio 63 a fresh division would give. For the power of two
    // 1024 the two agree: 1024 / 2^4 = 64 exactly.
    let p = plan(1000, 1000, 63).unwrap();
    assert_eq!(p.level_count, 5);
    let mut dim: u32 = 1000;
    for _ in 0..4 {
        dim /= 2;
    }
    assert_eq!(dim, 62);
    assert_eq!(1000 / (1 << 4), 62);
    assert_ne!((1000.0f64 / 16.0).round() as u32, dim);
}
