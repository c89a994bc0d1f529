use lightray::ray::build_ray;
use lightray::ray::emit_ray;
use lightray::ray::ray_cells;
use lightray::ray::ray_color_index;
use lightray::ray::ray_depth;
use lightray::ray::rotation_quarters;
use lightray::ray::Dir;
use lightray::ray::GameState;
use lightray::ray::RayCaster;

#[test]
fn builder_normalizes_endpoints() {
    let cases = [
        (7, 5, 2, 5),
        (2, 5, 7, 5),
        (3, 9, 3, 1),
        (3, 1, 3, 9),
        (4, 4, 4, 4),
        (-3, 2, 5, -8),
        (10, -1, -10, 7),
    ];
    for &(sx, sy, dx, dy) in cases.iter() {
        let r = build_ray(sx, sy, dx, dy, 0);
        assert!(r.src_x <= r.dest_x);
        assert!(r.src_y <= r.dest_y);
    }
}

#[test]
fn horizontal_from_original_endpoints() {
    let r = build_ray(2, 5, 7, 5, 0);
    assert!(r.horizontal);
    let swapped = build_ray(7, 5, 2, 5, 0);
    assert!(swapped.horizontal);
    let vertical = build_ray(3, 1, 3, 9, 0);
    assert!(!vertical.horizontal);
}

#[test]
fn builder_example_swap() {
    // An x swap normalizes the endpoints and clears the initial
    // `reversed` default exactly once.
    let r = build_ray(7, 5, 2, 5, 0);
    assert_eq!(r.src_x, 2);
    assert_eq!(r.src_y, 5);
    assert_eq!(r.dest_x, 7);
    assert_eq!(r.dest_y, 5);
    assert!(r.horizontal);
    assert!(!r.reversed);
    assert_eq!(r.prio, 0);
}

#[test]
fn builder_reversed_convention() {
    // Already-ordered x and descending-or-equal y keep the initial `true`.
    let r = build_ray(2, 5, 7, 5, 0);
    assert!(r.reversed);
    let equal = build_ray(4, 4, 4, 4, 1);
    assert!(equal.reversed);
    // An ascending y pair clears it.
    let down = build_ray(3, 1, 3, 9, 0);
    assert!(!down.reversed);
    let up = build_ray(3, 9, 3, 1, 0);
    assert!(up.reversed);
}

#[test]
fn builder_idempotent() {
    let cases = [(7, 5, 2, 5, 0), (-3, 2, 5, -8, 42), (0, 0, 0, 0, -1)];
    for &(sx, sy, dx, dy, p) in cases.iter() {
        let r1 = build_ray(sx, sy, dx, dy, p);
        let r2 = build_ray(sx, sy, dx, dy, p);
        assert_eq!(r1, r2);
    }
}

#[test]
fn rotation_quarter_turns() {
    assert_eq!(rotation_quarters(true, true), 0);
    assert_eq!(rotation_quarters(false, true), 2);
    assert_eq!(rotation_quarters(true, false), 1);
    assert_eq!(rotation_quarters(false, false), 3);
}

#[test]
fn depth_from_priority() {
    assert_eq!(ray_depth(0), 99);
    assert_eq!(ray_depth(3), 96);
    assert_eq!(ray_depth(-5), 104);
    assert_eq!(ray_depth(i32::MIN), 99 + 2147483648i64);
}

#[test]
fn color_index_wraps() {
    assert_eq!(ray_color_index(0), 0);
    assert_eq!(ray_color_index(1), 1);
    assert_eq!(ray_color_index(5), 1);
    assert_eq!(ray_color_index(-1), 3);
    assert_eq!(ray_color_index(-8), 0);
}

#[test]
fn cells_of_horizontal_ray() {
    let r = build_ray(1, 0, 0, 0, 0);
    let cells = ray_cells(&r);
    assert_eq!(cells, vec![(0, 0), (1, 0)]);
}

#[test]
fn cells_of_vertical_ray() {
    let r = build_ray(2, 1, 2, 3, 0);
    let cells = ray_cells(&r);
    assert_eq!(cells, vec![(2, 1), (2, 2), (2, 3)]);
}

#[test]
fn cells_scan_column_major() {
    let r = build_ray(0, 0, 1, 1, 0);
    let cells = ray_cells(&r);
    assert_eq!(cells, vec![(0, 0), (0, 1), (1, 0), (1, 1)]);
}

#[test]
fn emitter_click_spawns_upwards_only() {
    let mut state = GameState { ray_count: 7 };
    let caster = RayCaster { dir: Dir::Upwards, pos_x: 3, pos_y: 8 };
    let ray = emit_ray(&caster, &mut state).expect("an upward emitter spawns a ray");
    assert_eq!(state.ray_count, 8);
    assert_eq!(ray.prio, 7);
    assert!(!ray.horizontal);
    assert_eq!(ray.src_x, 3);
    assert_eq!(ray.dest_x, 3);
    assert_eq!(ray.src_y, -16);
    assert_eq!(ray.dest_y, 8);
    assert!(ray.reversed);

    let idle = RayCaster { dir: Dir::Downwards, pos_x: 3, pos_y: 8 };
    assert!(emit_ray(&idle, &mut state).is_none());
    assert_eq!(state.ray_count, 9);
}

#[test]
fn fresh_state_has_no_rays() {
    let state = GameState::default();
    assert_eq!(state.ray_count, 0);
}
