use raytracer::tracer::bounces;
use raytracer::tracer::cut_off;
use raytracer::tracer::Bounces;
use raytracer::tracer::MAX_DEPTH;

#[test]
fn the_depth_bound_is_five() {
    assert_eq!(MAX_DEPTH, 5);
}

#[test]
fn a_ray_is_traced_up_to_the_depth_bound() {
    for depth in 0..=MAX_DEPTH {
        assert!(!cut_off(depth, MAX_DEPTH));
    }
}

#[test]
fn a_ray_one_deeper_than_the_bound_is_cut_off() {
    assert!(cut_off(MAX_DEPTH + 1, MAX_DEPTH));
    assert!(cut_off(255, MAX_DEPTH));
    assert!(cut_off(1, 0));
    assert!(!cut_off(0, 0));
}

#[test]
fn a_dull_surface_sends_no_ray_on() {
    assert_eq!(bounces(0, MAX_DEPTH, false, false), Bounces { reflect: None, refract: None });
}

#[test]
fn a_mirror_sends_one_ray_a_level_deeper() {
    assert_eq!(bounces(0, MAX_DEPTH, true, false), Bounces { reflect: Some(1), refract: None });
    assert_eq!(bounces(5, MAX_DEPTH, true, false), Bounces { reflect: Some(6), refract: None });
}

#[test]
fn glass_sends_a_ray_through() {
    assert_eq!(bounces(2, MAX_DEPTH, false, true), Bounces { reflect: None, refract: Some(3) });
    assert_eq!(bounces(2, MAX_DEPTH, true, true), Bounces { reflect: Some(3), refract: Some(3) });
}

#[test]
fn rays_between_two_mirrors_end_at_the_depth_bound() {
    let mut depth = 0;
    let mut traced = 0;
    while !cut_off(depth, MAX_DEPTH) {
        traced += 1;
        depth = bounces(depth, MAX_DEPTH, true, false).reflect.unwrap();
    }
    assert_eq!(traced, 6);
    assert_eq!(depth, MAX_DEPTH + 1);
}
