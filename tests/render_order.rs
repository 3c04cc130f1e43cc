use raytracer::path::{dielectric_reflects, next_step, scatter_outcome, should_trace, Outcome, Step, Surface};
use raytracer::raster::pixel_order;

#[test]
fn pixel_order_is_row_major() {
    let order = pixel_order(3, 2);
    assert_eq!(order, vec![(0, 0), (1, 0), (2, 0), (0, 1), (1, 1), (2, 1)]);
}

#[test]
fn pixel_order_of_empty_frame() {
    assert!(pixel_order(0, 4).is_empty());
    assert!(pixel_order(4, 0).is_empty());
}

#[test]
fn pixel_order_of_full_width_frame() {
    let order = pixel_order(400, 225);
    assert_eq!(order.len(), 90000);
    assert_eq!(order[0], (0, 0));
    assert_eq!(order[399], (399, 0));
    assert_eq!(order[400], (0, 1));
    assert_eq!(order[89999], (399, 224));
}

#[test]
fn spent_budget_is_black_before_the_scene() {
    assert!(!should_trace(0));
    assert!(!should_trace(-3));
    assert!(should_trace(1));
    assert!(should_trace(50));
}

#[test]
fn steps_after_each_outcome() {
    assert_eq!(next_step(5, Outcome::Missed), Step::Sky);
    assert_eq!(next_step(5, Outcome::Absorbed), Step::Black);
    assert_eq!(next_step(5, Outcome::Scattered), Step::Bounce(4));
}

#[test]
fn one_bounce_budget_ends_black_after_scatter() {
    // A diffuse hit with a budget of one: the first ray is traced and
    // scattered, and the scattered ray finds its budget spent.
    assert!(should_trace(1));
    let outcome = scatter_outcome(Surface::Lambertian, false);
    assert_eq!(outcome, Outcome::Scattered);
    let step = next_step(1, outcome);
    assert_eq!(step, Step::Bounce(0));
    if let Step::Bounce(depth) = step {
        assert!(!should_trace(depth));
    }
    // The same budget on a miss shows the sky.
    assert_eq!(next_step(1, Outcome::Missed), Step::Sky);
}

#[test]
fn diffuse_and_glass_always_scatter() {
    for leaves in [false, true] {
        assert_eq!(scatter_outcome(Surface::Lambertian, leaves), Outcome::Scattered);
        assert_eq!(scatter_outcome(Surface::Dielectric, leaves), Outcome::Scattered);
    }
}

#[test]
fn metal_absorbs_below_surface() {
    assert_eq!(scatter_outcome(Surface::Metal, true), Outcome::Scattered);
    assert_eq!(scatter_outcome(Surface::Metal, false), Outcome::Absorbed);
}

#[test]
fn total_internal_reflection_always_reflects() {
    assert!(dielectric_reflects(true, false));
    assert!(dielectric_reflects(true, true));
    assert!(dielectric_reflects(false, true));
    assert!(!dielectric_reflects(false, false));
}
