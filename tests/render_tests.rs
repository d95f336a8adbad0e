use ray_tracing::camera::{MaxBounces, Resolution};
use ray_tracing::image_generator::ImageGenerator;
use ray_tracing::render::{HitKey, RenderService, TraceStep};

#[test]
fn keep_closest_prefers_strictly_nearer() {
    let a = HitKey { key: 10, index: 0 };
    let b = HitKey { key: 5, index: 1 };
    let c = HitKey { key: 5, index: 2 };
    assert_eq!(RenderService::keep_closest(None, a), Some(a));
    assert_eq!(RenderService::keep_closest(Some(a), b), Some(b));
    assert_eq!(RenderService::keep_closest(Some(b), a), Some(b));
    assert_eq!(RenderService::keep_closest(Some(b), c), Some(b));
}

#[test]
fn closest_hit_first_seen_wins_ties() {
    let keys = vec![None, Some(7), Some(3), None, Some(3), Some(9)];
    assert_eq!(RenderService::closest_hit(&keys), Some(2));
}

#[test]
fn closest_hit_of_no_hits() {
    assert_eq!(RenderService::closest_hit(&vec![]), None);
    assert_eq!(RenderService::closest_hit(&vec![None, None]), None);
}

#[test]
fn closest_hit_orders_distances_by_their_bits() {
    let ts: [f64; 4] = [4.0, 0.5, 1e-3, 2.0];
    let keys: Vec<Option<u64>> = ts.iter().map(|t| Some(t.to_bits())).collect();
    assert_eq!(RenderService::closest_hit(&keys), Some(2));
}

#[test]
fn depth_zero_trace_is_background() {
    assert_eq!(RenderService::trace_step(0), TraceStep::Background);
}

#[test]
fn each_bounce_costs_one() {
    let max = MaxBounces { n: 3 };
    assert_eq!(RenderService::trace_step(max.n), TraceStep::Search { child_depth: 2 });
    assert_eq!(RenderService::trace_step(1), TraceStep::Search { child_depth: 0 });
    assert_eq!(RenderService::trace_step(u32::MAX), TraceStep::Search { child_depth: u32::MAX - 1 });
}

#[test]
fn generate_image_is_row_major_from_top_left() {
    let res = Resolution { horizontal: 3, vertical: 2 };
    let bytes = RenderService::generate_image(res, |x, y| (x as u8 + 1, y as u8 + 10, 200));
    assert_eq!(bytes.len(), 18);
    assert_eq!(&bytes[0..3], &[1, 10, 200]);
    assert_eq!(&bytes[3..6], &[2, 10, 200]);
    assert_eq!(&bytes[6..9], &[3, 10, 200]);
    assert_eq!(&bytes[9..12], &[1, 11, 200]);
    assert_eq!(&bytes[15..18], &[3, 11, 200]);
}

#[test]
fn generate_image_of_no_pixels() {
    let res = Resolution { horizontal: 0, vertical: 5 };
    assert!(RenderService::generate_image(res, |_, _| (1, 2, 3)).is_empty());
}

#[test]
fn rendering_twice_is_byte_identical() {
    let res = Resolution { horizontal: 17, vertical: 9 };
    let shade = |x: u32, y: u32| ((x * 13 % 256) as u8, (y * 29 % 256) as u8, ((x ^ y) % 256) as u8);
    let a = RenderService::generate_image(res, shade);
    let b = RenderService::generate_image(res, shade);
    assert_eq!(a, b);
}

#[test]
fn black_image_is_all_zero() {
    let g = ImageGenerator::new(4, 3);
    let bytes = g.black_image();
    assert_eq!(bytes.len(), 36);
    assert!(bytes.iter().all(|b| *b == 0));
}

#[test]
fn generator_reports_its_size() {
    let g = ImageGenerator::new(640, 480);
    assert_eq!(g.size(), (640, 480));
    assert_eq!(g.black_image().len(), 640 * 480 * 3);
}
