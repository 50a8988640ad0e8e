use ray_tracing_in_a_weekend::clamp;
use ray_tracing_in_a_weekend::minmax;
use ray_tracing_in_a_weekend::rect_geometry::RectPlane;
use ray_tracing_in_a_weekend::split_work_tasks;
use ray_tracing_in_a_weekend::RenderMode;
use ray_tracing_in_a_weekend::Size2i;
use ray_tracing_in_a_weekend::Vec2;
use ray_tracing_in_a_weekend::Vec3;

#[test]
fn split_work_tasks_hands_out_the_remainder_first() {
    assert_eq!(split_work_tasks(10, 4), vec![(0, 3), (1, 3), (2, 2), (3, 2)]);
}

#[test]
fn split_work_tasks_leaves_no_worker_idle() {
    assert_eq!(split_work_tasks(3, 8), vec![(0, 1), (1, 1), (2, 1)]);
    assert_eq!(split_work_tasks(0, 5), vec![]);
}

#[test]
fn split_work_tasks_covers_the_whole_budget() {
    for threads in 1..9 {
        for samples in 0..40 {
            let tasks = split_work_tasks(samples, threads);
            let total: usize = tasks.iter().map(|t| t.1).sum();
            assert_eq!(total, samples);
            assert!(tasks.iter().all(|t| t.1 > 0));
            assert!(tasks.len() <= threads);
        }
    }
}

#[test]
fn size_counts_pixels() {
    let size = Size2i::new(640, 360);
    assert_eq!(size.width, 640);
    assert_eq!(size.height, 360);
    assert_eq!(size.count(), 230400);
}

#[test]
fn vectors_keep_their_components() {
    let v2 = Vec2::new(4u8, 5u8);
    assert_eq!((v2.x, v2.y), (4, 5));
    let v3 = Vec3::new(1i64, 2i64, 3i64);
    assert_eq!(v3.e, [1, 2, 3]);
}

#[test]
fn clamp_restricts_to_the_interval() {
    assert_eq!(clamp(0, 10, -5), 0);
    assert_eq!(clamp(0, 10, 5), 5);
    assert_eq!(clamp(0, 10, 15), 10);
    assert_eq!(clamp(0.0f32, 255.0f32, 300.0f32), 255.0f32);
}

#[test]
fn minmax_orders_a_pair() {
    assert_eq!(minmax(3, 1), (1, 3));
    assert_eq!(minmax(1, 3), (1, 3));
    assert_eq!(minmax(2.0f32, -1.0f32), (-1.0f32, 2.0f32));
}

#[test]
fn rect_planes_name_their_axes() {
    assert_eq!(RectPlane::Xy.get_axis(), (0, 1, 2));
    assert_eq!(RectPlane::Xz.get_axis(), (0, 2, 1));
    assert_eq!(RectPlane::Yz.get_axis(), (1, 2, 0));
}

#[test]
fn render_modes_are_distinct() {
    assert_ne!(RenderMode::Default, RenderMode::Normals);
    assert_eq!(RenderMode::Default, RenderMode::Default);
}
