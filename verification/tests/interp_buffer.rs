use controller::interp::{
    lerp_points, positions_approx_eq, Factor, InterpBuffer, MIN_SEGMENT_NANOS,
};
use nalgebra::Vector3;

fn same(a: &f32, b: &f32) -> bool {
    (a - b).abs() < 1e-3
}

fn factor_value(f: Factor) -> f32 {
    let base = if f.extrapolate { 1.0 } else { 0.0 };
    base + f.part as f32 / f.span as f32
}

fn lerp(a: &f32, b: &f32, f: Factor) -> f32 {
    a + (b - a) * factor_value(f)
}

const MS: u64 = 1_000_000;

#[test]
fn new_buffer_is_empty() {
    let buffer: InterpBuffer<f32> = InterpBuffer::new(4);
    assert_eq!(buffer.len(), 0);
    assert_eq!(buffer.latest_value(), None);
    assert_eq!(buffer.sample(0, 0, lerp), None);
}

#[test]
fn push_changed_skips_unchanged_values() {
    let mut buffer = InterpBuffer::new(4);
    assert!(buffer.push_changed(0, 1.0f32, same));
    assert!(!buffer.push_changed(10 * MS, 1.0002f32, same));
    assert_eq!(buffer.len(), 1);
    assert!(buffer.push_changed(20 * MS, 2.0f32, same));
    assert_eq!(buffer.len(), 2);
    assert_eq!(buffer.latest_value(), Some(&2.0));
}

#[test]
fn push_changed_evicts_the_oldest_sample() {
    let mut buffer = InterpBuffer::new(2);
    assert!(buffer.push_changed(0, 1.0f32, same));
    assert!(buffer.push_changed(10 * MS, 2.0f32, same));
    assert!(buffer.push_changed(20 * MS, 3.0f32, same));
    assert_eq!(buffer.len(), 2);
    /* the oldest kept sample is now the one at 10 ms */
    assert_eq!(buffer.sample(0, 0, lerp), Some(2.0));
    assert_eq!(buffer.latest_value(), Some(&3.0));
}

#[test]
fn zero_capacity_keeps_the_newest_sample() {
    let mut buffer = InterpBuffer::new(0);
    assert!(buffer.push_changed(0, 1.0f32, same));
    assert!(buffer.push_changed(10 * MS, 2.0f32, same));
    assert_eq!(buffer.len(), 1);
    assert_eq!(buffer.latest_value(), Some(&2.0));
}

#[test]
fn clear_drops_all_samples() {
    let mut buffer = InterpBuffer::new(4);
    buffer.push_changed(0, 1.0f32, same);
    buffer.push_changed(10 * MS, 2.0f32, same);
    buffer.clear();
    assert_eq!(buffer.len(), 0);
    assert_eq!(buffer.latest_value(), None);
    assert_eq!(buffer.sample(5 * MS, 0, lerp), None);
}

#[test]
fn sample_interpolates_between_samples() {
    let mut buffer = InterpBuffer::new(4);
    buffer.push_changed(0, 0.0f32, same);
    buffer.push_changed(10 * MS, 10.0f32, same);
    buffer.push_changed(20 * MS, 30.0f32, same);
    /* in the older segment */
    let v = buffer.sample(5 * MS, 0, lerp).unwrap();
    assert!((v - 5.0).abs() < 1e-4);
    /* in the newer segment */
    let v = buffer.sample(15 * MS, 0, lerp).unwrap();
    assert!((v - 20.0).abs() < 1e-4);
}

#[test]
fn sample_factor_is_the_elapsed_fraction() {
    let mut buffer = InterpBuffer::new(4);
    buffer.push_changed(0, 0.0f32, same);
    buffer.push_changed(10 * MS, 10.0f32, same);
    buffer.push_changed(20 * MS, 30.0f32, same);
    let f = buffer.bracket(12 * MS, 0).unwrap().2;
    assert_eq!(f, Factor { extrapolate: false, part: 2 * MS, span: 10 * MS });
}

#[test]
fn sample_at_a_recorded_time_yields_that_sample() {
    let mut buffer = InterpBuffer::new(4);
    buffer.push_changed(0, 0.0f32, same);
    buffer.push_changed(10 * MS, 10.0f32, same);
    buffer.push_changed(20 * MS, 30.0f32, same);
    let f = buffer.bracket(10 * MS, 0).unwrap().2;
    assert_eq!(f, Factor { extrapolate: false, part: 0, span: 10 * MS });
    assert_eq!(buffer.sample(10 * MS, 0, lerp), Some(10.0));
}

#[test]
fn sample_before_the_oldest_sample_is_the_oldest_value() {
    let mut buffer = InterpBuffer::new(4);
    buffer.push_changed(10 * MS, 1.0f32, same);
    buffer.push_changed(20 * MS, 2.0f32, same);
    buffer.push_changed(30 * MS, 3.0f32, same);
    assert_eq!(buffer.sample(5 * MS, 0, lerp), Some(1.0));
    let f = buffer.bracket(5 * MS, 0).unwrap().2;
    assert_eq!(f, Factor { extrapolate: false, part: 0, span: 1 });
}

#[test]
fn sample_extrapolates_after_the_newest_sample() {
    let mut buffer = InterpBuffer::new(4);
    buffer.push_changed(0, 0.0f32, same);
    buffer.push_changed(10 * MS, 10.0f32, same);
    let v = buffer.sample(15 * MS, 100 * MS, lerp).unwrap();
    assert!((v - 15.0).abs() < 1e-4);
    let f = buffer.bracket(15 * MS, 100 * MS).unwrap().2;
    assert_eq!(f, Factor { extrapolate: true, part: 5 * MS, span: 10 * MS });
}

#[test]
fn extrapolation_is_clamped() {
    let mut buffer = InterpBuffer::new(4);
    buffer.push_changed(0, 0.0f32, same);
    buffer.push_changed(10 * MS, 10.0f32, same);
    let v = buffer.sample(500 * MS, 5 * MS, lerp).unwrap();
    assert!((v - 15.0).abs() < 1e-4);
}

#[test]
fn single_sample_is_returned_as_is() {
    let mut buffer = InterpBuffer::new(4);
    buffer.push_changed(10 * MS, 7.0f32, same);
    assert_eq!(buffer.sample(0, 0, lerp), Some(7.0));
    assert_eq!(buffer.sample(10 * MS, 0, lerp), Some(7.0));
    assert_eq!(buffer.sample(50 * MS, 100 * MS, lerp), Some(7.0));
}

#[test]
fn too_short_segments_snap_to_the_newer_end() {
    let mut buffer = InterpBuffer::new(4);
    buffer.push_changed(0, 0.0f32, same);
    buffer.push_changed(MIN_SEGMENT_NANOS - 1, 10.0f32, same);
    assert_eq!(buffer.sample(MIN_SEGMENT_NANOS + 50, 100 * MS, lerp), Some(10.0));
    assert_eq!(buffer.sample(MIN_SEGMENT_NANOS / 2, 0, lerp), Some(10.0));
    /* exactly the minimum segment blends */
    let mut buffer = InterpBuffer::new(4);
    buffer.push_changed(0, 0.0f32, same);
    buffer.push_changed(MIN_SEGMENT_NANOS, 10.0f32, same);
    let v = buffer.sample(MIN_SEGMENT_NANOS / 2, 0, lerp).unwrap();
    assert!((v - 5.0).abs() < 1e-4);
}

fn close(a: &Vector3<f32>, b: &Vector3<f32>) -> bool {
    (a - b).norm_squared() < 1e-6
}

fn lerp_point(a: &Vector3<f32>, b: &Vector3<f32>, f: Factor) -> Vector3<f32> {
    a + (b - a) * factor_value(f)
}

#[test]
fn positions_approx_eq_compares_pointwise() {
    let a = [Vector3::new(0.0f32, 0.0, 0.0), Vector3::new(1.0, 1.0, 1.0)];
    let b = [Vector3::new(0.0f32, 0.0, 0.0), Vector3::new(1.0, 1.0, 1.0001)];
    let c = [Vector3::new(0.0f32, 0.0, 0.0), Vector3::new(1.0, 1.0, 1.5)];
    assert!(positions_approx_eq(&a, &b, close));
    assert!(!positions_approx_eq(&a, &c, close));
    assert!(!positions_approx_eq(&a, &a[..1], close));
    assert!(positions_approx_eq::<Vector3<f32>, _>(&[], &[], close));
}

#[test]
fn lerp_points_blends_or_snaps() {
    let a = vec![Vector3::new(0.0f32, 0.0, 0.0), Vector3::new(2.0, 2.0, 2.0)];
    let b = vec![Vector3::new(2.0f32, 0.0, 0.0), Vector3::new(4.0, 2.0, 2.0)];
    let mid = lerp_points(&a, &b, 0.5f32, |p, q, t| p + (q - p) * t);
    assert_eq!(mid, vec![Vector3::new(1.0, 0.0, 0.0), Vector3::new(3.0, 2.0, 2.0)]);
    let short = vec![Vector3::new(9.0f32, 9.0, 9.0)];
    let snapped = lerp_points(&a, &short, 0.5f32, |p, q, t| p + (q - p) * t);
    assert_eq!(snapped, short);
}

#[test]
fn push_bones_changed_records_layout_changes() {
    let mut buffer: InterpBuffer<Vec<Vector3<f32>>> = InterpBuffer::new(2);
    let pose = [Vector3::new(0.0f32, 0.0, 0.0), Vector3::new(1.0, 0.0, 0.0)];
    assert!(buffer.push_bones_changed(0, &pose, close));
    assert!(!buffer.push_bones_changed(10 * MS, &pose, close));
    let moved = [Vector3::new(0.0f32, 1.0, 0.0), Vector3::new(1.0, 1.0, 0.0)];
    assert!(buffer.push_bones_changed(20 * MS, &moved, close));
    let third = [Vector3::new(0.0f32, 2.0, 0.0)];
    assert!(buffer.push_bones_changed(30 * MS, &third, close));
    assert_eq!(buffer.len(), 2);
    assert_eq!(buffer.latest_value(), Some(&third.to_vec()));
}

#[test]
fn sample_into_blends_poses() {
    let mut buffer: InterpBuffer<Vec<Vector3<f32>>> = InterpBuffer::new(4);
    let mut out = vec![Vector3::new(5.0f32, 5.0, 5.0)];
    assert!(!buffer.sample_into(0, 0, &mut out, lerp_point));
    assert_eq!(out, vec![Vector3::new(5.0f32, 5.0, 5.0)]);

    buffer.push_bones_changed(0, &[Vector3::new(0.0f32, 0.0, 0.0), Vector3::new(2.0, 0.0, 0.0)], close);
    buffer.push_bones_changed(10 * MS, &[Vector3::new(0.0f32, 2.0, 0.0), Vector3::new(2.0, 2.0, 0.0)], close);
    assert!(buffer.sample_into(5 * MS, 0, &mut out, lerp_point));
    assert_eq!(out, vec![Vector3::new(0.0, 1.0, 0.0), Vector3::new(2.0, 1.0, 0.0)]);
}

#[test]
fn sample_into_snaps_on_layout_change_and_exact_samples() {
    let mut buffer: InterpBuffer<Vec<Vector3<f32>>> = InterpBuffer::new(4);
    buffer.push_bones_changed(0, &[Vector3::new(0.0f32, 0.0, 0.0)], close);
    let end = [Vector3::new(0.0f32, 2.0, 0.0), Vector3::new(2.0, 2.0, 0.0)];
    buffer.push_bones_changed(10 * MS, &end, close);
    let mut out = Vec::new();
    assert!(buffer.sample_into(5 * MS, 0, &mut out, lerp_point));
    assert_eq!(out, end.to_vec());

    let mut buffer: InterpBuffer<Vec<Vector3<f32>>> = InterpBuffer::new(4);
    let start = [Vector3::new(0.0f32, 0.0, 0.0)];
    buffer.push_bones_changed(0, &start, close);
    buffer.push_bones_changed(10 * MS, &[Vector3::new(0.0f32, 2.0, 0.0)], close);
    /* at the oldest sample's time the factor is zero: that sample is copied as recorded */
    assert!(buffer.sample_into(0, 0, &mut out, lerp_point));
    assert_eq!(out, start.to_vec());
}

fn lerp_pose(a: &Vec<Vector3<f32>>, b: &Vec<Vector3<f32>>, f: Factor) -> Vec<Vector3<f32>> {
    lerp_points(a, b, f, lerp_point)
}

#[test]
fn sample_into_agrees_with_sample() {
    let mut buffer: InterpBuffer<Vec<Vector3<f32>>> = InterpBuffer::new(4);
    buffer.push_bones_changed(0, &[Vector3::new(0.0f32, 0.0, 0.0)], close);
    buffer.push_bones_changed(1000, &[Vector3::new(1.0f32, 0.0, 0.0)], close);
    buffer.push_bones_changed(10 * MS, &[Vector3::new(4.0f32, 0.0, 0.0), Vector3::new(4.0, 4.0, 0.0)], close);
    let mut out = vec![Vector3::new(9.0f32, 9.0, 9.0); 3];
    for render in [0, 500, 1000, 5 * MS, 10 * MS, 12 * MS] {
        assert!(buffer.sample_into(render, 5 * MS, &mut out, lerp_point));
        assert_eq!(Some(out.clone()), buffer.sample(render, 5 * MS, lerp_pose), "render time {}", render);
    }
}

#[test]
fn positions_approx_eq_is_symmetric() {
    let a = [Vector3::new(0.0f32, 0.0, 0.0), Vector3::new(1.0, 1.0, 1.0)];
    let b = [Vector3::new(0.0f32, 0.0, 0.0005), Vector3::new(1.0, 1.0, 1.0)];
    let c = [Vector3::new(0.0f32, 0.0, 0.5), Vector3::new(1.0, 1.0, 1.0)];
    assert_eq!(positions_approx_eq(&a, &b, close), positions_approx_eq(&b, &a, close));
    assert_eq!(positions_approx_eq(&a, &c, close), positions_approx_eq(&c, &a, close));
    assert_eq!(positions_approx_eq(&a, &c[..1], close), positions_approx_eq(&c[..1], &a, close));
}

#[test]
fn repeated_push_is_ignored() {
    let mut buffer = InterpBuffer::new(3);
    assert!(buffer.push_changed(0, 4.0f32, same));
    assert!(!buffer.push_changed(10 * MS, 4.0f32, same));
    assert_eq!(buffer.len(), 1);
    assert_eq!(buffer.bracket(0, 0).unwrap().0, &4.0);
}

#[test]
fn push_bones_changed_agrees_with_push_changed() {
    let poses: [&[Vector3<f32>]; 4] = [
        &[Vector3::new(0.0f32, 0.0, 0.0)],
        &[Vector3::new(0.0f32, 0.0, 0.0)],
        &[Vector3::new(1.0f32, 0.0, 0.0)],
        &[Vector3::new(1.0f32, 0.0, 0.0), Vector3::new(2.0, 0.0, 0.0)],
    ];
    let mut bones: InterpBuffer<Vec<Vector3<f32>>> = InterpBuffer::new(2);
    let mut generic: InterpBuffer<Vec<Vector3<f32>>> = InterpBuffer::new(2);
    for (i, pose) in poses.iter().enumerate() {
        let time = i as u64 * 10 * MS;
        let a = bones.push_bones_changed(time, pose, close);
        let b = generic.push_changed(time, pose.to_vec(), |x: &Vec<Vector3<f32>>, y: &Vec<Vector3<f32>>| {
            positions_approx_eq(x, y, close)
        });
        assert_eq!(a, b);
        assert_eq!(bones.len(), generic.len());
        assert_eq!(bones.latest_value(), generic.latest_value());
        assert_eq!(bones.bracket(0, 0).map(|(s, e, f)| (s.clone(), e.clone(), f)),
            generic.bracket(0, 0).map(|(s, e, f)| (s.clone(), e.clone(), f)));
    }
}
