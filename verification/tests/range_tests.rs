use mobius::range::generate_range;

#[test]
fn range_unit_step() {
    // [-1.0, 1.0] at spacing 0.5, carried at scale 2^1.
    let r = generate_range(-2, 2, 1);
    assert_eq!(r, vec![-2, -1, 0, 1, 2]);
}

#[test]
fn range_length_formula() {
    // floor((stop - start) / step) + 1 elements, for several intervals.
    assert_eq!(generate_range(0, 7, 2).len(), 4);
    assert_eq!(generate_range(-5, 5, 3).len(), 4);
    assert_eq!(generate_range(10, 10, 4).len(), 1);
    assert_eq!(generate_range(0, 1, 5).len(), 1);
}

#[test]
fn range_endpoints() {
    // The first element is the start; the last is within one step below the
    // stop, even when the stop is not itself a sample.
    let r = generate_range(0, 7, 2);
    assert_eq!(r, vec![0, 2, 4, 6]);
    assert_eq!(r[0], 0);
    assert!(*r.last().unwrap() <= 7);
    assert!(*r.last().unwrap() > 7 - 2);
}

#[test]
fn range_spacing_is_exact() {
    let r = generate_range(-9, 40, 7);
    for w in r.windows(2) {
        assert_eq!(w[1] - w[0], 7);
    }
}

#[test]
fn range_of_angle_axis() {
    // [0, 2*pi] at spacing 0.5: the bounds of the angle axis, carried
    // exactly at scale 2^47. floor(2*pi / 0.5) + 1 = 13 samples.
    let scale = (1u64 << 47) as f64;
    let stop = (2.0 * std::f64::consts::PI * scale) as i64;
    assert_eq!(stop as f64, 2.0 * std::f64::consts::PI * scale);
    let step = 1i64 << 46;
    let r = generate_range(0, stop, step);
    assert_eq!(r.len(), 13);
    assert_eq!(r[0], 0);
    for (i, v) in r.iter().enumerate() {
        assert_eq!(*v, i as i64 * step);
    }
    assert!(*r.last().unwrap() <= stop);
    assert!(*r.last().unwrap() > stop - step);
}

#[test]
fn range_single_point_interval() {
    let r = generate_range(-4, -4, 9);
    assert_eq!(r, vec![-4]);
}
