use fast_osmpbf::{decode_deltas, delta_decode_i64, delta_decode_lanes, delta_decode_scalar};

fn sample(n: usize) -> Vec<i64> {
    (0..n).map(|i| ((i as i64) * 7919 % 1000) - 500).collect()
}

#[test]
fn scalar_and_lane_paths_agree_up_to_1024() {
    for n in 0..=1024usize {
        let input = sample(n);
        let mut a = vec![0i64; n];
        let mut b = vec![0i64; n];
        let mut c = vec![0i64; n];
        let mut d = vec![0i64; n];
        let ra = delta_decode_scalar(&input, &mut a, 3);
        let rb = delta_decode_lanes(&input, &mut b, 3, 4);
        let rc = delta_decode_lanes(&input, &mut c, 3, 2);
        let rd = delta_decode_i64(&input, &mut d, 3);
        assert_eq!(a, b);
        assert_eq!(a, c);
        assert_eq!(a, d);
        assert_eq!(ra, rb);
        assert_eq!(ra, rc);
        assert_eq!(ra, rd);
    }
}

#[test]
fn prefix_sum_exact_values() {
    let input = [10i64, 5, -3, 2, 7];
    let mut out = [0i64; 5];
    let last = delta_decode_i64(&input, &mut out, 100);
    assert_eq!(out, [110, 115, 112, 114, 121]);
    assert_eq!(last, 121);
}

#[test]
fn output_past_input_is_untouched() {
    let input = [1i64, 1];
    let mut out = [9i64; 4];
    let last = delta_decode_lanes(&input, &mut out, 0, 4);
    assert_eq!(out, [1, 2, 9, 9]);
    assert_eq!(last, 2);
}

#[test]
fn empty_input_returns_seed() {
    let mut out: [i64; 0] = [];
    assert_eq!(delta_decode_i64(&[], &mut out, 42), 42);
    assert!(decode_deltas(&[]).is_empty());
}

#[test]
fn addition_wraps() {
    let input = [i64::MAX, 1];
    let mut out = [0i64; 2];
    let last = delta_decode_scalar(&input, &mut out, 0);
    assert_eq!(out, [i64::MAX, i64::MIN]);
    assert_eq!(last, i64::MIN);
}

#[test]
fn decode_deltas_from_zero() {
    assert_eq!(decode_deltas(&[100, 50, -25]), vec![100, 150, 125]);
}
