use onepole::makeup::makeup;
use onepole::makeup::makeup_buffer;

const ONE: i64 = 65536;

fn to_q16(x: f64) -> i64 {
    (x * 65536.0).round() as i64
}

#[test]
fn makeup_multiplies_in_linear_domain() {
    let mut s: i64 = to_q16(3.0);
    makeup(&mut s, to_q16(2.0));
    assert_eq!(s, to_q16(6.0));

    let mut s: i64 = to_q16(-1.5);
    makeup(&mut s, to_q16(4.0));
    assert_eq!(s, to_q16(-6.0));
}

#[test]
fn unit_gain_is_a_no_op() {
    let samples: [i64; 5] = [0, 1, -1, 4294967296, -4294967296];
    for &x in samples.iter() {
        let mut s: i64 = x;
        makeup(&mut s, ONE);
        assert_eq!(s, x);
    }
}

#[test]
fn zero_gain_yields_silence() {
    let samples: [i64; 5] = [0, 1, -1, 4294967296, -4294967296];
    for &x in samples.iter() {
        let mut s: i64 = x;
        makeup(&mut s, 0);
        assert_eq!(s, 0);
    }
}

#[test]
fn scaling_truncates_toward_zero() {
    let half: i64 = 32768;
    let cases: [(i64, i64); 4] = [(1, 0), (-1, 0), (3, 1), (-3, -1)];
    for &(x, want) in cases.iter() {
        let mut s: i64 = x;
        makeup(&mut s, half);
        assert_eq!(s, want, "half gain of {x}");
    }
}

#[test]
fn largest_sample_and_gain() {
    let mut s: i64 = 4294967296;
    makeup(&mut s, 16777216);
    assert_eq!(s, 1099511627776);
}

#[test]
fn buffer_gain_scales_every_sample() {
    let mut data: Vec<i64> = vec![to_q16(0.25), to_q16(-0.5), 0, to_q16(1.0)];
    makeup_buffer(&mut data, to_q16(2.0));
    assert_eq!(data, vec![to_q16(0.5), to_q16(-1.0), 0, to_q16(2.0)]);
}
