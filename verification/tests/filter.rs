use onepole::coeff::alpha_for;
use onepole::filter::lowpass_filter;
use onepole::filter::lowpass_two_samples;
use onepole::filter::lp_step;

const ONE: i64 = 65536;

fn to_q16(x: f64) -> i64 {
    (x * 65536.0).round() as i64
}

fn from_q16(v: i64) -> f64 {
    v as f64 / 65536.0
}

#[test]
fn alpha_stays_in_unit_interval() {
    let rates: [u32; 4] = [1, 8000, 44100, 16777216];
    let cutoffs: [u32; 5] = [1, 20, 20000, 25000, 16777216];
    for &sr in rates.iter() {
        for &fc in cutoffs.iter() {
            let a: i64 = alpha_for(sr, fc);
            assert!(0 < a && a <= ONE, "alpha out of range for {sr} {fc}: {a}");
        }
    }
}

#[test]
fn alpha_exact_values() {
    assert_eq!(alpha_for(44100, 20000), 48512);
    assert_eq!(alpha_for(48000, 20000), 47423);
    assert_eq!(alpha_for(44100, 1), 10);
    assert_eq!(alpha_for(44100, 16777216), 65509);
}

#[test]
fn alpha_grows_with_cutoff() {
    let mut prev: i64 = 0;
    let cutoffs: [u32; 6] = [1, 20, 500, 20000, 25000, 16777216];
    for &fc in cutoffs.iter() {
        let a: i64 = alpha_for(44100, fc);
        assert!(a >= prev, "alpha fell from {prev} to {a} at cutoff {fc}");
        prev = a;
    }
}

#[test]
fn constant_stream_is_fixed_point() {
    assert_eq!(lowpass_two_samples(12345, 12345, 44100, 20000), 12345);
    assert_eq!(lowpass_two_samples(-12345, -12345, 44100, 20000), -12345);
    let mut state: i64 = 424242;
    for _ in 0..10 {
        state = lowpass_two_samples(424242, state, 96000, 300);
        assert_eq!(state, 424242);
    }
}

#[test]
fn whole_block_matches_carry_state() {
    let input: Vec<i64> = vec![-123456, 789012, -345678, 65536, 0, 999999, -999999, 424242];
    let mut block = input.clone();
    lowpass_filter(&mut block, 44100, 20000);
    assert_eq!(
        block,
        vec![-91386, 560314, -110332, 19851, 5157, 741573, -547598, 171791]
    );
    // replaying the block one carry-state call at a time, starting from the
    // block's first output, reproduces every later output exactly
    let mut state: i64 = block[0];
    for i in 1..input.len() {
        state = lowpass_two_samples(input[i], state, 44100, 20000);
        assert_eq!(state, block[i], "divergence at index {i}");
    }
    // and the first output itself is one carry-state call from a zero state
    assert_eq!(lowpass_two_samples(input[0], 0, 44100, 20000), block[0]);
}

#[test]
fn low_cutoff_freezes_output() {
    let mut data: Vec<i64> = vec![ONE; 8];
    lowpass_filter(&mut data, 44100, 1);
    // the first output is the first input scaled by the (tiny) coefficient
    assert_eq!(data[0], 10);
    for i in 0..data.len() {
        assert!(from_q16(data[i]) < 0.002, "output {i} too large: {}", data[i]);
        if i > 0 {
            assert!(data[i] - data[i - 1] <= 10, "output drifted at {i}");
        }
    }
}

#[test]
fn high_cutoff_passes_through() {
    let mut data: Vec<i64> = vec![ONE; 4];
    lowpass_filter(&mut data, 44100, 16777216);
    assert_eq!(data, vec![65509, 65535, 65535, 65535]);
    for &y in data.iter() {
        assert!((from_q16(y) - 1.0).abs() < 0.001);
    }
}

#[test]
fn whole_block_example_scenario() {
    let mut data: Vec<i64> = vec![to_q16(1.0); 4];
    lowpass_filter(&mut data, 44100, 20000);
    assert_eq!(data, vec![48512, 61113, 64387, 65237]);
    let expected: [f64; 4] = [0.7358, 0.9302, 0.9816, 0.9951];
    for (y, e) in data.iter().zip(expected.iter()) {
        assert!((from_q16(*y) - e).abs() < 0.01, "got {} wanted about {e}", from_q16(*y));
    }
    assert!((from_q16(alpha_for(44100, 20000)) - 0.7358).abs() < 0.01);
}

#[test]
fn carry_state_example_scenario() {
    let r: i64 = lowpass_two_samples(to_q16(1.0), 0, 44100, 20000);
    assert_eq!(r, 48512);
    // matches the first output of the whole-block example, whose recursion
    // starts from the same zero previous state
    let mut block: Vec<i64> = vec![to_q16(1.0); 4];
    lowpass_filter(&mut block, 44100, 20000);
    assert_eq!(r, block[0]);
}

#[test]
fn extreme_samples_stay_bounded() {
    let r: i64 = lowpass_two_samples(-4294967296, 4294967296, 44100, 20000);
    assert_eq!(r, -2063597568);
    assert!(-4294967296 <= r && r <= 4294967296);
}

#[test]
fn step_with_explicit_coefficient() {
    // a half-unit coefficient moves the state half the distance to the input
    assert_eq!(lp_step(0, 65536, 32768), 32768);
    // a full-unit coefficient is a pass-through
    assert_eq!(lp_step(12345, -9876, 65536), -9876);
    // a zero coefficient freezes the held state
    assert_eq!(lp_step(12345, -9876, 0), 12345);
    // a tiny coefficient times a small distance truncates to no movement
    assert_eq!(lp_step(1000, 1001, 10), 1000);
    assert_eq!(lp_step(1001, 1000, 10), 1001);
}
