use onepole::driver::StreamDriver;
use onepole::filter::lowpass_two_samples;

const ONE: i64 = 65536;

fn ones_block(len: usize, channels: usize) -> Vec<Vec<i64>> {
    vec![vec![ONE; len]; channels]
}

#[test]
fn process_filters_and_updates_state() {
    let mut d = StreamDriver::new(44100, 2);
    let mut buffers = ones_block(4, 2);
    d.process(&mut buffers, 20000, ONE);
    for ch in buffers.iter() {
        assert_eq!(*ch, vec![48512, 61113, 64387, 65237]);
    }
}

#[test]
fn state_carries_across_blocks() {
    // two blocks of four samples, state carried, against the same eight
    // samples processed in one block by a fresh driver
    let mut d = StreamDriver::new(44100, 1);
    let mut first = ones_block(4, 1);
    d.process(&mut first, 20000, ONE);
    let mut second = ones_block(4, 1);
    d.process(&mut second, 20000, ONE);
    let mut split: Vec<i64> = first[0].clone();
    split.extend_from_slice(&second[0]);

    let mut fresh = StreamDriver::new(44100, 1);
    let mut whole = ones_block(8, 1);
    fresh.process(&mut whole, 20000, ONE);

    assert_eq!(split, whole[0]);
    assert_eq!(
        whole[0],
        vec![48512, 61113, 64387, 65237, 65458, 65515, 65530, 65534]
    );
}

#[test]
fn gain_scales_outputs_but_not_state() {
    let mut d = StreamDriver::new(44100, 1);
    let mut buffers = ones_block(4, 1);
    d.process(&mut buffers, 20000, 2 * ONE);
    assert_eq!(buffers[0], vec![97024, 122226, 128774, 130474]);

    // the held state is the unscaled filter output, so the next block
    // continues from 65237, not from the doubled value
    let mut next = ones_block(1, 1);
    d.process(&mut next, 20000, ONE);
    assert_eq!(next[0], vec![65458]);
}

#[test]
fn reset_reproduces_cold_start() {
    let block: Vec<i64> = vec![-123456, 789012, -345678, 65536, 0, 999999, -999999, 424242];

    let mut d = StreamDriver::new(44100, 2);
    let mut warmup = ones_block(4, 2);
    d.process(&mut warmup, 20000, ONE);
    d.reset();
    let mut after_reset: Vec<Vec<i64>> = vec![block.clone(), block.clone()];
    d.process(&mut after_reset, 20000, ONE);

    let mut fresh = StreamDriver::new(44100, 2);
    let mut cold: Vec<Vec<i64>> = vec![block.clone(), block.clone()];
    fresh.process(&mut cold, 20000, ONE);

    assert_eq!(after_reset, cold);
}

#[test]
fn initialize_keeps_filter_memory() {
    let mut d = StreamDriver::new(44100, 1);
    let mut first = ones_block(1, 1);
    d.process(&mut first, 20000, ONE);
    assert_eq!(first[0], vec![48512]);

    d.initialize(48000);
    assert_eq!(d.sample_rate(), 48000);
    let mut second = ones_block(1, 1);
    d.process(&mut second, 20000, ONE);
    // the memory survived the rate change: the next output continues from
    // 48512 under the new rate's coefficient
    assert_eq!(second[0], vec![lowpass_two_samples(ONE, 48512, 48000, 20000)]);
    assert_eq!(second[0], vec![60830]);
}

#[test]
fn empty_blocks_keep_state() {
    let mut d = StreamDriver::new(44100, 1);
    let mut first = ones_block(4, 1);
    d.process(&mut first, 20000, ONE);

    let mut empty: Vec<Vec<i64>> = vec![Vec::new()];
    d.process(&mut empty, 20000, ONE);
    assert!(empty[0].is_empty());

    let mut next = ones_block(1, 1);
    d.process(&mut next, 20000, ONE);
    assert_eq!(next[0], vec![65458]);
}

#[test]
fn driver_reports_its_configuration() {
    let d = StreamDriver::new(96000, 6);
    assert_eq!(d.sample_rate(), 96000);
    assert_eq!(d.channels(), 6);
}
