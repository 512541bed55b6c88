use fslcmix::block::clear;
use fslcmix::fixed::ONE;
use fslcmix::mixer::{render, FslcMix};

const HALF: i32 = ONE / 2;

fn fx(x: f32) -> i32 {
    (x * ONE as f32).round() as i32
}

fn block(values: &[f32]) -> Vec<i32> {
    values.iter().map(|v| fx(*v)).collect()
}

#[test]
fn two_channels_are_summed() {
    let mut mixer = FslcMix::new(2);
    let a = block(&[1.0, 0.0, -1.0, 0.0]);
    let b = block(&[0.0, 1.0, 0.0, -1.0]);
    let mut out = vec![123, -456, 789, 1];
    mixer.mix(vec![&a[..], &b[..]], &mut out);
    assert_eq!(out, vec![ONE, ONE, -ONE, -ONE]);
}

#[test]
fn normalization_divides_by_channel_count() {
    let mut mixer = FslcMix::new(2);
    mixer.normalize = true;
    let a = block(&[1.0, 0.0, -1.0, 0.0]);
    let b = block(&[0.0, 1.0, 0.0, -1.0]);
    let mut out = vec![0; 4];
    mixer.mix(vec![&a[..], &b[..]], &mut out);
    assert_eq!(out, vec![HALF, HALF, -HALF, -HALF]);
    assert_eq!(out, block(&[0.5, 0.5, -0.5, -0.5]));
}

#[test]
fn muted_channel_is_left_out_of_the_mix() {
    let mut mixer = FslcMix::new(2);
    mixer.channel_mut(0).unwrap().mute = true;
    let a = block(&[1.0, 0.0, -1.0, 0.0]);
    let b = block(&[0.0, 1.0, 0.0, -1.0]);
    let mut out = vec![7; 4];
    mixer.mix(vec![&a[..], &b[..]], &mut out);
    assert_eq!(out, vec![0, ONE, 0, -ONE]);
}

#[test]
fn muted_channel_still_meters_its_signal() {
    let mut mixer = FslcMix::new(2);
    mixer.channel_mut(0).unwrap().mute = true;
    let a = block(&[0.5, 0.25, -1.0, 0.125]);
    let b = block(&[0.0, 0.0, 0.0, 0.0]);
    let mut out = vec![0; 4];
    mixer.mix(vec![&a[..], &b[..]], &mut out);
    let strip = mixer.channel(0).unwrap();
    assert_eq!(strip.instantaneous_peak(), HALF);
    assert_eq!(strip.smoothed_peak(), HALF);
    assert_eq!(strip.last_sample(), ONE / 8);
    assert!(strip.last_rms() > 0);
    assert_eq!(out, vec![0; 4]);
}

#[test]
fn master_mute_gives_silence_and_touches_nothing() {
    let mut mixer = FslcMix::new(2);
    mixer.master.mute = true;
    let a = block(&[1.0, 0.5, -1.0, 0.25]);
    let b = block(&[0.25, 1.0, 0.5, -1.0]);
    let mut out = vec![55, -66, 77, -88];
    mixer.mix(vec![&a[..], &b[..]], &mut out);
    assert_eq!(out, vec![0; 4]);
    for k in 0..2 {
        let strip = mixer.channel(k).unwrap();
        assert_eq!(strip.instantaneous_peak(), 0);
        assert_eq!(strip.smoothed_peak(), 0);
        assert_eq!(strip.last_rms(), 0);
        assert_eq!(strip.last_sample(), 0);
        assert_eq!(strip.hold_counter(), 0);
    }
    assert_eq!(mixer.master.instantaneous_peak(), 0);
    assert_eq!(mixer.master.last_rms(), 0);
}

#[test]
fn master_mute_accepts_an_empty_block() {
    let mut mixer = FslcMix::new(1);
    mixer.master.mute = true;
    let a: Vec<i32> = Vec::new();
    let mut out: Vec<i32> = Vec::new();
    mixer.mix(vec![&a[..]], &mut out);
    assert!(out.is_empty());
}

#[test]
fn solo_silences_every_channel_that_is_not_soloed() {
    let mut mixer = FslcMix::new(3);
    mixer.channel_mut(1).unwrap().solo = true;
    mixer.channel_mut(1).unwrap().gain = HALF;
    let a = block(&[1.0, 1.0]);
    let b = block(&[0.5, -0.5]);
    let c = block(&[0.25, 0.25]);
    let mut out = vec![0; 2];
    mixer.mix(vec![&a[..], &b[..], &c[..]], &mut out);
    assert_eq!(out, block(&[0.25, -0.25]));
    assert!(mixer.channel(0).unwrap().others_solo());
    assert!(mixer.channel(2).unwrap().others_solo());
    assert_eq!(mixer.channel(0).unwrap().instantaneous_peak(), ONE);
}

#[test]
fn two_soloed_channels_are_both_heard() {
    let mut mixer = FslcMix::new(3);
    mixer.channel_mut(0).unwrap().solo = true;
    mixer.channel_mut(2).unwrap().solo = true;
    let a = block(&[0.5]);
    let b = block(&[1.0]);
    let c = block(&[0.25]);
    let mut out = vec![0; 1];
    mixer.mix(vec![&a[..], &b[..], &c[..]], &mut out);
    assert_eq!(out, block(&[0.75]));
}

#[test]
fn mute_wins_over_solo() {
    let mut mixer = FslcMix::new(2);
    mixer.channel_mut(0).unwrap().solo = true;
    mixer.channel_mut(0).unwrap().mute = true;
    let a = block(&[1.0, -1.0]);
    let b = block(&[0.5, 0.5]);
    let mut out = vec![9; 2];
    mixer.mix(vec![&a[..], &b[..]], &mut out);
    assert_eq!(out, vec![0, 0]);
}

#[test]
fn master_solo_does_not_arbitrate() {
    let mut mixer = FslcMix::new(2);
    mixer.master.solo = true;
    let a = block(&[0.5]);
    let b = block(&[0.25]);
    let mut out = vec![0; 1];
    mixer.mix(vec![&a[..], &b[..]], &mut out);
    assert_eq!(out, block(&[0.75]));
    assert!(!mixer.channel(0).unwrap().others_solo());
}

#[test]
fn channel_limiter_clamps_and_its_absence_does_not() {
    let mut mixer = FslcMix::new(1);
    mixer.channel_mut(0).unwrap().gain = 2 * ONE;
    let a = block(&[1.0, -1.0, 0.25]);
    let mut out = vec![0; 3];
    mixer.mix(vec![&a[..]], &mut out);
    assert_eq!(out, block(&[2.0, -2.0, 0.5]));

    mixer.channel_mut(0).unwrap().limit = true;
    mixer.mix(vec![&a[..]], &mut out);
    assert_eq!(out, block(&[1.0, -1.0, 0.5]));
}

#[test]
fn master_limiter_clamps_the_sum() {
    let mut mixer = FslcMix::new(2);
    mixer.master.limit = true;
    let a = block(&[1.0, -1.0, 0.25]);
    let b = block(&[0.5, -0.5, 0.25]);
    let mut out = vec![0; 3];
    mixer.mix(vec![&a[..], &b[..]], &mut out);
    assert_eq!(out, block(&[1.0, -1.0, 0.5]));
    assert_eq!(mixer.master.instantaneous_peak(), ONE);
}

#[test]
fn master_gain_follows_normalization() {
    let mut mixer = FslcMix::new(2);
    mixer.normalize = true;
    mixer.master.gain = fx(1.25);
    let a = block(&[1.0, 0.5]);
    let b = block(&[1.0, -0.5]);
    let mut out = vec![0; 2];
    mixer.mix(vec![&a[..], &b[..]], &mut out);
    assert_eq!(out, block(&[1.25, 0.0]));
}

#[test]
fn uniform_channels_normalize_back_to_their_value() {
    for count in 1u8..=6 {
        let mut mixer = FslcMix::new(count);
        mixer.normalize = true;
        let v = fx(0.3);
        let input = vec![v; 5];
        let inputs: Vec<&[i32]> = (0..count).map(|_| &input[..]).collect();
        let mut out = vec![0; 5];
        mixer.mix(inputs, &mut out);
        assert_eq!(out, vec![v; 5]);
        assert_eq!(mixer.master.last_rms() as i64, count as i64 * v as i64);
    }
}

#[test]
fn master_meters_the_bus_and_the_output() {
    let mut mixer = FslcMix::new(2);
    mixer.master.gain = HALF;
    let a = block(&[0.5, 0.5, 0.5, 0.5]);
    let b = block(&[0.5, 0.5, 0.5, 0.5]);
    let mut out = vec![0; 4];
    mixer.mix(vec![&a[..], &b[..]], &mut out);
    assert_eq!(out, vec![HALF; 4]);
    assert_eq!(mixer.master.last_rms(), ONE as u32);
    assert_eq!(mixer.master.instantaneous_peak(), HALF);
    assert_eq!(mixer.master.smoothed_peak(), HALF);
    assert_eq!(mixer.master.last_sample(), HALF);
    assert_eq!(mixer.master.hold_counter(), 4000 - 3);
}

#[test]
fn bus_saturates_at_the_ends_of_the_sample_range() {
    let mut mixer = FslcMix::new(2);
    let a = vec![i32::MAX, i32::MIN];
    let b = vec![i32::MAX, i32::MIN];
    let mut out = vec![0; 2];
    mixer.mix(vec![&a[..], &b[..]], &mut out);
    assert_eq!(out, vec![i32::MAX, i32::MIN]);
}

#[test]
fn mixer_without_channels_puts_out_silence() {
    let mut mixer = FslcMix::new(0);
    mixer.normalize = true;
    let mut out = vec![3; 4];
    mixer.mix(Vec::new(), &mut out);
    assert_eq!(out, vec![0; 4]);
    assert_eq!(mixer.channel_count(), 0);
}

#[test]
fn render_without_the_mixer_is_silence() {
    let a = block(&[1.0, 1.0]);
    let mut out = vec![11, 22];
    render(None, vec![&a[..]], &mut out);
    assert_eq!(out, vec![0, 0]);
}

#[test]
fn render_with_the_mixer_mixes() {
    let mut mixer = FslcMix::new(1);
    let a = block(&[1.0, 0.5]);
    let mut out = vec![11, 22];
    render(Some(&mut mixer), vec![&a[..]], &mut out);
    assert_eq!(out, block(&[1.0, 0.5]));
    assert_eq!(mixer.channel(0).unwrap().instantaneous_peak(), ONE);
}

#[test]
fn clear_overwrites_stale_data() {
    let mut out = vec![1, -2, 3];
    clear(&mut out);
    assert_eq!(out, vec![0, 0, 0]);
    let mut empty: Vec<i32> = Vec::new();
    clear(&mut empty);
    assert!(empty.is_empty());
}

#[test]
fn normalization_of_a_saturated_bus_falls_short() {
    let mut mixer = FslcMix::new(2);
    mixer.normalize = true;
    let a = vec![i32::MAX];
    let mut out = vec![0; 1];
    mixer.mix(vec![&a[..], &a[..]], &mut out);
    assert_eq!(out, vec![i32::MAX / 2]);
}

#[test]
fn stale_output_never_survives() {
    let mut mixer = FslcMix::new(1);
    let a = block(&[0.25, 0.5]);
    let mut first = vec![i32::MAX, i32::MIN];
    let mut second = vec![0, 0];
    mixer.mix(vec![&a[..]], &mut first);
    mixer.mix(vec![&a[..]], &mut second);
    assert_eq!(first, second);
    assert_eq!(first, block(&[0.25, 0.5]));
}

#[test]
fn silenced_inputs_do_not_reach_the_bus() {
    let mut quiet = FslcMix::new(3);
    let mut loud = FslcMix::new(3);
    for mixer in [&mut quiet, &mut loud] {
        mixer.channel_mut(0).unwrap().mute = true;
        mixer.channel_mut(1).unwrap().solo = true;
    }
    let zero = block(&[0.0, 0.0]);
    let noise = block(&[0.9, -0.7]);
    let tone = block(&[0.5, 0.25]);
    let mut out_quiet = vec![0; 2];
    let mut out_loud = vec![0; 2];
    quiet.mix(vec![&zero[..], &tone[..], &zero[..]], &mut out_quiet);
    loud.mix(vec![&noise[..], &tone[..], &noise[..]], &mut out_loud);
    assert_eq!(out_quiet, out_loud);
    assert_eq!(out_loud, tone);
}
