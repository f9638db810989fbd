use fcpe_mlxrs::gpu::{plan_threadgroup, ThreadgroupPlan};
use fcpe_mlxrs::rates::gcd;
use fcpe_mlxrs::resample::{plan_resample, resample_in_range, resample_with, ResamplePlan};

#[test]
fn gcd_of_common_rates() {
    assert_eq!(gcd(44100, 16000), 100);
    assert_eq!(gcd(16000, 44100), 100);
    assert_eq!(gcd(22050, 16000), 50);
    assert_eq!(gcd(7, 0), 7);
    assert_eq!(gcd(0, 9), 9);
    assert_eq!(gcd(17, 5), 1);
}

#[test]
fn equal_rates_need_no_plan() {
    assert_eq!(plan_resample(1000, 16000, 16000), None);
}

#[test]
fn plan_for_cd_audio_to_16k() {
    let p = plan_resample(44100, 44100, 16000).unwrap();
    assert_eq!(
        p,
        ResamplePlan {
            orig_freq: 441,
            new_freq: 160,
            width: 357,
            kernel_len: 1155,
            pad_left: 357,
            pad_right: 798,
            padded_len: 45255,
            output_len: 101,
            target_len: 16000,
        }
    );
}

#[test]
fn plan_for_upsampling() {
    let p = plan_resample(10, 8000, 16000).unwrap();
    assert_eq!(p.orig_freq, 1);
    assert_eq!(p.new_freq, 2);
    assert_eq!(p.width, 130);
    assert_eq!(p.kernel_len, 261);
    assert_eq!(p.padded_len, 271);
    assert_eq!(p.output_len, 11);
    assert_eq!(p.target_len, 20);
}

#[test]
fn plan_for_22050_to_16000() {
    let p = plan_resample(22050, 22050, 16000).unwrap();
    assert_eq!(p.orig_freq, 441);
    assert_eq!(p.new_freq, 320);
    assert_eq!(p.width, 179);
    assert_eq!(p.target_len, 16000);
    assert_eq!(p.output_len, 51);
}

#[test]
fn output_length_is_rounded_up() {
    // 3 samples at 3 Hz to 2 Hz: ceil(2 * 3 / 3) = 2; 4 samples: ceil(8 / 3) = 3.
    assert_eq!(plan_resample(3, 3, 2).unwrap().target_len, 2);
    assert_eq!(plan_resample(4, 3, 2).unwrap().target_len, 3);
    assert_eq!(plan_resample(0, 3, 2).unwrap().target_len, 0);
}

#[test]
fn range_check_accepts_ordinary_inputs() {
    assert!(resample_in_range(44100, 44100, 16000));
    assert!(resample_in_range(0, 16000, 16000));
    assert!(!resample_in_range(usize::MAX - 10, 44100, 16000));
}

#[test]
fn equal_rates_return_the_input() {
    let input = vec![1i64, 2, 3];
    let out = resample_with(&input, 16000, 16000, 0, |_w: &[i64], _p: usize| -> i64 { 99 });
    assert_eq!(out, input);
}

#[test]
fn each_output_sample_sees_its_window_and_phase() {
    // 8 kHz to 16 kHz: two phases, the window advances one input sample per two outputs.
    let input: Vec<i64> = (1..=10).collect();
    let out = resample_with(&input, 8000, 16000, 0, |w: &[i64], phase: usize| -> i64 {
        assert_eq!(w.len(), 261);
        w.iter().sum::<i64>() * 10 + phase as i64
    });
    assert_eq!(out.len(), 20);
    // Output 0: window of padded samples 0..261, which holds the whole input (55).
    assert_eq!(out[0], 550);
    assert_eq!(out[1], 551);
    // Output 2k uses padded samples k..k+261: the input starts at padded 130 and
    // ends at 139, so every window of the first ten positions holds all of it.
    assert_eq!(out[18], 550);
    assert_eq!(out[19], 551);
}

#[test]
fn windows_slide_by_the_reduced_input_rate() {
    // 3 Hz to 2 Hz: windows start at 0, 3, 6 and alternate phases 0 and 1.
    let input: Vec<i64> = (0..9).map(|i| i * 100).collect();
    let p = plan_resample(9, 3, 2).unwrap();
    let out = resample_with(&input, 3, 2, -1, |w: &[i64], phase: usize| -> i64 {
        assert_eq!(w.len(), p.kernel_len);
        w[0] * 10 + phase as i64
    });
    assert_eq!(out.len(), p.target_len);
    assert_eq!(out.len(), 6);
    // The first window starts in the left padding.
    assert_eq!(out[0], -10);
    assert_eq!(out[1], -9);
    // Window 1 starts 3 padded samples later, still in the padding of width p.width.
    assert!(p.width > 6);
    assert_eq!(out[2], -10);
    assert_eq!(out[3], -9);
}

#[test]
fn threadgroups_for_cd_audio() {
    let t = plan_threadgroup(1155, 441);
    assert_eq!(t, ThreadgroupPlan { tg_size: 16, shared_len: 7770, shared_mem_bytes: 31080 });
}

#[test]
fn threadgroups_are_capped_and_never_empty() {
    let t = plan_threadgroup(100, 1);
    assert_eq!(t.tg_size, 256);
    assert_eq!(t.shared_len, 355);
    let t = plan_threadgroup(8192, 7);
    assert_eq!(t.tg_size, 1);
    assert_eq!(t.shared_len, 8192);
    assert_eq!(t.shared_mem_bytes, 32768);
}

#[test]
fn equal_zero_rates_return_the_input() {
    assert_eq!(plan_resample(5, 0, 0), None);
    assert!(resample_in_range(5, 0, 0));
    let input = vec![4i64, 5];
    assert_eq!(resample_with(&input, 0, 0, 0, |_w: &[i64], _p: usize| -> i64 { 1 }), input);
}

#[test]
fn only_the_rate_ratio_matters() {
    assert_eq!(plan_resample(1000, 88200, 32000), plan_resample(1000, 44100, 16000));
    assert_eq!(plan_resample(77, 3 * 8000, 3 * 22050), plan_resample(77, 8000, 22050));
}

#[test]
fn delaying_the_input_delays_the_output() {
    let x: Vec<i64> = (1..=40).map(|i| i * i).collect();
    let p = plan_resample(x.len(), 3, 2).unwrap();
    let mut z = vec![0i64; p.orig_freq];
    z.extend_from_slice(&x);
    let tap = |w: &[i64], phase: usize| -> i64 {
        w.iter().enumerate().map(|(k, v)| v * (k as i64 + 1)).sum::<i64>() * 2 + phase as i64
    };
    let rx = resample_with(&x, 3, 2, 0, tap);
    let rz = resample_with(&z, 3, 2, 0, tap);
    assert_eq!(rz.len(), rx.len() + p.new_freq);
    assert_eq!(&rz[p.new_freq..], &rx[..]);
}

#[test]
fn scaled_rates_give_the_same_samples() {
    let x: Vec<i64> = (0..30).map(|i| (i * 7) % 11 - 5).collect();
    let tap = |w: &[i64], phase: usize| -> i64 {
        w.iter().enumerate().map(|(k, v)| v * (k as i64 % 5 - 2)).sum::<i64>() * 3 + phase as i64
    };
    let base = resample_with(&x, 3, 2, 0, tap);
    let scaled = resample_with(&x, 3 * 4000, 2 * 4000, 0, tap);
    assert!(!base.is_empty());
    assert_eq!(scaled, base);
}
