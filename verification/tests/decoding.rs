use fcpe_mlxrs::decode::{local_window, parse_decoder_mode, DecoderMode, LOCAL_WINDOW};
use fcpe_mlxrs::voicing::{fill_unvoiced, voicing_anchors};

#[test]
fn window_in_the_middle_is_centred() {
    assert_eq!(local_window(100, 360), vec![96, 97, 98, 99, 100, 101, 102, 103, 104]);
}

#[test]
fn window_is_clamped_at_both_ends() {
    assert_eq!(local_window(0, 360), vec![0, 0, 0, 0, 0, 1, 2, 3, 4]);
    assert_eq!(local_window(2, 360), vec![0, 0, 0, 1, 2, 3, 4, 5, 6]);
    assert_eq!(local_window(359, 360), vec![355, 356, 357, 358, 359, 359, 359, 359, 359]);
    assert_eq!(local_window(1, 3), vec![0, 0, 0, 0, 1, 2, 2, 2, 2]);
    assert_eq!(local_window(0, 1), vec![0; LOCAL_WINDOW]);
}

#[test]
fn decoder_names() {
    assert_eq!(parse_decoder_mode("local_argmax"), Some(DecoderMode::LocalArgmax));
    assert_eq!(parse_decoder_mode("argmax"), None);
    assert_eq!(parse_decoder_mode("local_argmaX"), None);
    assert_eq!(parse_decoder_mode("local_argmax "), None);
    assert_eq!(parse_decoder_mode(""), None);
}

#[test]
fn anchors_of_a_track() {
    let uv = [true, false, true, true, false, true];
    let anchors = voicing_anchors(&uv);
    assert_eq!(anchors, vec![(1, 1), (1, 1), (1, 4), (1, 4), (4, 4), (4, 4)]);
}

#[test]
fn anchors_without_voiced_frames() {
    let uv = [true, true, true];
    assert_eq!(voicing_anchors(&uv), vec![(0, 2), (0, 2), (0, 2)]);
    assert!(voicing_anchors(&[]).is_empty());
}

#[test]
fn anchors_of_an_all_voiced_track() {
    let uv = [false, false, false];
    assert_eq!(voicing_anchors(&uv), vec![(0, 0), (1, 1), (2, 2)]);
}

#[test]
fn unvoiced_frames_are_interpolated_voiced_kept() {
    let f0 = [0.0f32, 100.0, 0.0, 0.0, 200.0, 0.0];
    let uv = [true, false, true, true, false, true];
    let out = fill_unvoiced(&f0, &uv, |a: f32, b: f32, x: usize, l: usize, r: usize| -> f32 {
        let dx = (r as f32 - l as f32).max(1e-8);
        let ratio = ((x as f32 - l as f32) / dx).min(1.0).max(0.0);
        a + (b - a) * ratio
    });
    let expected = [100.0f32, 100.0, 133.33333, 166.66667, 200.0, 200.0];
    assert_eq!(out.len(), expected.len());
    for (got, want) in out.iter().zip(expected.iter()) {
        assert!((got - want).abs() < 1e-3, "{} vs {}", got, want);
    }
}

#[test]
fn interpolation_receives_anchor_values() {
    let f0 = [10, 20, 30, 40];
    let uv = [false, true, false, true];
    let out = fill_unvoiced(&f0, &uv, |a: i32, b: i32, x: usize, l: usize, r: usize| -> i32 {
        a * 1000 + b + (x * 100 + l * 10 + r) as i32 * 100000
    });
    assert_eq!(out, vec![10, 10030 + 10200000, 30, 30030 + 32200000]);
}

#[test]
fn unvoiced_frames_use_their_nearest_voiced_neighbours() {
    let uv = [false, true, false, true, false];
    assert_eq!(voicing_anchors(&uv), vec![(0, 0), (0, 2), (2, 2), (2, 4), (4, 4)]);
    let f0 = [100.0f32, 0.0, 200.0, 0.0, 400.0];
    let out = fill_unvoiced(&f0, &uv, |a: f32, b: f32, x: usize, l: usize, r: usize| -> f32 {
        let dx = (r as f32 - l as f32).max(1e-8);
        let ratio = ((x as f32 - l as f32) / dx).min(1.0).max(0.0);
        a + (b - a) * ratio
    });
    assert_eq!(out, vec![100.0, 150.0, 200.0, 300.0, 400.0]);
}
