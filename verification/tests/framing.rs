use fcpe_mlxrs::signal::{copy_range, frame_signal, pad_with, reflect_pad};
use fcpe_mlxrs::spectrogram::{
    fit_frame_count, frame_waveform, frame_waveforms, plan_framing, FramingPlan, HOP_LENGTH, N_FREQS,
    WIN_SIZE,
};

#[test]
fn zero_padding() {
    assert_eq!(pad_with(&[1, 2, 3], 2, 1, 0), vec![0, 0, 1, 2, 3, 0]);
    assert_eq!(pad_with::<i32>(&[], 1, 1, 9), vec![9, 9]);
}

#[test]
fn reflect_padding_does_not_repeat_the_edges() {
    assert_eq!(reflect_pad(&[1, 2, 3, 4, 5], 2, 2), vec![3, 2, 1, 2, 3, 4, 5, 4, 3]);
    assert_eq!(reflect_pad(&[1, 2, 3, 4, 5], 2, 3), vec![3, 2, 1, 2, 3, 4, 5, 4, 3, 2]);
    assert_eq!(reflect_pad(&[1, 2, 3], 0, 0), vec![1, 2, 3]);
    assert_eq!(reflect_pad(&[1, 2, 3], 2, 2), vec![3, 2, 1, 2, 3, 2, 1]);
    assert_eq!(reflect_pad::<i32>(&[], 0, 0), Vec::<i32>::new());
}

#[test]
fn copies_a_range() {
    assert_eq!(copy_range(&[5, 6, 7, 8], 1, 3), vec![6, 7]);
    assert_eq!(copy_range(&[5, 6, 7, 8], 2, 2), Vec::<i32>::new());
}

#[test]
fn frames_overlap_by_window_minus_hop() {
    let x: Vec<i32> = (0..10).collect();
    let frames = frame_signal(&x, 4, 4, 2);
    assert_eq!(frames, vec![vec![0, 1, 2, 3], vec![2, 3, 4, 5], vec![4, 5, 6, 7], vec![6, 7, 8, 9]]);
    assert!(frame_signal(&x, 0, 4, 2).is_empty());
}

#[test]
fn framing_of_one_second_at_16k() {
    assert_eq!(
        plan_framing(16000),
        FramingPlan {
            pad_left: 432,
            pad_right: 432,
            reflect: true,
            padded_len: 16864,
            n_frames: 100,
            target_frames: 101,
        }
    );
}

#[test]
fn short_waveforms_are_padded_with_silence() {
    assert_eq!(
        plan_framing(100),
        FramingPlan {
            pad_left: 432,
            pad_right: 492,
            reflect: false,
            padded_len: 1024,
            n_frames: 1,
            target_frames: 1,
        }
    );
    let p = plan_framing(160);
    assert_eq!(p.pad_right, 432);
    assert!(!p.reflect);
    assert_eq!(p.n_frames, 1);
    assert_eq!(p.target_frames, 2);
    let p = plan_framing(0);
    assert_eq!(p.pad_right, 592);
    assert_eq!(p.padded_len, WIN_SIZE);
    assert_eq!(p.n_frames, 1);
    assert_eq!(p.target_frames, 1);
}

#[test]
fn reflect_padding_starts_past_the_left_pad() {
    let p = plan_framing(432);
    assert!(!p.reflect);
    let p = plan_framing(433);
    assert!(p.reflect);
    assert_eq!(p.n_frames, 2);
    assert_eq!(p.target_frames, 3);
}

#[test]
fn frame_count_plus_fit_gives_one_frame_per_hop() {
    for t in [0usize, 1, 159, 160, 161, 432, 433, 1000, 16000, 99999] {
        let p = plan_framing(t);
        let frames: Vec<Vec<u8>> = (0..p.n_frames).map(|f| vec![f as u8]).collect();
        let fitted = fit_frame_count(frames, p.target_frames);
        assert_eq!(fitted.len(), t / HOP_LENGTH + 1);
    }
}

#[test]
fn frames_of_a_waveform() {
    let x: Vec<i32> = (1..=500).collect();
    let frames = frame_waveform(&x, 0);
    let p = plan_framing(500);
    assert_eq!(frames.len(), p.n_frames);
    assert_eq!(frames[0].len(), WIN_SIZE);
    // Reflect padding: padded sample 431 - i is x[i + 1], so padded 0 is x[432] = 433.
    assert_eq!(frames[0][0], 433);
    assert_eq!(frames[0][430], 3);
    assert_eq!(frames[0][431], 2);
    assert_eq!(frames[0][432], 1);
    // Frame 1 starts 160 samples later: padded 160 is x[272] = 273.
    assert_eq!(frames[1][0], 273);
    // Padded sample 932 + i is x[498 - i]: the last frame ends at padded 1343, x[87] = 88.
    let last = frames[p.n_frames - 1].clone();
    assert_eq!((p.n_frames - 1) * HOP_LENGTH + WIN_SIZE - 1, 1343);
    assert_eq!(last[WIN_SIZE - 1], 88);
    assert_eq!(frames[2][932 - 320], 499);
}

#[test]
fn silence_padding_of_a_short_waveform() {
    let x = vec![7i32; 50];
    let frames = frame_waveform(&x, 0);
    assert_eq!(frames.len(), 1);
    assert_eq!(frames[0][431], 0);
    assert_eq!(frames[0][432], 7);
    assert_eq!(frames[0][481], 7);
    assert_eq!(frames[0][482], 0);
}

#[test]
fn batch_framing_frames_each_row() {
    let batch = vec![vec![1i32; 20], vec![2i32; 600]];
    let frames = frame_waveforms(&batch, 0);
    assert_eq!(frames.len(), 2);
    assert_eq!(frames[0].len(), 1);
    assert_eq!(frames[1].len(), plan_framing(600).n_frames);
    assert_eq!(frames[1][0][0], 2);
}

#[test]
fn fitting_frames() {
    let frames = vec![vec![1, 1], vec![2, 2]];
    assert_eq!(fit_frame_count(frames.clone(), 3), vec![vec![1, 1], vec![2, 2], vec![2, 2]]);
    assert_eq!(fit_frame_count(frames.clone(), 1), vec![vec![1, 1]]);
    assert_eq!(fit_frame_count(frames.clone(), 2), frames);
    assert_eq!(fit_frame_count(frames.clone(), 5).len(), 3);
}

#[test]
fn spectrum_bins() {
    assert_eq!(N_FREQS, 513);
}
