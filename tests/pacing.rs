use retro_frontend::pacing::{is_vrr_ready, FrameAction, FramePacer, PacingState};

#[test]
fn vrr_range_with_odd_modes_is_capable() {
    let modes = [48_000u32, 60_000, 75_000, 90_000, 120_000, 144_000];
    assert!(is_vrr_ready(&modes, 59_940));
}

#[test]
fn single_mode_is_not_vrr() {
    assert!(!is_vrr_ready(&[60_000], 59_940));
    assert!(!is_vrr_ready(&[60_000], 60_000));
    assert!(!is_vrr_ready(&[], 60_000));
}

#[test]
fn vrr_needs_content_within_range() {
    let modes = [48_000u32, 144_000];
    assert!(is_vrr_ready(&modes, 100_000));
    assert!(!is_vrr_ready(&modes, 30_000));
    assert!(!is_vrr_ready(&modes, 165_000));
}

#[test]
fn vrr_needs_two_distinct_odd_rates() {
    assert!(!is_vrr_ready(&[59_940, 59_940, 60_000, 120_000], 60_000));
    assert!(is_vrr_ready(&[59_940, 119_880, 60_000], 60_000));
}

#[test]
fn thirty_fps_on_sixty_hz_doubles() {
    let p = PacingState::new(60_000, 30_000, 44_100, false).unwrap();
    assert_eq!(p.swap_interval, 2);
    assert_eq!(p.bfi_factor, 1);
    assert_eq!(p.target_fps_mhz, 60_000);
    assert_eq!(p.effective_sample_rate, 88_200);
    // one real frame of audio at 44.1 kHz, 30 fps: 1470 stereo samples
    assert_eq!(p.resampled_len(1470), 2940);
    assert_eq!(p.frame_interval_us(), 16_666);
}

#[test]
fn vrr_pacing_follows_content() {
    let p = PacingState::new(144_000, 59_940, 48_000, true).unwrap();
    assert_eq!(p.swap_interval, 1);
    assert_eq!(p.bfi_factor, 0);
    assert_eq!(p.target_fps_mhz, 59_940);
    assert_eq!(p.effective_sample_rate, 48_000);
    assert_eq!(p.resampled_len(800), 800);
}

#[test]
fn near_rate_content_gets_no_bfi() {
    let p = PacingState::new(60_000, 59_940, 48_000, false).unwrap();
    assert_eq!(p.swap_interval, 1);
    assert_eq!(p.bfi_factor, 0);
    assert_eq!(p.effective_sample_rate, 48_048);
}

#[test]
fn quarter_rate_rounds() {
    let p = PacingState::new(240_000, 60_000, 48_000, false).unwrap();
    assert_eq!(p.swap_interval, 4);
    assert_eq!(p.bfi_factor, 3);
    let p = PacingState::new(60_000, 25_000, 48_000, false).unwrap();
    assert_eq!(p.swap_interval, 2);
    let p = PacingState::new(60_000, 24_000, 48_000, false).unwrap();
    assert_eq!(p.swap_interval, 3);
}

#[test]
fn zero_rates_have_no_pacing() {
    assert!(PacingState::new(0, 60_000, 48_000, false).is_none());
    assert!(PacingState::new(60_000, 0, 48_000, true).is_none());
}

#[test]
fn bfi_three_repeats_without_drift() {
    let mut pacer = FramePacer::new(3);
    for cycle in 0..25u32 {
        assert_eq!(pacer.tick(), FrameAction::RealFrame);
        let color = 0xFF00_0000 | cycle;
        pacer.record_real_frame(color);
        for _ in 0..3 {
            assert_eq!(pacer.tick(), FrameAction::SyntheticFrame(color));
        }
    }
}

#[test]
fn bfi_zero_is_always_real() {
    let mut pacer = FramePacer::new(0);
    for _ in 0..10 {
        assert_eq!(pacer.tick(), FrameAction::RealFrame);
    }
}

#[test]
fn synthetic_frames_start_black() {
    let mut pacer = FramePacer::new(1);
    assert_eq!(pacer.tick(), FrameAction::RealFrame);
    assert_eq!(pacer.tick(), FrameAction::SyntheticFrame(0xFF00_0000));
}
