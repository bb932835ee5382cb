use pi_kiosk::motion::{
    average_brightness, frame_difference, isqrt_exec, to_grayscale_downscaled, BrightnessLevel,
    MotionDetector, MotionSettings, TamperConfig, TamperDetector,
};
use pi_kiosk::types::TamperKind;

#[test]
fn integer_square_root() {
    assert_eq!(isqrt_exec(0), 0);
    assert_eq!(isqrt_exec(1), 1);
    assert_eq!(isqrt_exec(15), 3);
    assert_eq!(isqrt_exec(16), 4);
    assert_eq!(isqrt_exec(u64::MAX), 4294967295);
}

#[test]
fn grayscale_of_empty_frame_is_black() {
    assert_eq!(to_grayscale_downscaled(&[], 4, 3), vec![0u8; 12]);
}

#[test]
fn grayscale_averages_channels() {
    // 4 pixels read as 2x2.
    let frame = [30u8, 60, 90, 0, 0, 0, 255, 255, 255, 3, 4, 5];
    assert_eq!(to_grayscale_downscaled(&frame, 2, 2), vec![60, 0, 255, 4]);
    // Downscaled to one pixel: the top-left one.
    assert_eq!(to_grayscale_downscaled(&frame, 1, 1), vec![60]);
}

#[test]
fn frame_difference_fraction() {
    assert_eq!(frame_difference(&[0, 10, 255], &[5, 0, 255]), (15, 765));
    assert_eq!(frame_difference(&[1, 2], &[1]), (0, 0));
    assert_eq!(frame_difference(&[], &[]), (0, 0));
}

#[test]
fn brightness_ignores_partial_pixel() {
    assert_eq!(average_brightness(&[]), None);
    assert_eq!(average_brightness(&[1, 2]), None);
    assert_eq!(average_brightness(&[3, 6, 9, 255, 255, 255, 7]), Some((261, 2)));
}

fn settings() -> MotionSettings {
    MotionSettings { enabled: true, cooldown_secs: 30, frame_width: 2, frame_height: 2 }
}

#[test]
fn motion_compares_with_frame_two_back() {
    let mut d = MotionDetector::new(settings());
    let a = [0u8; 12];
    let b = [255u8; 12];
    assert_eq!(d.observe(&a), None);
    assert_eq!(d.observe(&b), None);
    // Third frame compared with the first.
    assert_eq!(d.observe(&b), Some((1020, 1020)));
    // Fourth compared with the second.
    assert_eq!(d.observe(&b), Some((0, 1020)));
}

#[test]
fn motion_cooldown() {
    let mut d = MotionDetector::new(settings());
    let s = 1_000_000_000u64;
    assert!(d.decide(true, 100 * s));
    assert!(d.is_active());
    // Within the cool-down nothing fires and motion stays active.
    assert!(!d.decide(true, 110 * s));
    assert!(d.is_active());
    // Exactly 30 seconds is not more than the cool-down.
    assert!(!d.decide(false, 130 * s));
    assert!(d.is_active());
    // After it, motion ends.
    assert!(!d.decide(false, 131 * s));
    assert!(!d.is_active());
    assert!(d.decide(true, 131 * s));
}

#[test]
fn disabled_motion_ends_activity() {
    let mut d = MotionDetector::new(MotionSettings { enabled: false, ..settings() });
    assert_eq!(d.observe(&[1, 2, 3]), None);
    assert!(!d.is_active());
}

#[test]
fn tamper_brightness() {
    let mut t = TamperDetector::new(TamperConfig::default());
    let s = 1_000_000_000u64;
    assert_eq!(t.check_brightness(&[], BrightnessLevel::Dark, 0), None);
    assert_eq!(t.check_brightness(&[1], BrightnessLevel::Dark, 0), Some(TamperKind::SuddenDarkness));
    assert_eq!(t.check_brightness(&[1], BrightnessLevel::Bright, 29 * s), None);
    assert_eq!(t.check_brightness(&[1], BrightnessLevel::Bright, 30 * s), Some(TamperKind::Obstruction));
    assert_eq!(t.check_brightness(&[1], BrightnessLevel::Normal, 100 * s), None);
}

#[test]
fn feed_loss_after_five_missing_frames() {
    let mut t = TamperDetector::new(TamperConfig { enabled: true, cooldown_secs: 30 });
    for _ in 0..4 {
        assert_eq!(t.check_feed_loss(false, 0), None);
    }
    assert_eq!(t.check_feed_loss(false, 0), Some(TamperKind::FeedLoss));
    // A frame resets the count.
    for _ in 0..4 {
        assert_eq!(t.check_feed_loss(false, 100_000_000_000), None);
    }
    assert_eq!(t.check_feed_loss(true, 100_000_000_000), None);
    for _ in 0..4 {
        assert_eq!(t.check_feed_loss(false, 100_000_000_000), None);
    }
    assert_eq!(t.check_feed_loss(false, 100_000_000_000), Some(TamperKind::FeedLoss));
}
