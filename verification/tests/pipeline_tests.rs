use pi_kiosk::pipeline::{
    examines_frame, round_results, runs_person_detection, tamper_outcome, DetectionResults,
};
use pi_kiosk::types::{DetectionKind, TamperKind};

#[test]
fn tamper_findings() {
    assert_eq!(tamper_outcome(Some(TamperKind::FeedLoss), None), Some(TamperKind::FeedLoss));
    assert_eq!(tamper_outcome(Some(TamperKind::FeedLoss), Some(TamperKind::Obstruction)), Some(TamperKind::Obstruction));
    assert_eq!(tamper_outcome(None, Some(TamperKind::SuddenDarkness)), Some(TamperKind::SuddenDarkness));
    assert_eq!(tamper_outcome(None, None), None);
}

#[test]
fn frame_gates() {
    assert!(examines_frame(true, 3));
    assert!(!examines_frame(true, 0));
    assert!(!examines_frame(false, 3));
    assert!(runs_person_detection(true, true, true));
    assert!(!runs_person_detection(false, true, true));
    assert!(!runs_person_detection(true, false, true));
    assert!(!runs_person_detection(true, true, false));
}

#[test]
fn reported_events() {
    let none = DetectionResults { motion: false, person: false, tamper: None, motion_active: false, person_active: false };
    assert!(!none.has_events());
    assert!(none.all_events().is_empty());
    let all = DetectionResults {
        motion: true,
        person: true,
        tamper: Some(TamperKind::CameraMoved),
        motion_active: true,
        person_active: true,
    };
    assert!(all.has_events());
    assert_eq!(all.all_events(), vec![DetectionKind::Tamper, DetectionKind::Motion, DetectionKind::Person]);
    let person_only = DetectionResults { person: true, ..none };
    assert_eq!(person_only.all_events(), vec![DetectionKind::Person]);
}

#[test]
fn round_findings() {
    let r = round_results(Some(TamperKind::FeedLoss), false, Some(TamperKind::Obstruction), true, true, true, true, false, false);
    assert!(!r.motion && !r.person);
    assert_eq!(r.tamper, Some(TamperKind::FeedLoss));
    let r = round_results(None, true, Some(TamperKind::Obstruction), true, true, true, true, true, true);
    assert!(r.motion && r.person && r.motion_active && r.person_active);
    assert_eq!(r.tamper, Some(TamperKind::Obstruction));
    let r = round_results(None, true, None, false, true, true, true, false, false);
    assert!(!r.motion && !r.person && r.tamper.is_none());
    let r = round_results(None, true, None, true, true, false, true, true, false);
    assert!(r.motion && !r.person);
}
