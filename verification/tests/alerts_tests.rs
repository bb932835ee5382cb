use pi_kiosk::alerts::{
    alert_due, dispatch_status, event_label, new_events_window, rule_applies, test_alert_message,
};
use pi_kiosk::types::{AlertAction, DetectionKind};

#[test]
fn labels_and_rules() {
    assert_eq!(event_label(DetectionKind::Motion), "detection:motion");
    assert_eq!(event_label(DetectionKind::Tamper), "detection:tamper");
    assert!(rule_applies("detection:motion", "detection:motion"));
    assert!(rule_applies("*", "detection:person"));
    assert!(!rule_applies("detection:person", "detection:motion"));
}

#[test]
fn cooldowns() {
    assert!(alert_due(None, 60));
    assert!(alert_due(Some(60), 60));
    assert!(!alert_due(Some(59), 60));
    assert!(!alert_due(Some(-5), 0));
}

#[test]
fn event_windows() {
    assert_eq!(new_events_window(0, 0), (None, 0));
    assert_eq!(new_events_window(0, 3), (Some((0, 3)), 3));
    assert_eq!(new_events_window(3, 5), (Some((3, 5)), 5));
    assert_eq!(new_events_window(5, 2), (None, 2));
}

#[test]
fn dispatch() {
    assert_eq!(dispatch_status(AlertAction::Ui, false, false), "sent");
    assert_eq!(dispatch_status(AlertAction::Sms, false, true), "failed");
    assert_eq!(dispatch_status(AlertAction::Sms, true, false), "sent");
    assert_eq!(dispatch_status(AlertAction::Webhook, true, false), "failed");
    assert_eq!(dispatch_status(AlertAction::Webhook, true, true), "sent");
    assert_eq!(test_alert_message("detection:motion"), "Test notification for rule: detection:motion");
}
