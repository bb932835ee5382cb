use pi_kiosk::types::{
    alert_action_name, detection_kind_name, parse_alert_action, parse_detection_kind,
    parse_vpn_mode, parse_vpn_type, parse_wan_source, tamper_kind_label, vpn_config_extension,
    vpn_mode_name, vpn_type_name, wan_source_label, wan_source_name, AlertAction, DetectionKind,
    HealthCheckType, TamperKind, VpnMode, VpnType, WanSource,
};

#[test]
fn wan_source_names_round_trip() {
    for s in [WanSource::Ethernet, WanSource::Wifi, WanSource::Cellular] {
        assert_eq!(parse_wan_source(wan_source_name(s)), Some(s));
    }
    assert_eq!(wan_source_name(WanSource::Wifi), "wifi");
    assert_eq!(wan_source_label(WanSource::Wifi), "Wifi");
    assert_eq!(parse_wan_source("  cellular\n"), Some(WanSource::Cellular));
    assert_eq!(parse_wan_source("Ethernet"), None);
}

#[test]
fn stored_kinds_round_trip() {
    for k in [DetectionKind::Motion, DetectionKind::Person, DetectionKind::Tamper] {
        assert_eq!(parse_detection_kind(detection_kind_name(k)), k);
    }
    assert_eq!(parse_detection_kind("unknown"), DetectionKind::Motion);
    for t in [VpnType::Wireguard, VpnType::Openvpn] {
        assert_eq!(parse_vpn_type(vpn_type_name(t)), t);
    }
    assert_eq!(parse_vpn_type("ipsec"), VpnType::Wireguard);
    for m in [VpnMode::Client, VpnMode::Server] {
        assert_eq!(parse_vpn_mode(vpn_mode_name(m)), m);
    }
    assert_eq!(parse_vpn_mode("x"), VpnMode::Client);
    for a in [AlertAction::Ui, AlertAction::Sms, AlertAction::Webhook] {
        assert_eq!(parse_alert_action(alert_action_name(a)), a);
    }
    assert_eq!(parse_alert_action("email"), AlertAction::Ui);
}

#[test]
fn labels() {
    assert_eq!(tamper_kind_label(TamperKind::FeedLoss), "FeedLoss");
    assert_eq!(tamper_kind_label(TamperKind::SuddenDarkness), "SuddenDarkness");
    assert_eq!(vpn_config_extension(VpnType::Openvpn), "ovpn");
    assert_eq!(HealthCheckType::default(), HealthCheckType::Ping);
}
