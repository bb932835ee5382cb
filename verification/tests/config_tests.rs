use pi_kiosk::config::{
    default_network_config, network_config_from_form, new_firewall_rule, Encryption, WifiBand,
    WifiForm, WifiMode,
};

#[test]
fn wifi_form_keeps_loaded_fields() {
    let mut loaded = default_network_config();
    loaded.country_code = "DE".to_string();
    loaded.lease_time = "12h".to_string();
    loaded.dns_servers = vec!["9.9.9.9".to_string()];
    let form = WifiForm {
        wifi_mode: WifiMode::Client,
        ssid: "home".to_string(),
        password: "pw123456".to_string(),
        channel: 36,
        band: WifiBand::Band5G,
        encryption: Encryption::Wpa3Sae,
        hidden: true,
        ap_interface: "wlan1".to_string(),
        dhcp_range_start: "10.1.0.10".to_string(),
        dhcp_range_end: "10.1.0.20".to_string(),
    };
    let c = network_config_from_form(form, loaded);
    assert_eq!(c.wifi_mode, WifiMode::Client);
    assert_eq!((c.ssid.as_str(), c.password.as_str(), c.channel), ("home", "pw123456", 36));
    assert_eq!((c.band, c.encryption, c.hidden), (WifiBand::Band5G, Encryption::Wpa3Sae, true));
    assert_eq!(c.ap_interface, "wlan1");
    assert_eq!((c.dhcp_range_start.as_str(), c.dhcp_range_end.as_str()), ("10.1.0.10", "10.1.0.20"));
    assert_eq!((c.country_code.as_str(), c.lease_time.as_str()), ("DE", "12h"));
    assert_eq!(c.dns_servers, vec!["9.9.9.9".to_string()]);
}

#[test]
fn firewall_rule_from_form() {
    let r = new_firewall_rule("id1", "web", "tcp", "", "10.0.0.5", "80", "2024-01-01T00:00:00+00:00").unwrap();
    assert_eq!((r.id.as_str(), r.name.as_str(), r.proto.as_str()), ("id1", "web", "tcp"));
    assert_eq!(r.src_port, None);
    assert_eq!((r.dest_ip.as_str(), r.dest_port.as_str()), ("10.0.0.5", "80"));
    assert!(r.enabled);
    assert_eq!(r.created_at, "2024-01-01T00:00:00+00:00");
    let s = new_firewall_rule("id2", "ssh", "tcp", "2222", "10.0.0.6", "22", "t").unwrap();
    assert_eq!(s.src_port.as_deref(), Some("2222"));
    assert!(new_firewall_rule("i", "", "tcp", "", "10.0.0.5", "80", "t").is_none());
    assert!(new_firewall_rule("i", "n", "tcp", "", "", "80", "t").is_none());
    assert!(new_firewall_rule("i", "n", "tcp", "", "10.0.0.5", "", "t").is_none());
}
