use pi_kiosk::privileged::PrivRequest;
use pi_kiosk::types::{VpnMode, VpnType};
use pi_kiosk::vpn::{
    find_vpn_config, generate_wireguard_config, imported_vpn_config, torrc, vpn_config_path, vpn_start_request, vpn_status,
    vpn_stop_request, wireguard_interface, TorConfig, VpnReadings, WireguardConfig, WireguardPeer,
};

#[test]
fn wireguard_file() {
    let c = WireguardConfig {
        interface_name: "wg0".to_string(),
        private_key: "PRIV".to_string(),
        address: "10.8.0.2/24".to_string(),
        listen_port: Some(51820),
        dns: vec!["1.1.1.1".to_string(), "9.9.9.9".to_string()],
        peers: vec![
            WireguardPeer {
                public_key: "PUB1".to_string(),
                allowed_ips: "0.0.0.0/0".to_string(),
                endpoint: Some("vpn.example.com:51820".to_string()),
                preshared_key: None,
                persistent_keepalive: Some(25),
            },
            WireguardPeer {
                public_key: "PUB2".to_string(),
                allowed_ips: "10.8.0.0/24".to_string(),
                endpoint: None,
                preshared_key: Some("PSK".to_string()),
                persistent_keepalive: None,
            },
        ],
    };
    assert_eq!(
        generate_wireguard_config(&c),
        "[Interface]\nPrivateKey = PRIV\nAddress = 10.8.0.2/24\nListenPort = 51820\nDNS = 1.1.1.1, 9.9.9.9\n\
\n[Peer]\nPublicKey = PUB1\nAllowedIPs = 0.0.0.0/0\nEndpoint = vpn.example.com:51820\nPersistentKeepalive = 25\n\
\n[Peer]\nPublicKey = PUB2\nAllowedIPs = 10.8.0.0/24\nPresharedKey = PSK\n"
    );
    let bare = WireguardConfig { listen_port: None, dns: vec![], peers: vec![], ..c };
    assert_eq!(generate_wireguard_config(&bare), "[Interface]\nPrivateKey = PRIV\nAddress = 10.8.0.2/24\n");
}

#[test]
fn tor_file() {
    let mut c = TorConfig { enabled: true, socks_port: 9050, control_port: 9051, use_bridges: false, bridge_lines: vec!["obfs4 1.2.3.4:443".to_string()] };
    let base = "SocksPort 9050\nControlPort 9051\nDataDirectory /var/lib/pi-kiosk/tor\nRunAsDaemon 1\n";
    assert_eq!(torrc(&c), base);
    c.use_bridges = true;
    assert_eq!(torrc(&c), format!("{}UseBridges 1\nBridge obfs4 1.2.3.4:443\n", base));
    c.bridge_lines.clear();
    assert_eq!(torrc(&c), base);
}

#[test]
fn paths_and_requests() {
    assert_eq!(vpn_config_path("/etc/pi-kiosk/vpn", "abc", VpnType::Wireguard), "/etc/pi-kiosk/vpn/abc.conf");
    assert_eq!(vpn_config_path("/etc/pi-kiosk/vpn", "abc", VpnType::Openvpn), "/etc/pi-kiosk/vpn/abc.ovpn");
    assert_eq!(wireguard_interface("/etc/wireguard/wg-home.conf"), "wg-home");
    assert_eq!(wireguard_interface("/etc/wireguard/tunnel"), "wg0");
    let p = "/etc/pi-kiosk/vpn/abc.conf".to_string();
    assert!(matches!(vpn_start_request(VpnType::Wireguard, &p), PrivRequest::WireguardUp { config_path } if config_path == p));
    assert!(matches!(vpn_stop_request(VpnType::Wireguard, &p), PrivRequest::WireguardDown { interface } if interface == "abc"));
    assert!(matches!(vpn_stop_request(VpnType::Openvpn, &p), PrivRequest::OpenvpnDown { interface } if interface == p));
}

#[test]
fn status_from_readings() {
    let tor = TorConfig { enabled: true, socks_port: 9050, control_port: 9051, use_bridges: false, bridge_lines: vec![] };
    let s = vpn_status(
        &VpnReadings {
            wg_show: Some("interface: wg0\n  public key: X\n".to_string()),
            openvpn_state: Some("inactive\n".to_string()),
            tor_running: Some(true),
            killswitch_listed: Some(true),
        },
        &tor,
    );
    assert!(s.wireguard_active);
    assert_eq!(s.wireguard_interface.as_deref(), Some("interface"));
    assert!(!s.openvpn_active);
    assert!(s.tor_active);
    assert_eq!(s.tor_socks_port, Some(9050));
    assert!(s.kill_switch_active);
    let quiet = vpn_status(
        &VpnReadings { wg_show: Some("  \n".to_string()), openvpn_state: Some("active\n".to_string()), tor_running: None, killswitch_listed: Some(false) },
        &TorConfig { enabled: false, ..tor },
    );
    assert!(!quiet.wireguard_active && quiet.wireguard_interface.is_none());
    assert!(quiet.openvpn_active);
    assert!(!quiet.tor_active && quiet.tor_socks_port.is_none());
    assert!(!quiet.kill_switch_active);
}

#[test]
fn stored_configs() {
    let a = imported_vpn_config("id-1", "home", VpnType::Wireguard, "2024-01-01T00:00:00+00:00");
    assert_eq!(a.config_path, "/etc/pi-kiosk/vpn/id-1.conf");
    assert_eq!(a.mode, VpnMode::Client);
    assert!(!a.enabled && !a.kill_switch);
    let b = imported_vpn_config("id-2", "office", VpnType::Openvpn, "2024-01-02T00:00:00+00:00");
    assert_eq!(b.config_path, "/etc/pi-kiosk/vpn/id-2.ovpn");
    let configs = vec![a, b.clone(), b];
    assert_eq!(find_vpn_config(&configs, "id-2"), Some(1));
    assert_eq!(find_vpn_config(&configs, "id-1"), Some(0));
    assert_eq!(find_vpn_config(&configs, "missing"), None);
}
