use pi_kiosk::privileged::{
    dnsmasq_config, encode_frame, frame_length, hostapd_config, killswitch_rules, nftables_rules,
    plan_request, response_outcome, step_reply, DnsmasqConfig, Encryption, HostapdConfig, NftRule,
    PrivRequest, PrivResponse, Step, StepOutcome, WifiBand,
};

fn ap(encryption: Encryption, hidden: bool) -> HostapdConfig {
    HostapdConfig {
        interface: "wlan0".to_string(),
        ssid: "kiosk".to_string(),
        password: "secret123".to_string(),
        channel: 6,
        band: WifiBand::Band24G,
        encryption,
        country_code: "US".to_string(),
        hidden,
    }
}

#[test]
fn hostapd_wpa2() {
    assert_eq!(
        hostapd_config(&ap(Encryption::Wpa2Psk, false)),
        "interface=wlan0\ndriver=nl80211\nssid=kiosk\nhw_mode=g\nchannel=6\ncountry_code=US\n\
wpa=2\nwpa_passphrase=secret123\nwpa_key_mgmt=WPA-PSK\nrsn_pairwise=CCMP\n"
    );
}

#[test]
fn hostapd_hidden_open_5g() {
    let mut c = ap(Encryption::Open, true);
    c.band = WifiBand::Band5G;
    c.channel = 36;
    assert_eq!(
        hostapd_config(&c),
        "interface=wlan0\ndriver=nl80211\nssid=kiosk\nhw_mode=a\nchannel=36\ncountry_code=US\n\
ignore_broadcast_ssid=1\nauth_algs=1\n"
    );
}

#[test]
fn hostapd_wpa3() {
    assert!(hostapd_config(&ap(Encryption::Wpa3Sae, false)).ends_with(
        "wpa=2\nwpa_passphrase=secret123\nwpa_key_mgmt=WPA-PSK SAE\nrsn_pairwise=CCMP\nsae_require_mfp=1\nieee80211w=2\n"
    ));
}

#[test]
fn dnsmasq_text() {
    let c = DnsmasqConfig {
        interface: "wlan0".to_string(),
        dhcp_range_start: "10.0.0.100".to_string(),
        dhcp_range_end: "10.0.0.200".to_string(),
        lease_time: "12h".to_string(),
        dns_servers: vec!["8.8.8.8".to_string(), "1.1.1.1".to_string()],
    };
    assert_eq!(
        dnsmasq_config(&c),
        "interface=wlan0\nbind-interfaces\ndhcp-range=10.0.0.100,10.0.0.200,12h\nserver=8.8.8.8\nserver=1.1.1.1\n"
    );
}

#[test]
fn nftables_text() {
    let rules = vec![
        NftRule { table: "inet filter".to_string(), chain: "input".to_string(), rule: "accept".to_string() },
        NftRule { table: "ip nat".to_string(), chain: "prerouting".to_string(), rule: "tcp dport 80 dnat to 10.0.0.5".to_string() },
    ];
    assert_eq!(
        nftables_rules(&rules),
        "table inet filter { chain input { accept } }\ntable ip nat { chain prerouting { tcp dport 80 dnat to 10.0.0.5 } }\n"
    );
    assert_eq!(nftables_rules(&[]), "");
}

#[test]
fn killswitch_text() {
    assert_eq!(
        killswitch_rules("wg0"),
        "table inet pi-kiosk-killswitch {\n  chain killswitch {\n    meta oifname != \"wg0\" drop;\n    ip daddr 127.0.0.0/8 accept;\n  }\n}\n"
    );
}

#[test]
fn ping_is_answered_with_pong() {
    let plan = plan_request(&PrivRequest::Ping);
    assert_eq!(plan.len(), 1);
    assert!(matches!(&plan[0], Step::Reply(PrivResponse::Pong)));
}

#[test]
fn hostapd_start_writes_then_restarts() {
    let plan = plan_request(&PrivRequest::HostapdStart { config: ap(Encryption::Open, false) });
    assert_eq!(plan.len(), 2);
    match &plan[0] {
        Step::WriteFile { dir, path, context, .. } => {
            assert_eq!(dir.as_deref(), Some("/etc/hostapd"));
            assert_eq!(path, "/etc/hostapd/hostapd.conf");
            assert_eq!(context, "failed to write hostapd config: ");
        }
        other => panic!("unexpected step {:?}", other),
    }
    match &plan[1] {
        Step::Run { program, args, .. } => {
            assert_eq!(program, "systemctl");
            assert_eq!(args, &vec!["restart".to_string(), "hostapd".to_string()]);
        }
        other => panic!("unexpected step {:?}", other),
    }
}

#[test]
fn default_route_plan() {
    let plan = plan_request(&PrivRequest::SetDefaultRoute {
        interface: "eth0".to_string(),
        gateway: "192.168.1.1".to_string(),
    });
    assert_eq!(plan.len(), 2);
    match &plan[0] {
        Step::RunIgnored { program, args } => {
            assert_eq!(program, "ip");
            assert_eq!(args, &vec!["route".to_string(), "del".to_string(), "default".to_string()]);
        }
        other => panic!("unexpected step {:?}", other),
    }
    match &plan[1] {
        Step::Run { args, .. } => assert_eq!(
            args,
            &["route", "add", "default", "via", "192.168.1.1", "dev", "eth0"]
                .iter()
                .map(|s| s.to_string())
                .collect::<Vec<_>>()
        ),
        other => panic!("unexpected step {:?}", other),
    }
}

#[test]
fn every_plan_runs_only_fixed_programs() {
    let requests = vec![
        PrivRequest::Ping,
        PrivRequest::HostapdStop,
        PrivRequest::DnsmasqStop,
        PrivRequest::NftablesApply { rules: vec![] },
        PrivRequest::WireguardUp { config_path: "; rm -rf /".to_string() },
        PrivRequest::WireguardDown { interface: "wg0".to_string() },
        PrivRequest::OpenvpnUp { config_path: "x".to_string() },
        PrivRequest::OpenvpnDown { interface: "tun0".to_string() },
        PrivRequest::TorStart { config_path: "/etc/tor/torrc".to_string() },
        PrivRequest::TorStop,
        PrivRequest::KillSwitchEnable { interface: "wg0".to_string() },
        PrivRequest::KillSwitchDisable,
        PrivRequest::InterfaceUp { interface: "eth0".to_string() },
        PrivRequest::InterfaceDown { interface: "eth0".to_string() },
    ];
    let allowed = ["systemctl", "nft", "wg-quick", "tor", "pkill", "ip"];
    for r in requests {
        for step in plan_request(&r) {
            match step {
                Step::Run { program, .. } | Step::RunIgnored { program, .. } | Step::Spawn { program, .. } => {
                    assert!(allowed.contains(&program.as_str()), "{}", program)
                }
                _ => {}
            }
        }
    }
}

#[test]
fn step_replies() {
    let write = Step::WriteFile {
        dir: None,
        path: "/x".to_string(),
        contents: String::new(),
        context: "failed to write: ".to_string(),
    };
    assert!(step_reply(&write, &StepOutcome::Done, false).is_none());
    assert!(matches!(step_reply(&write, &StepOutcome::Done, true), Some(PrivResponse::Success)));
    match step_reply(&write, &StepOutcome::Failed("denied".to_string()), false) {
        Some(PrivResponse::Error(m)) => assert_eq!(m, "failed to write: denied"),
        other => panic!("{:?}", other),
    }
    let run = Step::Run {
        program: "nft".to_string(),
        args: vec![],
        launch_context: "failed to run nft: ".to_string(),
        failure_context: "nft apply failed: ".to_string(),
        ok_on_failure: false,
    };
    match step_reply(&run, &StepOutcome::Exited { success: false, stderr: "syntax".to_string() }, true) {
        Some(PrivResponse::Error(m)) => assert_eq!(m, "nft apply failed: syntax"),
        other => panic!("{:?}", other),
    }
    assert!(matches!(
        step_reply(&run, &StepOutcome::Exited { success: true, stderr: String::new() }, true),
        Some(PrivResponse::Success)
    ));
    let pkill = Step::Run {
        program: "pkill".to_string(),
        args: vec![],
        launch_context: "failed to kill tor: ".to_string(),
        failure_context: String::new(),
        ok_on_failure: true,
    };
    assert!(matches!(
        step_reply(&pkill, &StepOutcome::Exited { success: false, stderr: String::new() }, true),
        Some(PrivResponse::Success)
    ));
}

#[test]
fn reply_outcomes() {
    assert_eq!(response_outcome(Ok(PrivResponse::Success)), Ok(()));
    assert_eq!(response_outcome(Ok(PrivResponse::Pong)), Ok(()));
    assert_eq!(response_outcome(Ok(PrivResponse::Error("bad".to_string()))), Err("bad".to_string()));
    assert_eq!(response_outcome(Err("io".to_string())), Err("io".to_string()));
}

#[test]
fn frame_round_trip() {
    let payload = vec![7u8; 300];
    let framed = encode_frame(&payload);
    assert_eq!(&framed[..4], &[0, 0, 1, 44]);
    assert_eq!(frame_length([framed[0], framed[1], framed[2], framed[3]]), 300);
    assert_eq!(&framed[4..], &payload[..]);
    assert_eq!(encode_frame(&[]), vec![0, 0, 0, 0]);
    assert_eq!(frame_length([1, 2, 3, 4]), 0x01020304);
}

#[test]
fn hostapd_lines_follow_settings() {
    for enc in [Encryption::Open, Encryption::Wpa2Psk, Encryption::Wpa3Sae] {
        for hidden in [false, true] {
            for band in [WifiBand::Band24G, WifiBand::Band5G] {
                let mut c = ap(enc, hidden);
                c.band = band;
                let text = hostapd_config(&c);
                let lines: Vec<&str> = text.lines().collect();
                let has = |l: &str| lines.contains(&l);
                assert_eq!(has("hw_mode=a"), band == WifiBand::Band5G);
                assert_eq!(has("hw_mode=g"), band == WifiBand::Band24G);
                assert_eq!(has("ignore_broadcast_ssid=1"), hidden);
                let pass = format!("wpa_passphrase={}", c.password);
                assert_eq!(has(&pass), enc != Encryption::Open);
                assert_eq!(has("sae_require_mfp=1"), enc == Encryption::Wpa3Sae);
                assert_eq!(has("auth_algs=1"), enc == Encryption::Open);
            }
        }
    }
}

#[test]
fn hostapd_lines_with_carriage_returns_in_fields() {
    let mut c = ap(Encryption::Open, true);
    c.ssid = "kiosk\r".to_string();
    c.password = "pw\r".to_string();
    let text = hostapd_config(&c);
    let lines: Vec<&str> = text.lines().collect();
    assert!(lines.contains(&"ssid=kiosk"));
    assert!(lines.contains(&"auth_algs=1"));
    assert!(lines.contains(&"ignore_broadcast_ssid=1"));
    assert!(lines.contains(&"hw_mode=g"));
    assert!(!lines.iter().any(|l| l.starts_with("wpa_passphrase=")));
}
