use pi_kiosk::modem::{
    probe_step, ProbeStep,
    at_command_line, at_probe_ok, at_reply_complete, diagnostic_commands, diagnostics_report,
    extract_field, modem_index, modemmanager_listed, parse_sms_list, sms_commands,
    status_from_mmcli, status_from_serial, AtSerial, MmcliReplies, ModemManager, SerialReplies,
    StatusReplies,
};

fn s(x: &str) -> Option<String> {
    Some(x.to_string())
}

#[test]
fn at_framing() {
    assert_eq!(at_command_line("AT+CSQ"), "AT+CSQ\r\n");
    assert!(at_reply_complete("+CSQ: 20,99\r\n\r\nOK\r\n"));
    assert!(at_reply_complete("ERROR\r\n"));
    assert!(!at_reply_complete("+CSQ: 20,99\r\n"));
    assert!(at_probe_ok("AT\r\r\nOK\r\n"));
    assert!(!at_probe_ok("ERROR"));
    assert_eq!(AtSerial::new("/dev/ttyUSB2").port_path, "/dev/ttyUSB2");
}

#[test]
fn sms_command_sequence() {
    assert_eq!(
        sms_commands("+15551234", "hello"),
        vec!["AT+CMGF=1".to_string(), "AT+CMGS=\"+15551234\"".to_string(), "hello\u{1A}".to_string()]
    );
}

fn full_serial() -> SerialReplies {
    SerialReplies {
        cpin: s("+CPIN: READY\r\n\r\nOK\r\n"),
        cops: s("+COPS: 0,0,\"Vodafone\",7\r\n\r\nOK\r\n"),
        csq: s("+CSQ: 20,99\r\n\r\nOK\r\n"),
        cops_again: s("+COPS: 0,0,\"Vodafone\",7\r\n\r\nOK\r\n"),
        creg: s("+CREG: 0,5\r\n\r\nOK\r\n"),
        cgact: s("+CGACT: 1,1\r\n\r\nOK\r\n"),
    }
}

#[test]
fn serial_status_full() {
    let st = status_from_serial(&full_serial());
    assert!(st.present);
    assert!(st.sim_ready);
    assert_eq!(st.operator.as_deref(), Some("Vodafone"));
    assert_eq!(st.signal_strength, Some(-73));
    assert_eq!(st.access_technology.as_deref(), Some("LTE"));
    assert!(st.registered);
    assert!(st.connected);
}

#[test]
fn serial_status_unknown_signal_and_failures() {
    let r = SerialReplies {
        cpin: s("+CPIN: SIM PIN\r\nOK\r\n"),
        cops: None,
        csq: s("+CSQ: 99,99\r\nOK\r\n"),
        cops_again: s("+COPS: 0,0,\"X\",2\r\n"),
        creg: s("+CREG: 0,2\r\nOK\r\n"),
        cgact: s("+CGACT: 1,0\r\nOK\r\n"),
    };
    let st = status_from_serial(&r);
    assert!(st.present);
    assert!(!st.sim_ready);
    assert_eq!(st.operator, None);
    assert_eq!(st.signal_strength, None);
    assert_eq!(st.access_technology.as_deref(), Some("UTRAN"));
    assert!(!st.registered);
    assert!(!st.connected);
}

#[test]
fn field_extraction() {
    let report = "  -------------------------\n  3GPP |  operator name: Vodafone UK\n  Status | signal quality: 75% (recent)\n";
    assert_eq!(extract_field(report, "operator name:").as_deref(), Some("Vodafone"));
    assert_eq!(extract_field(report, "signal quality:").as_deref(), Some("75%"));
    assert_eq!(extract_field(report, "access tech:"), None);
    assert_eq!(extract_field("access tech:   \n", "access tech:"), None);
}

#[test]
fn modem_listing() {
    assert_eq!(modem_index("    /org/freedesktop/ModemManager1/Modem/3\n"), Some(3));
    assert_eq!(modem_index("No modems were found\n"), None);
    // The index must end the line.
    assert_eq!(modem_index("/org/freedesktop/ModemManager1/Modem/0 [Quectel] EC25\n"), None);
    assert!(modemmanager_listed(true, "/org/freedesktop/ModemManager1/Modem/0\n"));
    assert!(!modemmanager_listed(true, "  \n"));
    assert!(!modemmanager_listed(false, "x"));
}

#[test]
fn mmcli_status() {
    let report = "  Status |  state: 'connected'\n  3GPP | operator name: Vodafone\n  Status | signal quality: 75% (recent)\n  System | access tech: lte\n";
    let st = status_from_mmcli(&MmcliReplies {
        listing: s("/org/freedesktop/ModemManager1/Modem/0\n"),
        report: s(report),
    });
    assert!(st.present);
    assert!(st.sim_ready);
    assert!(st.registered);
    assert!(st.connected);
    assert_eq!(st.operator.as_deref(), Some("Vodafone"));
    assert_eq!(st.signal_strength, Some(46));
    assert_eq!(st.access_technology.as_deref(), Some("lte"));

    let absent = status_from_mmcli(&MmcliReplies { listing: s("No modems were found\n"), report: None });
    assert!(!absent.present);
    let unread = status_from_mmcli(&MmcliReplies {
        listing: s("/org/freedesktop/ModemManager1/Modem/0\n"),
        report: None,
    });
    assert!(unread.present);
    assert!(!unread.registered);
}

#[test]
fn low_quality_gives_negative_dbm() {
    let st = status_from_mmcli(&MmcliReplies {
        listing: s("/org/freedesktop/ModemManager1/Modem/0\n"),
        report: s("signal quality: 0%\n"),
    });
    assert_eq!(st.signal_strength, Some(-113));
}

#[test]
fn manager_prefers_modemmanager() {
    let mut m = ModemManager::new();
    assert!(!m.uses_serial());
    assert!(!m.detect(false, None));
    assert!(m.detect(true, Some("/dev/ttyUSB2".to_string())));
    assert!(!m.uses_serial());
    assert!(m.detect(false, Some("/dev/ttyUSB2".to_string())));
    assert!(m.uses_serial());
    let st = m.get_status(&StatusReplies::Serial(full_serial()));
    assert_eq!(st.signal_strength, Some(-73));
}

#[test]
fn sms_listing() {
    let reply = "+CMGL: 1,\"REC UNREAD\",\"+15550001\",,\"24/01/01,10:00:00+00\"\r\nHello there\r\n+CMGL: 2,\"REC READ\",\"+15550002\",,\"24/01/02,11:00:00+00\"\r\nSecond\r\n\r\nOK\r\n";
    let msgs = parse_sms_list(reply, 1_704_103_200);
    assert_eq!(msgs.len(), 2);
    assert_eq!(msgs[0].index, 1);
    assert_eq!(msgs[0].sender, "+15550001");
    assert_eq!(msgs[0].body, "Hello there");
    assert_eq!(msgs[1].index, 2);
    assert_eq!(msgs[1].sender, "+15550002");
    assert_eq!(msgs[1].body, "Second");
    assert_eq!((msgs[0].timestamp, msgs[1].timestamp), (1_704_103_200, 1_704_103_200));
    assert!(parse_sms_list("OK\r\n", 0).is_empty());
}

#[test]
fn diagnostics() {
    let cmds = diagnostic_commands();
    assert_eq!(cmds.len(), 12);
    assert_eq!(cmds[0], "ATI");
    assert_eq!(cmds[11], "AT+CGDCONT?");
    let report = diagnostics_report(&vec![
        ("ATI".to_string(), Some("Quectel\r\nOK".to_string())),
        ("AT+CGMM".to_string(), None),
        ("AT+CSQ".to_string(), Some("+CSQ: 20,99".to_string())),
    ]);
    assert_eq!(report, "ATI ->\nQuectel\r\nOK\n\nAT+CSQ ->\n+CSQ: 20,99\n\n");
}

#[test]
fn serial_probe_steps() {
    assert_eq!(probe_step(3, &vec![]), ProbeStep::Probe(0));
    assert_eq!(probe_step(3, &vec![false]), ProbeStep::Probe(1));
    assert_eq!(probe_step(3, &vec![false, true]), ProbeStep::Found(1));
    assert_eq!(probe_step(3, &vec![true]), ProbeStep::Found(0));
    assert_eq!(probe_step(3, &vec![false, false, false]), ProbeStep::NoneFound);
    assert_eq!(probe_step(0, &vec![]), ProbeStep::NoneFound);
}
