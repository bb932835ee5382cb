use pi_kiosk::alerts::{capture_interval_ms, push_recent_events, ProbeSchedule};
use pi_kiosk::gps::take_lines;
use pi_kiosk::storage::clip_content_type;
use pi_kiosk::types::{event_icon_text, event_type_text, wan_source_text, wan_text, DetectionKind, WanSource};

#[test]
fn recent_events_newest_first() {
    let mut recent = vec![3, 2, 1];
    push_recent_events(&mut recent, vec![4, 5]);
    assert_eq!(recent, vec![5, 4, 3, 2, 1]);
    let mut full: Vec<u32> = (0..50).collect();
    push_recent_events(&mut full, vec![100, 101]);
    assert_eq!(full.len(), 50);
    assert_eq!(&full[..3], &[101, 100, 0]);
    assert_eq!(full[49], 47);
    let mut none: Vec<u32> = vec![];
    push_recent_events(&mut none, vec![]);
    assert!(none.is_empty());
}

#[test]
fn capture_interval_floor() {
    assert_eq!(capture_interval_ms(500), 500);
    assert_eq!(capture_interval_ms(10), 100);
    assert_eq!(capture_interval_ms(100), 100);
}

#[test]
fn probe_backoff() {
    let mut s = ProbeSchedule::new(6, 10, 60);
    assert_eq!(s.delay_secs, 10);
    assert!(s.failed());
    for _ in 0..5 {
        assert!(!s.failed());
        assert_eq!(s.delay_secs, 10);
    }
    assert!(!s.failed());
    assert_eq!(s.failures, 7);
    assert_eq!(s.delay_secs, 60);
    s.succeeded();
    assert_eq!((s.failures, s.delay_secs), (0, 10));
}

#[test]
fn content_types() {
    assert_eq!(clip_content_type("snap_1.jpg"), "image/jpeg");
    assert_eq!(clip_content_type("clip_1.h264"), "video/h264");
    assert_eq!(clip_content_type("clip_1.mp4"), "video/mp4");
    assert_eq!(clip_content_type("notes"), "application/octet-stream");
}

#[test]
fn display_texts() {
    assert_eq!(event_icon_text(DetectionKind::Person), "P");
    assert_eq!(event_type_text(DetectionKind::Tamper), "Tamper Alert");
    assert_eq!(wan_text(WanSource::Wifi), "Wi-Fi");
    assert_eq!(wan_source_text(WanSource::Ethernet), "Ethernet (PoE)");
    assert_eq!(wan_source_text(WanSource::Cellular), "Cellular (4G)");
}

#[test]
fn lines_rebuild_the_buffer() {
    for input in [&b"a\nb\r\n\nrest"[..], b"", b"\n", b"no newline"] {
        let mut buf = input.to_vec();
        let lines = take_lines(&mut buf);
        let mut joined: Vec<u8> = Vec::new();
        for l in &lines {
            assert!(!l.contains(&b'\n'));
            joined.extend_from_slice(l);
            joined.push(b'\n');
        }
        assert!(!buf.contains(&b'\n'));
        joined.extend_from_slice(&buf);
        assert_eq!(joined, input.to_vec());
    }
}

#[test]
fn wifi_adapter_checks() {
    use_network_checks();
}

fn use_network_checks() {
    assert!(pi_kiosk::network::is_wifi_adapter("wlan1"));
    assert!(!pi_kiosk::network::is_wifi_adapter("eth0"));
    let info = "Interface wlan1\n\ttype managed\n\tchannel 36 (5180 MHz), width: 80 MHz\n";
    assert!(pi_kiosk::network::iw_supports_5g(true, info));
    assert!(!pi_kiosk::network::iw_supports_5g(false, info));
    assert!(!pi_kiosk::network::iw_supports_5g(true, "channel 6 (2437 MHz)"));
    assert!(pi_kiosk::network::iw_supports_ap(true, "type AP\n"));
    assert!(!pi_kiosk::network::iw_supports_ap(true, "type managed\n"));
    assert!(!pi_kiosk::network::iw_supports_ap(false, "type AP\n"));
}

#[test]
fn backup_and_certificate_paths() {
    assert_eq!(
        pi_kiosk::storage::backup_file_path("20240101-120000"),
        "/var/lib/pi-kiosk/backups/kiosk-backup-20240101-120000.db"
    );
    assert_eq!(pi_kiosk::storage::backup_source_path("x.db"), "/var/lib/pi-kiosk/backups/x.db");
    let args = pi_kiosk::config::self_signed_cert_args("pi-kiosk");
    assert_eq!(
        args,
        vec![
            "req", "-x509", "-newkey", "rsa:2048", "-keyout", "/etc/pi-kiosk/tls/pi-kiosk.key", "-out",
            "/etc/pi-kiosk/tls/pi-kiosk.crt", "-days", "365", "-nodes", "-subj", "/CN=pi-kiosk"
        ]
    );
    let tls = pi_kiosk::config::tls_with_self_signed();
    assert!(tls.enabled);
    assert_eq!(tls.cert_path, "/etc/pi-kiosk/tls/pi-kiosk.crt");
}
