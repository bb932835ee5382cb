use pi_kiosk::camera::{
    camera_status, clip_filename, record_args, snapshot_args, snapshot_filename, stream_args,
    recording_target, snapshot_target, MjpegStream, RecordError,
};
use pi_kiosk::config::{
    default_camera_config, default_failover_config, default_network_config,
    default_storage_config, CellularConfig, Encryption, WifiBand, WifiMode,
};
use pi_kiosk::types::{HealthCheckType, WanSource};

#[test]
fn camera_status_follows_processes() {
    let c = default_camera_config();
    let s = camera_status(&c, false, true);
    assert!(s.online && !s.recording && !s.night_vision);
    assert_eq!(s.resolution, (1280, 720));
    assert_eq!(s.fps, 15);
    assert!(!camera_status(&c, false, false).online);
    assert!(camera_status(&c, true, false).online);
}

#[test]
fn command_lines() {
    let c = default_camera_config();
    assert_eq!(
        stream_args(&c),
        vec!["--inline", "--codec", "mjpeg", "--width", "1280", "--height", "720", "--framerate", "15", "--timeout", "0", "--nopreview", "-o", "-"]
    );
    assert_eq!(MjpegStream::command_args(&c), stream_args(&c));
    assert_eq!(
        record_args(&c, "/clips/clip_1.h264"),
        vec!["--codec", "h264", "--width", "1280", "--height", "720", "--framerate", "15", "--timeout", "0", "--nopreview", "--inline", "-o", "/clips/clip_1.h264"]
    );
    assert_eq!(
        snapshot_args(&c, "/clips/snap.jpg"),
        vec!["--width", "1280", "--height", "720", "--nopreview", "-o", "/clips/snap.jpg"]
    );
    assert_eq!(clip_filename("/var/clips", "20240101_120000"), "/var/clips/clip_20240101_120000.h264");
    assert_eq!(snapshot_filename("/var/clips", "20240101_120000"), "/var/clips/snap_20240101_120000.jpg");
}

#[test]
fn defaults() {
    let cell = CellularConfig::default();
    assert_eq!(cell.apn, "internet");
    assert_eq!(cell.interface, "wwan0");
    assert!(!cell.auto_connect);
    let f = default_failover_config();
    assert!(f.enabled);
    assert_eq!(f.priority, vec![WanSource::Ethernet, WanSource::Wifi, WanSource::Cellular]);
    assert_eq!(f.health_check_interval_s, 10);
    assert_eq!(f.health_check_target, "1.1.1.1");
    assert_eq!(f.health_check_type, HealthCheckType::Ping);
    let s = default_storage_config();
    assert_eq!((s.clip_dir.as_str(), s.max_retention_days, s.max_disk_usage_pct), ("/var/lib/pi-kiosk/clips", 7, 85));
    let n = default_network_config();
    assert_eq!(n.wifi_mode, WifiMode::Ap);
    assert_eq!(n.band, WifiBand::Band24G);
    assert_eq!(n.encryption, Encryption::Wpa2Psk);
    assert_eq!(n.channel, 6);
    assert_eq!(n.dns_servers, vec!["8.8.8.8", "1.1.1.1"]);
}

#[test]
fn recording_refused_while_recording() {
    // 2024-01-01 10:10:10 UTC.
    assert_eq!(recording_target(false, "/clips", 1_704_103_810).unwrap(), "/clips/clip_20240101_101010.h264");
    let e = recording_target(true, "/clips", 1_704_103_810).unwrap_err();
    assert_eq!(e, RecordError::AlreadyRecording);
    assert_eq!(e.message(), "already recording");
}

#[test]
fn snapshot_file_stamped() {
    assert_eq!(snapshot_target("/clips", 0), "/clips/snap_19700101_000000.jpg");
    assert_eq!(snapshot_target("/c", 1_704_103_810), "/c/snap_20240101_101010.jpg");
}
