use pi_kiosk::devices::{
    detect_audio, detect_camera, detect_gps, detect_hardware, detect_modem, detect_poe_hat,
    detect_radio_hardware, detect_serial_ports, list_i2c_devices, list_serial_ports, probe_paths,
    DeviceScan, I2cAdapter,
};
use pi_kiosk::gps::{take_lines, GpsReader};
use pi_kiosk::radio::{detect_radio, radio_command_line, radio_reply_complete, MeshManager, RadioSerial};

fn v(items: &[&str]) -> Vec<String> {
    items.iter().map(|s| s.to_string()).collect()
}

fn scan(present: &[&str], dev: &[&str]) -> DeviceScan {
    DeviceScan {
        present: v(present),
        dev_entries: v(dev),
        spidev_entries: vec![],
        i2c_adapters: vec![],
        asound_cards: None,
    }
}

#[test]
fn probes_cover_all_candidates() {
    let p = probe_paths();
    for x in ["/dev/ttyUSB0", "/dev/ttyUSB2", "/dev/ttyAMA0", "/dev/serial0", "/dev/ttyACM0", "/dev/ttyACM2", "/dev/ttyS0", "/dev/video0"] {
        assert!(p.contains(&x.to_string()), "{}", x);
    }
}

#[test]
fn simple_detections() {
    let s = scan(&["/dev/video0", "/dev/serial0"], &["null", "wwan0", "serial0"]);
    assert!(detect_camera(&s));
    assert!(detect_gps(&s));
    assert!(detect_modem(&s));
    assert!(detect_radio_hardware(&s));
    assert!(!detect_modem(&scan(&["/dev/video0"], &["ttyS0"])));
    assert!(!detect_gps(&scan(&["/dev/ttyUSB0"], &[])));
    // The board's serial port counts for a radio only as listed in /dev.
    assert!(!detect_radio_hardware(&scan(&["/dev/serial0"], &["null"])));
}

#[test]
fn audio_cards() {
    let mut s = scan(&[], &[]);
    assert!(!detect_audio(&s));
    s.asound_cards = Some("  \n".to_string());
    assert!(!detect_audio(&s));
    s.asound_cards = Some(" 0 [Headphones ]: bcm2835\n".to_string());
    assert!(detect_audio(&s));
}

#[test]
fn serial_ports_sorted() {
    let s = scan(&[], &["ttyUSB1", "tty0", "serial0", "ttyAMA0", "ttyACM0", "ttyUSB0"]);
    assert_eq!(list_serial_ports(&s), v(&["/dev/serial0", "/dev/ttyACM0", "/dev/ttyAMA0", "/dev/ttyUSB0", "/dev/ttyUSB1"]));
    assert!(list_serial_ports(&scan(&[], &[])).is_empty());
}

#[test]
fn i2c_devices_and_poe() {
    let mut s = scan(&[], &[]);
    s.i2c_adapters = vec![
        I2cAdapter { name: "i2c-1".to_string(), entries: v(&["-0048", "1-0050", "device"]) },
        I2cAdapter { name: "i2c-0".to_string(), entries: v(&["-51-x"]) },
    ];
    assert_eq!(list_i2c_devices(&s), v(&["i2c-0 @ 0x51", "i2c-1 @ 0x0048"]));
    assert!(detect_poe_hat(&s));
    s.i2c_adapters = vec![I2cAdapter { name: "i2c-1".to_string(), entries: v(&["1-0050"]) }];
    assert!(!detect_poe_hat(&s));
    s.spidev_entries = v(&["spidev0.0"]);
    assert!(detect_radio_hardware(&s));
}

#[test]
fn inventory() {
    let mut s = scan(&["/dev/ttyUSB0", "/dev/video0"], &["ttyUSB0", "video0"]);
    s.asound_cards = Some("card".to_string());
    let inv = detect_hardware(&s);
    assert!(inv.modem_present && inv.camera_present && inv.audio_present);
    assert!(!inv.gps_present && !inv.poe_hat_present && !inv.radio_present);
    assert_eq!(inv.serial_ports, v(&["/dev/ttyUSB0"]));
    assert!(inv.i2c_devices.is_empty());
}

#[test]
fn at_ports() {
    let s = scan(&["/dev/ttyUSB2", "/dev/ttyS0"], &["ttyUSB2", "ttyACM3", "ttyUSB4", "ttyACM3"]);
    assert_eq!(detect_serial_ports(&s), v(&["/dev/ttyUSB2", "/dev/ttyS0", "/dev/ttyACM3", "/dev/ttyUSB4"]));
}

#[test]
fn radio_port() {
    assert_eq!(detect_radio(&scan(&["/dev/ttyUSB1", "/dev/serial0"], &[])).as_deref(), Some("/dev/serial0"));
    assert_eq!(detect_radio(&scan(&[], &["ttyUSB0", "ttyUSB7"])).as_deref(), Some("/dev/ttyUSB7"));
    assert_eq!(detect_radio(&scan(&[], &["ttyS0"])), None);
    let mut m = MeshManager::new();
    assert!(!m.get_status().radio_present);
    assert!(!m.detect(&scan(&[], &[])));
    assert!(m.detect(&scan(&["/dev/ttyACM0"], &[])));
    assert_eq!(m.port.as_deref(), Some("/dev/ttyACM0"));
    let st = m.get_status();
    assert!(st.radio_present && st.node_id.is_none() && st.nodes.is_empty());
    assert_eq!(RadioSerial::new("/dev/ttyAMA0").port_path, "/dev/ttyAMA0");
    assert_eq!(radio_command_line("AT+VER"), "AT+VER\r\n");
    assert!(radio_reply_complete("v1.0\r\n"));
    assert!(!radio_reply_complete("v1.0"));
}

#[test]
fn gps_port() {
    assert_eq!(GpsReader::detect_port(&scan(&["/dev/ttyUSB1", "/dev/ttyACM0"], &[])).as_deref(), Some("/dev/ttyACM0"));
    assert_eq!(GpsReader::detect_port(&scan(&[], &["ttyUSB0", "serial0"])).as_deref(), Some("/dev/serial0"));
    assert_eq!(GpsReader::detect_port(&scan(&[], &["ttyUSB0"])), None);
    assert_eq!(GpsReader::new("/dev/serial0").port_path, "/dev/serial0");
}

#[test]
fn gps_lines() {
    let mut buf = b"$GPGGA,1*00\r\n$GPRMC,2*00\n$GPG".to_vec();
    let lines = take_lines(&mut buf);
    assert_eq!(lines, vec![b"$GPGGA,1*00\r".to_vec(), b"$GPRMC,2*00".to_vec()]);
    assert_eq!(buf, b"$GPG".to_vec());
    let mut empty: Vec<u8> = vec![];
    assert!(take_lines(&mut empty).is_empty());
    assert!(empty.is_empty());
    let mut ends = b"a\n".to_vec();
    assert_eq!(take_lines(&mut ends), vec![b"a".to_vec()]);
    assert!(ends.is_empty());
}
