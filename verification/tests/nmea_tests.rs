use pi_kiosk::nmea::{
    coordinate_cut_fails_exec, nmea_line_fails_exec, parse_nmea_line, FixQuality, GpsTracker,
    NmeaMessage,
};

#[test]
fn gga_sentence() {
    let m = parse_nmea_line("$GPGGA,123519,4807.038,N,01131.000,E,1,08,0.9,545.4,M,46.9,M,,*47\r\n");
    match m {
        Some(NmeaMessage::Gga(g)) => {
            assert_eq!(g.time, "123519");
            let lat = g.latitude.unwrap();
            assert_eq!((lat.degrees.as_str(), lat.minutes.as_str(), lat.negative), ("48", "07.038", false));
            let lon = g.longitude.unwrap();
            assert_eq!((lon.degrees.as_str(), lon.minutes.as_str(), lon.negative), ("011", "31.000", false));
            assert_eq!(g.fix_quality, FixQuality::Gps);
            assert_eq!(g.satellite_count, 8);
            assert_eq!(g.altitude.as_deref(), Some("545.4"));
        }
        other => panic!("{:?}", other),
    }
}

#[test]
fn gga_without_fix() {
    match parse_nmea_line("$GNGGA,,,,,,0,00,99.99,,,,,,*56") {
        Some(NmeaMessage::Gga(g)) => {
            assert!(g.latitude.is_none());
            assert!(g.longitude.is_none());
            assert_eq!(g.fix_quality, FixQuality::Invalid);
            assert_eq!(g.satellite_count, 0);
        }
        other => panic!("{:?}", other),
    }
}

#[test]
fn rmc_sentence() {
    match parse_nmea_line("$GPRMC,123519,A,4807.038,N,01131.000,W,022.4,084.4,230394,003.1,W*6A") {
        Some(NmeaMessage::Rmc(r)) => {
            assert!(r.valid);
            assert_eq!(r.time, "123519");
            assert_eq!(r.date, "230394");
            assert!(r.longitude.unwrap().negative);
            assert_eq!(r.speed_knots.as_deref(), Some("022.4"));
            assert_eq!(r.course.as_deref(), Some("084.4"));
        }
        other => panic!("{:?}", other),
    }
}

#[test]
fn gsv_sentence() {
    match parse_nmea_line("$GPGSV,2,1,08,01,40,083,46,02,17,308,41,12,07,344,39,14,22,228,45*75") {
        Some(NmeaMessage::Gsv(g)) => {
            assert_eq!((g.total_messages, g.message_number, g.total_sats), (2, 1, 8));
            let prns: Vec<u32> = g.sats.iter().map(|s| s.prn).collect();
            assert_eq!(prns, vec![1, 2, 12, 14]);
            assert_eq!(g.sats[2].elevation, "07");
            assert_eq!(g.sats[2].azimuth, "344");
            assert_eq!(g.sats[2].snr, "39");
            assert!(!g.sats[0].used);
        }
        other => panic!("{:?}", other),
    }
}

#[test]
fn gsa_sentence() {
    match parse_nmea_line("$GPGSA,A,3,04,05,,09,12,,,24,,,,,2.5,1.3,2.1*39") {
        Some(NmeaMessage::Gsa(g)) => {
            assert_eq!(g.mode, "A");
            assert_eq!(g.fix_type, "3");
            assert_eq!(g.sat_prns, vec![4, 5, 9, 12, 24]);
        }
        other => panic!("{:?}", other),
    }
}

#[test]
fn rejected_lines() {
    assert!(parse_nmea_line("").is_none());
    assert!(parse_nmea_line("GPGGA,1,2*00").is_none());
    assert!(parse_nmea_line("$GPGGA,123519,4807.038").is_none());
    assert!(parse_nmea_line("$GPVTG,054.7,T,034.4,M*48").is_none());
}

#[test]
fn tracker_combines_sentences() {
    let mut t = GpsTracker::new();
    let rmc = parse_nmea_line("$GPRMC,123519,A,4807.038,N,01131.000,E,022.4,084.4,230394,003.1,W*6A").unwrap();
    assert!(t.apply(&rmc));
    assert_eq!(t.fix.as_ref().unwrap().fix_quality, FixQuality::Invalid);
    let gga = parse_nmea_line("$GPGGA,123520,4807.038,N,01131.000,E,2,07,0.9,545.4,M,46.9,M,,*47").unwrap();
    assert!(t.apply(&gga));
    let fix = t.fix.clone().unwrap();
    assert_eq!(fix.fix_quality, FixQuality::Dgps);
    assert_eq!(fix.satellite_count, 7);
    assert_eq!(fix.speed_knots, None);
    assert_eq!(t.satellites_used, 7);
    // A later RMC only updates speed and course.
    let rmc2 = parse_nmea_line("$GPRMC,123521,A,4807.038,N,01131.000,E,010.0,090.0,230394,003.1,W*6A").unwrap();
    assert!(!t.apply(&rmc2));
    let fix = t.fix.clone().unwrap();
    assert_eq!(fix.speed_knots.as_deref(), Some("010.0"));
    assert_eq!(fix.fix_quality, FixQuality::Dgps);
    let gsv = parse_nmea_line("$GPGSV,2,1,11,01,40,083,46*75").unwrap();
    assert!(!t.apply(&gsv));
    assert_eq!(t.satellites_visible, 11);
    let gsa = parse_nmea_line("$GPGSA,A,3,04,05,,09,,,,,,,,,2.5,1.3,2.1*39").unwrap();
    assert!(!t.apply(&gsa));
    assert_eq!(t.satellites_used, 3);
}

#[test]
fn coordinate_cuts() {
    let c = |s: &str| s.chars().collect::<Vec<char>>();
    assert!(!coordinate_cut_fails_exec(&c("4807.038")));
    assert!(!coordinate_cut_fails_exec(&c("")));
    assert!(!coordinate_cut_fails_exec(&c("4807")));
    assert!(coordinate_cut_fails_exec(&c(".")));
    assert!(!coordinate_cut_fails_exec(&c("1.")));
    // Two two-byte characters before the point: the degrees would end inside one.
    assert!(coordinate_cut_fails_exec(&c("éé1.5")));
    assert!(!coordinate_cut_fails_exec(&c("é12.5")));
    assert!(nmea_line_fails_exec("$GPGGA,123519,.,N,01131.000,E,1,08,0.9,545.4,M,46.9,M,,*47"));
    assert!(nmea_line_fails_exec("$GPRMC,123519,A,4807.038,N,.,W,022.4,084.4,230394,003.1,W*6A"));
    assert!(!nmea_line_fails_exec("$GPGGA,123519,4807.038,N,01131.000,E,1,08,0.9,545.4,M,46.9,M,,*47"));
    assert!(!nmea_line_fails_exec("$GPGSV,.,.,.*00"));
    assert!(!nmea_line_fails_exec("garbage"));
}

#[test]
fn tracker_over_a_stream() {
    let lines = [
        "$GPGSV,2,1,09,01,40,083,46*75",
        "$GPGGA,123519,,,,,0,00,,,M,,M,,*47",
        "$GPGSA,A,3,04,05,,09,12,,,,,,,,2.5,1.3,2.1*39",
        "$GPGSV,2,1,12,01,40,083,46*75",
        "$GPGGA,123520,4807.038,N,01131.000,E,1,06,0.9,545.4,M,46.9,M,,*47",
        "$GPVTG,054.7,T,034.4,M*48",
    ];
    let mut t = GpsTracker::new();
    let mut seen_fix = false;
    for l in lines {
        if let Some(m) = parse_nmea_line(l) {
            t.apply(&m);
            seen_fix = seen_fix || t.fix.is_some();
        }
    }
    assert!(seen_fix && t.fix.is_some());
    assert_eq!(t.satellites_visible, 12);
    assert_eq!(t.satellites_used, 6);
    let mut quiet = GpsTracker::new();
    for l in ["$GPGGA,123519,,,,,0,00,,,M,,M,,*47", "$GPVTG,054.7,T,034.4,M*48"] {
        if let Some(m) = parse_nmea_line(l) {
            quiet.apply(&m);
        }
    }
    assert!(quiet.fix.is_none());
    assert_eq!((quiet.satellites_visible, quiet.satellites_used), (0, 0));
}
