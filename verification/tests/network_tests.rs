use pi_kiosk::network::{
    default_route, default_route_from, interfaces_from_report, ip_interfaces, neighbors_from,
    hostname_from_getent, interface_from_raw, is_cellular, is_ethernet, is_wifi,
    merge_clients, neighbor_client, neighbor_is_client, parse_leases, parse_link_speed,
    sysfs_interface, wan_ip, wants_link_speed, ConnectedClient, InterfaceInfo, NetworkMonitor,
    RawAddress, RawInterface, RawNeighbor,
};
use pi_kiosk::types::WanSource;

fn iface(name: &str, state: &str, ipv4: Option<&str>) -> InterfaceInfo {
    InterfaceInfo {
        name: name.to_string(),
        state: state.to_string(),
        mac: String::new(),
        ipv4: ipv4.map(|s| s.to_string()),
        ipv6: None,
        link_type: "ether".to_string(),
        speed_mbps: None,
    }
}

#[test]
fn interface_kinds() {
    assert!(is_ethernet("eth0") && is_ethernet("enp1s0"));
    assert!(is_wifi("wlan0") && is_wifi("wlp2s0"));
    assert!(is_cellular("wwan0") && is_cellular("usb0") && is_cellular("my-cellular"));
    assert!(!is_ethernet("wlan0") && !is_wifi("eth0") && !is_cellular("eth0"));
}

#[test]
fn wan_prefers_ethernet() {
    let m = NetworkMonitor::new();
    let w = m.determine_wan_status(
        &[iface("wlan0", "up", Some("10.0.0.2")), iface("eth0", "up", Some("192.168.1.5"))],
        Some("192.168.1.5".to_string()),
        Some("192.168.1.1".to_string()),
    );
    assert_eq!(w.active_source, WanSource::Ethernet);
    assert!(w.online && w.ethernet_up && w.wifi_up && !w.cellular_up);
    assert_eq!(w.gateway.as_deref(), Some("192.168.1.1"));
}

#[test]
fn wan_needs_up_and_address() {
    let m = NetworkMonitor::new();
    let w = m.determine_wan_status(
        &[iface("eth0", "up", None), iface("wlan0", "UP", Some("10.0.0.2")), iface("wwan0", "up", Some("100.64.0.1"))],
        None,
        None,
    );
    assert_eq!(w.active_source, WanSource::Cellular);
    assert!(w.online && !w.ethernet_up && !w.wifi_up && w.cellular_up);
    let none = m.determine_wan_status(&[], None, None);
    assert_eq!(none.active_source, WanSource::Ethernet);
    assert!(!none.online);
}

fn addr(family: &str, local: &str) -> RawAddress {
    RawAddress { family: Some(family.to_string()), local: Some(local.to_string()) }
}

#[test]
fn interface_from_ip_report() {
    let raw = RawInterface {
        ifname: Some("eth0".to_string()),
        operstate: Some("UP".to_string()),
        address: Some("aa:bb:cc:dd:ee:ff".to_string()),
        link_type: Some("ether".to_string()),
        addr_info: Some(vec![
            addr("inet", "192.168.1.5"),
            addr("inet6", "fe80::1"),
            addr("inet6", "2001:db8::5"),
        ]),
    };
    let i = interface_from_raw(&raw, Some(1000)).unwrap();
    assert_eq!(i.name, "eth0");
    assert_eq!(i.state, "UP");
    assert_eq!(i.ipv4.as_deref(), Some("192.168.1.5"));
    assert_eq!(i.ipv6.as_deref(), Some("2001:db8::5"));
    assert_eq!(i.speed_mbps, Some(1000));
    let lo = RawInterface { ifname: Some("lo".to_string()), operstate: None, address: None, link_type: None, addr_info: None };
    assert!(interface_from_raw(&lo, None).is_none());
    let bare = RawInterface { ifname: Some("wlan0".to_string()), operstate: None, address: None, link_type: None, addr_info: None };
    let b = interface_from_raw(&bare, None).unwrap();
    assert_eq!(b.state, "unknown");
    assert_eq!(b.link_type, "unknown");
}

#[test]
fn link_speed() {
    assert!(wants_link_speed("eth0", "UP", "none"));
    assert!(wants_link_speed("enp1s0", "UP", "ether"));
    assert!(!wants_link_speed("eth0", "DOWN", "ether"));
    assert_eq!(parse_link_speed("1000\n"), Some(1000));
    assert_eq!(parse_link_speed("-1\n"), None);
}

#[test]
fn sysfs_fallback() {
    let e = sysfs_interface("eth1", &Some("up".to_string()), &Some("aa:bb".to_string())).unwrap();
    assert_eq!(e.link_type, "ether");
    assert_eq!(e.state, "up");
    let w = sysfs_interface("wlan0", &None, &None).unwrap();
    assert_eq!(w.link_type, "wifi");
    assert_eq!(w.state, "unknown");
    assert!(sysfs_interface("lo", &None, &None).is_none());
}

#[test]
fn wan_address_and_route() {
    let ifaces = vec![
        RawInterface { ifname: Some("wwan0".to_string()), operstate: None, address: None, link_type: None, addr_info: Some(vec![addr("inet", "100.64.0.1")]) },
        RawInterface { ifname: Some("wlan0".to_string()), operstate: None, address: None, link_type: None, addr_info: Some(vec![addr("inet6", "2001::1"), addr("inet", "10.0.0.2")]) },
    ];
    assert_eq!(wan_ip(&ifaces).as_deref(), Some("10.0.0.2"));
    let (ip, gw) = default_route(&Some(vec![Some("192.168.1.1".to_string())]), Some("10.0.0.2".to_string()));
    assert_eq!(ip.as_deref(), Some("10.0.0.2"));
    assert_eq!(gw.as_deref(), Some("192.168.1.1"));
    let (ip, gw) = default_route(&Some(vec![]), Some("10.0.0.2".to_string()));
    assert!(ip.is_none() && gw.is_none());
    let (ip, gw) = default_route(&None, Some("10.0.0.2".to_string()));
    assert!(ip.is_none() && gw.is_none());
}

#[test]
fn leases() {
    let text = "1700000000 aa:bb:cc:00:00:01 10.0.0.101 phone 01:aa\n1700000001 aa:bb:cc:00:00:02 10.0.0.102 * *\nbroken line\n";
    let c = parse_leases(text, 1_700_000_500);
    assert_eq!(c.len(), 2);
    assert!(c.iter().all(|x| x.connected_since == 1_700_000_500));
    assert_eq!((c[0].hostname.as_str(), c[0].mac.as_str(), c[0].ip.as_str(), c[0].interface.as_str()),
        ("phone", "aa:bb:cc:00:00:01", "10.0.0.101", "wlan0"));
    assert_eq!(c[1].hostname, "unknown");
}

fn client(ip: &str, host: &str) -> ConnectedClient {
    ConnectedClient { hostname: host.to_string(), mac: "m".to_string(), ip: ip.to_string(), interface: "wlan0".to_string(), connected_since: 0 }
}

#[test]
fn neighbours_and_merge() {
    let n = RawNeighbor { dst: Some("10.0.0.7".to_string()), lladdr: Some("aa:aa".to_string()), dev: Some("wlan0".to_string()) };
    assert!(neighbor_is_client(&n));
    let zero = RawNeighbor { dst: Some("10.0.0.8".to_string()), lladdr: Some("00:00:00:00:00:00".to_string()), dev: None };
    assert!(!neighbor_is_client(&zero));
    assert_eq!(hostname_from_getent("10.0.0.7      tablet\n").as_deref(), Some("tablet"));
    assert_eq!(hostname_from_getent(""), None);
    let nc = neighbor_client(&n, None, 42);
    assert_eq!(nc.hostname, "unknown");
    assert_eq!(nc.connected_since, 42);
    assert_eq!(nc.ip, "10.0.0.7");

    let merged = merge_clients(
        vec![client("10.0.0.1", "a"), client("10.0.0.2", "b")],
        &vec![client("10.0.0.2", "dup"), client("10.0.0.3", "c"), client("10.0.0.3", "c2")],
    );
    let ips: Vec<&str> = merged.iter().map(|c| c.ip.as_str()).collect();
    assert_eq!(ips, vec!["10.0.0.1", "10.0.0.2", "10.0.0.3"]);
    assert_eq!(merged[1].hostname, "b");
}

#[test]
fn ip_addr_report_read() {
    let out = r#"[{"ifindex":1,"ifname":"lo","operstate":"UNKNOWN","link_type":"loopback","address":"00:00:00:00:00:00","addr_info":[{"family":"inet","local":"127.0.0.1"}]},
{"ifindex":2,"ifname":"eth0","operstate":"UP","link_type":"ether","address":"dc:a6:32:00:00:01","addr_info":[{"family":"inet","local":"192.168.1.20"},{"family":"inet6","local":"fe80::1"},{"family":"inet6","local":"2001:db8::20"}]},
{"ifindex":3,"ifname":"wlan0","operstate":"DOWN","link_type":"ether","address":"dc:a6:32:00:00:02"}]"#;
    let raws = ip_interfaces(out).unwrap();
    assert_eq!(raws.len(), 3);
    assert_eq!(raws[1].ifname.as_deref(), Some("eth0"));
    assert!(raws[2].addr_info.is_none());
    let ifs = interfaces_from_report(&raws, &vec![None, Some(1000), Some(100)]);
    assert_eq!(ifs.len(), 2);
    assert_eq!(ifs[0].name, "eth0");
    assert_eq!(ifs[0].state, "UP");
    assert_eq!(ifs[0].ipv4.as_deref(), Some("192.168.1.20"));
    assert_eq!(ifs[0].ipv6.as_deref(), Some("2001:db8::20"));
    assert_eq!(ifs[0].speed_mbps, Some(1000));
    assert_eq!(ifs[1].name, "wlan0");
    assert_eq!(ifs[1].speed_mbps, None);
    assert!(ip_interfaces("not json").is_none());
    assert!(ip_interfaces("{}").is_none());
}

#[test]
fn default_route_from_reports() {
    let routes = r#"[{"dst":"default","gateway":"192.168.1.1","dev":"eth0"}]"#;
    let addrs = r#"[{"ifname":"lo","addr_info":[{"family":"inet","local":"127.0.0.1"}]},{"ifname":"eth0","addr_info":[{"family":"inet","local":"192.168.1.20"}]}]"#;
    let (ip, gw) = default_route_from(Some(routes), Some(addrs));
    assert_eq!(ip.as_deref(), Some("192.168.1.20"));
    assert_eq!(gw.as_deref(), Some("192.168.1.1"));
    assert_eq!(default_route_from(Some("[]"), Some(addrs)), (None, None));
    assert_eq!(default_route_from(None, Some(addrs)), (None, None));
    assert_eq!(default_route_from(Some("garbage"), Some(addrs)), (None, None));
    let (ip, gw) = default_route_from(Some(routes), None);
    assert_eq!((ip, gw.as_deref()), (None, Some("192.168.1.1")));
}

#[test]
fn neighbors_from_report() {
    let out = r#"[{"dst":"10.0.0.7","dev":"wlan0","lladdr":"aa:bb:cc:dd:ee:ff","state":["REACHABLE"]},
{"dst":"10.0.0.8","dev":"wlan0","lladdr":"00:00:00:00:00:00"},
{"dst":"10.0.0.9","dev":"wlan0","state":["FAILED"]}]"#;
    let ns = neighbors_from(Some(out));
    assert_eq!(ns.len(), 1);
    assert_eq!(ns[0].dst.as_deref(), Some("10.0.0.7"));
    assert_eq!(ns[0].dev.as_deref(), Some("wlan0"));
    assert!(neighbors_from(None).is_empty());
    assert!(neighbors_from(Some("nope")).is_empty());
}
