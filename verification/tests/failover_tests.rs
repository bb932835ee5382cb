use pi_kiosk::failover::{
    failover_candidates, failover_reason, failover_route, health_probe, manual_failover_reason,
    failover_step, source_up, switch_requests, switched_wan, FailoverStep, HealthProbe,
};
use pi_kiosk::network::WanStatus;
use pi_kiosk::privileged::PrivRequest;
use pi_kiosk::types::{HealthCheckType, WanSource};

fn wan(active: WanSource, eth: bool, wifi: bool) -> WanStatus {
    WanStatus {
        active_source: active,
        online: false,
        ethernet_up: eth,
        wifi_up: wifi,
        cellular_up: false,
        ip_address: None,
        gateway: Some("192.168.1.1".to_string()),
    }
}

#[test]
fn candidates_skip_current_and_down() {
    let prio = vec![WanSource::Ethernet, WanSource::Wifi, WanSource::Cellular];
    let w = wan(WanSource::Ethernet, true, true);
    assert_eq!(failover_candidates(&prio, &w, true, true), vec![WanSource::Wifi, WanSource::Cellular]);
    assert_eq!(failover_candidates(&prio, &w, true, false), vec![WanSource::Wifi]);
    let w2 = wan(WanSource::Wifi, false, true);
    assert_eq!(failover_candidates(&prio, &w2, false, false), vec![]);
    assert!(source_up(WanSource::Cellular, &w2, true, true));
    assert!(!source_up(WanSource::Ethernet, &w2, true, true));
}

#[test]
fn routes_and_requests() {
    let gw = Some("192.168.1.1".to_string());
    assert_eq!(failover_route(WanSource::Ethernet, &gw, "wwan0"), ("eth0".to_string(), "192.168.1.1".to_string()));
    assert_eq!(failover_route(WanSource::Wifi, &None, "wwan0"), ("wlan0".to_string(), String::new()));
    assert_eq!(failover_route(WanSource::Cellular, &gw, "wwan0"), ("wwan0".to_string(), String::new()));
    let reqs = switch_requests(WanSource::Wifi, &gw, "wwan0");
    assert_eq!(reqs.len(), 2);
    assert!(matches!(&reqs[0], PrivRequest::InterfaceUp { interface } if interface == "wlan0"));
    assert!(matches!(&reqs[1], PrivRequest::SetDefaultRoute { interface, gateway } if interface == "wlan0" && gateway == "192.168.1.1"));
    let cell = switch_requests(WanSource::Cellular, &gw, "wwan0");
    assert_eq!(cell.len(), 1);
}

#[test]
fn reasons() {
    assert_eq!(failover_reason(WanSource::Ethernet, WanSource::Wifi), "health check failed on Ethernet, switched to Wifi");
    assert_eq!(manual_failover_reason(WanSource::Wifi, WanSource::Cellular), "manual failover from Wifi to Cellular");
}

#[test]
fn switched_state() {
    let w = switched_wan(wan(WanSource::Ethernet, false, true), WanSource::Wifi);
    assert_eq!(w.active_source, WanSource::Wifi);
    assert!(w.online && !w.ethernet_up && w.wifi_up);
    assert_eq!(w.gateway.as_deref(), Some("192.168.1.1"));
}

#[test]
fn health_checks() {
    match health_probe(HealthCheckType::Ping, "1.1.1.1") {
        HealthProbe::Command { program, args } => {
            assert_eq!(program, "ping");
            assert_eq!(args, vec!["-c", "1", "-W", "3", "1.1.1.1"]);
        }
        _ => panic!(),
    }
    match health_probe(HealthCheckType::Dns, "example.com") {
        HealthProbe::Command { program, args } => {
            assert_eq!(program, "nslookup");
            assert_eq!(args, vec!["example.com", "127.0.0.1"]);
        }
        _ => panic!(),
    }
    match health_probe(HealthCheckType::Http, "1.1.1.1") {
        HealthProbe::Http { url } => assert_eq!(url, "http://1.1.1.1/"),
        _ => panic!(),
    }
    match health_probe(HealthCheckType::Http, "https://example.com/health") {
        HealthProbe::Http { url } => assert_eq!(url, "https://example.com/health"),
        _ => panic!(),
    }
}

#[test]
fn failover_steps() {
    let c = vec![WanSource::Wifi, WanSource::Cellular];
    assert_eq!(failover_step(false, false, &c, &vec![]), FailoverStep::Wait);
    assert_eq!(failover_step(true, true, &c, &vec![]), FailoverStep::Wait);
    assert_eq!(failover_step(true, false, &c, &vec![]), FailoverStep::Check(WanSource::Wifi));
    assert_eq!(failover_step(true, false, &c, &vec![false]), FailoverStep::Check(WanSource::Cellular));
    assert_eq!(failover_step(true, false, &c, &vec![true]), FailoverStep::SwitchTo(WanSource::Wifi));
    assert_eq!(failover_step(true, false, &c, &vec![false, true]), FailoverStep::SwitchTo(WanSource::Cellular));
    assert_eq!(failover_step(true, false, &c, &vec![false, false]), FailoverStep::NoneHealthy);
    assert_eq!(failover_step(true, false, &vec![], &vec![]), FailoverStep::NoneHealthy);
}
