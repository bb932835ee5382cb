//! The kiosk's settings, and the stored records of users, network profiles and
//! firewall rules.
use vstd::prelude::*;
use crate::types::{HealthCheckType, WanSource};
use crate::audio::opt_view;

verus! {

#[derive(Clone, Debug)]
pub struct CameraConfig {
    pub device: String,
    pub width: u32,
    pub height: u32,
    pub fps: u32,
    pub night_vision_auto: bool,
    pub ir_enabled: bool,
}

#[derive(Clone, Debug, Default)]
pub struct FailoverConfig {
    pub enabled: bool,
    pub priority: Vec<WanSource>,
    pub health_check_interval_s: u32,
    pub health_check_target: String,
    pub health_check_type: HealthCheckType,
}

#[derive(Clone, Debug)]
pub struct StorageConfig {
    pub clip_dir: String,
    pub max_retention_days: u32,
    pub max_disk_usage_pct: u8,
}

#[derive(Clone, Copy, Debug, PartialEq, Eq, Structural)]
pub enum WifiMode {
    Ap,
    Client,
    Repeater,
    Hotspot,
}

#[derive(Clone, Copy, Debug, PartialEq, Eq, Structural)]
pub enum WifiBand {
    Band24G,
    Band5G,
}

#[derive(Clone, Copy, Debug, PartialEq, Eq, Structural)]
pub enum Encryption {
    Open,
    Wpa2Psk,
    Wpa3Sae,
}

#[derive(Clone, Debug)]
pub struct NetworkConfig {
    pub wifi_mode: WifiMode,
    pub ssid: String,
    pub password: String,
    pub channel: u8,
    pub band: WifiBand,
    pub encryption: Encryption,
    pub country_code: String,
    pub hidden: bool,
    pub ap_interface: String,
    pub dhcp_range_start: String,
    pub dhcp_range_end: String,
    pub lease_time: String,
    pub dns_servers: Vec<String>,
}

#[derive(Clone, Debug, Default)]
pub struct TlsConfig {
    pub enabled: bool,
    pub cert_path: String,
    pub key_path: String,
}

#[derive(Clone, Debug)]
pub struct CellularConfig {
    pub apn: String,
    pub interface: String,
    pub auto_connect: bool,
}

impl Default for CellularConfig {
    /// The APN `internet` on interface `wwan0`, connected by hand.
    fn default() -> (r: Self)
        ensures
            r.apn@ == "internet"@,
            r.interface@ == "wwan0"@,
            !r.auto_connect,
    {
        CellularConfig {
            apn: String::from_str("internet"),
            interface: String::from_str("wwan0"),
            auto_connect: false,
        }
    }
}

/// The failover settings shipped with the kiosk: on, Ethernet before Wi-Fi
/// before cellular, a ping to 1.1.1.1 every 10 seconds.
pub fn default_failover_config() -> (r: FailoverConfig)
    ensures
        r.enabled,
        r.priority@ == seq![WanSource::Ethernet, WanSource::Wifi, WanSource::Cellular],
        r.health_check_interval_s == 10,
        r.health_check_target@ == "1.1.1.1"@,
        r.health_check_type == HealthCheckType::Ping,
{
    let mut priority: Vec<WanSource> = Vec::new();
    priority.push(WanSource::Ethernet);
    priority.push(WanSource::Wifi);
    priority.push(WanSource::Cellular);
    assert(priority@ =~= seq![WanSource::Ethernet, WanSource::Wifi, WanSource::Cellular]);
    FailoverConfig {
        enabled: true,
        priority,
        health_check_interval_s: 10,
        health_check_target: String::from_str("1.1.1.1"),
        health_check_type: HealthCheckType::Ping,
    }
}

/// The camera settings shipped with the kiosk: `/dev/video0` at 1280x720 and 15
/// frames per second, night vision switched automatically, infrared off.
pub fn default_camera_config() -> (r: CameraConfig)
    ensures
        r.device@ == "/dev/video0"@,
        r.width == 1280,
        r.height == 720,
        r.fps == 15,
        r.night_vision_auto,
        !r.ir_enabled,
{
    CameraConfig {
        device: String::from_str("/dev/video0"),
        width: 1280,
        height: 720,
        fps: 15,
        night_vision_auto: true,
        ir_enabled: false,
    }
}

/// The storage settings shipped with the kiosk: clips kept a week, and pruned
/// once the disk is 85% full.
pub fn default_storage_config() -> (r: StorageConfig)
    ensures
        r.clip_dir@ == "/var/lib/pi-kiosk/clips"@,
        r.max_retention_days == 7,
        r.max_disk_usage_pct == 85,
{
    StorageConfig {
        clip_dir: String::from_str("/var/lib/pi-kiosk/clips"),
        max_retention_days: 7,
        max_disk_usage_pct: 85,
    }
}

/// The network settings shipped with the kiosk: an open access point `pi-kiosk`
/// on `wlan0`, channel 6 of the 2.4 GHz band with WPA2, handing out
/// 10.0.0.100 to 10.0.0.200 for 12 hours, with Google's and Cloudflare's DNS.
pub fn default_network_config() -> (r: NetworkConfig)
    ensures
        r.wifi_mode == WifiMode::Ap,
        r.ssid@ == "pi-kiosk"@,
        r.password@ == Seq::<char>::empty(),
        r.channel == 6,
        r.band == WifiBand::Band24G,
        r.encryption == Encryption::Wpa2Psk,
        r.country_code@ == "US"@,
        !r.hidden,
        r.ap_interface@ == "wlan0"@,
        r.dhcp_range_start@ == "10.0.0.100"@,
        r.dhcp_range_end@ == "10.0.0.200"@,
        r.lease_time@ == "12h"@,
        r.dns_servers@.len() == 2,
        r.dns_servers@[0]@ == "8.8.8.8"@,
        r.dns_servers@[1]@ == "1.1.1.1"@,
{
    let mut dns: Vec<String> = Vec::new();
    dns.push(String::from_str("8.8.8.8"));
    dns.push(String::from_str("1.1.1.1"));
    NetworkConfig {
        wifi_mode: WifiMode::Ap,
        ssid: String::from_str("pi-kiosk"),
        password: String::new(),
        channel: 6,
        band: WifiBand::Band24G,
        encryption: Encryption::Wpa2Psk,
        country_code: String::from_str("US"),
        hidden: false,
        ap_interface: String::from_str("wlan0"),
        dhcp_range_start: String::from_str("10.0.0.100"),
        dhcp_range_end: String::from_str("10.0.0.200"),
        lease_time: String::from_str("12h"),
        dns_servers: dns,
    }
}

/// A user of the web interface.
#[derive(Clone, Debug)]
pub struct User {
    pub id: i64,
    pub username: String,
    pub role: String,
}

/// A saved Wi-Fi profile.
#[derive(Clone, Debug)]
pub struct NetworkProfile {
    pub id: String,
    pub name: String,
    pub mode: String,
    pub ssid: String,
    pub password: Option<String>,
    pub band: String,
    pub channel: Option<i32>,
    pub encryption: String,
    pub country_code: String,
    pub interface: Option<String>,
    pub is_active: bool,
    pub created_at: String,
}

/// A port-forwarding rule.
#[derive(Clone, Debug)]
pub struct FirewallRule {
    pub id: String,
    pub name: String,
    pub proto: String,
    pub src_port: Option<String>,
    pub dest_ip: String,
    pub dest_port: String,
    pub enabled: bool,
    pub created_at: String,
}


/// The certificate and key files of the self-signed certificate.
pub open spec fn cert_path_spec() -> Seq<char> {
    "/etc/pi-kiosk/tls/pi-kiosk.crt"@
}

pub open spec fn key_path_spec() -> Seq<char> {
    "/etc/pi-kiosk/tls/pi-kiosk.key"@
}

/// The `openssl` arguments that make a self-signed certificate for the device:
/// an RSA 2048 key, valid a year, unencrypted, named after the device.
pub fn self_signed_cert_args(device_name: &str) -> (r: Vec<String>)
    ensures
        r@.map_values(|s: String| s@) == seq![
            "req"@,
            "-x509"@,
            "-newkey"@,
            "rsa:2048"@,
            "-keyout"@,
            key_path_spec(),
            "-out"@,
            cert_path_spec(),
            "-days"@,
            "365"@,
            "-nodes"@,
            "-subj"@,
            "/CN="@ + device_name@,
        ],
{
    let mut subj = crate::text::chars_of("/CN=");
    crate::text::extend_str(&mut subj, device_name);
    let mut r: Vec<String> = Vec::new();
    r.push(String::from_str("req"));
    r.push(String::from_str("-x509"));
    r.push(String::from_str("-newkey"));
    r.push(String::from_str("rsa:2048"));
    r.push(String::from_str("-keyout"));
    r.push(String::from_str("/etc/pi-kiosk/tls/pi-kiosk.key"));
    r.push(String::from_str("-out"));
    r.push(String::from_str("/etc/pi-kiosk/tls/pi-kiosk.crt"));
    r.push(String::from_str("-days"));
    r.push(String::from_str("365"));
    r.push(String::from_str("-nodes"));
    r.push(String::from_str("-subj"));
    r.push(crate::text::string_from_chars(subj.as_slice()));
    assert(r@.map_values(|s: String| s@) =~= seq![
        "req"@,
        "-x509"@,
        "-newkey"@,
        "rsa:2048"@,
        "-keyout"@,
        key_path_spec(),
        "-out"@,
        cert_path_spec(),
        "-days"@,
        "365"@,
        "-nodes"@,
        "-subj"@,
        "/CN="@ + device_name@,
    ]);
    r
}

/// The TLS settings once a self-signed certificate was made: on, with its files.
pub fn tls_with_self_signed() -> (r: TlsConfig)
    ensures
        r.enabled,
        r.cert_path@ == cert_path_spec(),
        r.key_path@ == key_path_spec(),
{
    TlsConfig {
        enabled: true,
        cert_path: String::from_str("/etc/pi-kiosk/tls/pi-kiosk.crt"),
        key_path: String::from_str("/etc/pi-kiosk/tls/pi-kiosk.key"),
    }
}

/// The access-point settings that the Wi-Fi form edits.
#[derive(Clone, Debug)]
pub struct WifiForm {
    pub wifi_mode: WifiMode,
    pub ssid: String,
    pub password: String,
    pub channel: u8,
    pub band: WifiBand,
    pub encryption: Encryption,
    pub hidden: bool,
    pub ap_interface: String,
    pub dhcp_range_start: String,
    pub dhcp_range_end: String,
}

/// The network configuration saved from the Wi-Fi form: the form's fields, with
/// the country code, lease time and DNS servers kept from the loaded configuration.
pub fn network_config_from_form(form: WifiForm, loaded: NetworkConfig) -> (r: NetworkConfig)
    ensures
        r == (NetworkConfig {
            wifi_mode: form.wifi_mode,
            ssid: form.ssid,
            password: form.password,
            channel: form.channel,
            band: form.band,
            encryption: form.encryption,
            country_code: loaded.country_code,
            hidden: form.hidden,
            ap_interface: form.ap_interface,
            dhcp_range_start: form.dhcp_range_start,
            dhcp_range_end: form.dhcp_range_end,
            lease_time: loaded.lease_time,
            dns_servers: loaded.dns_servers,
        }),
{
    NetworkConfig {
        wifi_mode: form.wifi_mode,
        ssid: form.ssid,
        password: form.password,
        channel: form.channel,
        band: form.band,
        encryption: form.encryption,
        country_code: loaded.country_code,
        hidden: form.hidden,
        ap_interface: form.ap_interface,
        dhcp_range_start: form.dhcp_range_start,
        dhcp_range_end: form.dhcp_range_end,
        lease_time: loaded.lease_time,
        dns_servers: loaded.dns_servers,
    }
}

/// The firewall rule added from the form: refused (`None`) unless the name, the
/// destination address and the destination port are filled in; an empty source
/// port means any; a new rule is enabled.
pub fn new_firewall_rule(
    id: &str,
    name: &str,
    proto: &str,
    src_port: &str,
    dest_ip: &str,
    dest_port: &str,
    created_at: &str,
) -> (r: Option<FirewallRule>)
    ensures
        r is Some <==> (name@.len() > 0 && dest_ip@.len() > 0 && dest_port@.len() > 0),
        r matches Some(f) ==> {
            &&& f.id@ == id@
            &&& f.name@ == name@
            &&& f.proto@ == proto@
            &&& opt_view(f.src_port) == if src_port@.len() == 0 {
                None::<Seq<char>>
            } else {
                Some(src_port@)
            }
            &&& f.dest_ip@ == dest_ip@
            &&& f.dest_port@ == dest_port@
            &&& f.enabled
            &&& f.created_at@ == created_at@
        },
{
    if name.unicode_len() == 0 || dest_ip.unicode_len() == 0 || dest_port.unicode_len() == 0 {
        return None;
    }
    let src = if src_port.unicode_len() == 0 {
        None
    } else {
        Some(src_port.to_owned())
    };
    Some(FirewallRule {
        id: id.to_owned(),
        name: name.to_owned(),
        proto: proto.to_owned(),
        src_port: src,
        dest_ip: dest_ip.to_owned(),
        dest_port: dest_port.to_owned(),
        enabled: true,
        created_at: created_at.to_owned(),
    })
}

} // verus!
