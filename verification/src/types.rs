//! The shared enumerations, the names they are stored and shown under, and
//! reading those names back.
use vstd::prelude::*;
use crate::text::{chars_eq, chars_of, trim, trim_exec};

verus! {

#[derive(Clone, Copy, Debug, PartialEq, Eq, Structural)]
pub enum WanSource {
    Ethernet,
    Wifi,
    Cellular,
}

#[derive(Clone, Copy, Debug, PartialEq, Eq, Structural)]
pub enum DetectionKind {
    Motion,
    Person,
    Tamper,
}

#[derive(Clone, Copy, Debug, PartialEq, Eq, Structural)]
pub enum TamperKind {
    SuddenDarkness,
    Obstruction,
    CameraMoved,
    FeedLoss,
}

#[derive(Clone, Copy, Debug, Default, PartialEq, Eq, Structural)]
pub enum HealthCheckType {
    #[default]
    Ping,
    Dns,
    Http,
}

#[derive(Clone, Copy, Debug, PartialEq, Eq, Structural)]
pub enum VpnType {
    Wireguard,
    Openvpn,
}

#[derive(Clone, Copy, Debug, PartialEq, Eq, Structural)]
pub enum VpnMode {
    Client,
    Server,
}

#[derive(Clone, Copy, Debug, PartialEq, Eq, Structural)]
pub enum AlertAction {
    Ui,
    Sms,
    Webhook,
}

fn is(s: &[char], l: &str) -> (r: bool)
    ensures
        r == (s@ == l@),
{
    let v = chars_of(l);
    chars_eq(s, v.as_slice())
}

// ---------------------------------------------------------------------
// WAN sources
// ---------------------------------------------------------------------

/// The lower-case name of a WAN source, as it is stored and shown.
pub open spec fn wan_source_name_spec(s: WanSource) -> Seq<char> {
    match s {
        WanSource::Ethernet => "ethernet"@,
        WanSource::Wifi => "wifi"@,
        WanSource::Cellular => "cellular"@,
    }
}

/// The name of a WAN source as `{:?}` writes it.
pub open spec fn wan_source_label_spec(s: WanSource) -> Seq<char> {
    match s {
        WanSource::Ethernet => "Ethernet"@,
        WanSource::Wifi => "Wifi"@,
        WanSource::Cellular => "Cellular"@,
    }
}

pub fn wan_source_name(s: WanSource) -> (r: &'static str)
    ensures
        r@ == wan_source_name_spec(s),
{
    match s {
        WanSource::Ethernet => "ethernet",
        WanSource::Wifi => "wifi",
        WanSource::Cellular => "cellular",
    }
}

pub fn wan_source_label(s: WanSource) -> (r: &'static str)
    ensures
        r@ == wan_source_label_spec(s),
{
    match s {
        WanSource::Ethernet => "Ethernet",
        WanSource::Wifi => "Wifi",
        WanSource::Cellular => "Cellular",
    }
}

/// The WAN source a stored name stands for, surrounding whitespace ignored.
pub open spec fn parse_wan_source_spec(s: Seq<char>) -> Option<WanSource> {
    let t = trim(s);
    if t == "ethernet"@ {
        Some(WanSource::Ethernet)
    } else if t == "wifi"@ {
        Some(WanSource::Wifi)
    } else if t == "cellular"@ {
        Some(WanSource::Cellular)
    } else {
        None
    }
}

pub fn parse_wan_source(s: &str) -> (r: Option<WanSource>)
    ensures
        r == parse_wan_source_spec(s@),
{
    let c = chars_of(s);
    let t = trim_exec(c.as_slice());
    if is(t.as_slice(), "ethernet") {
        Some(WanSource::Ethernet)
    } else if is(t.as_slice(), "wifi") {
        Some(WanSource::Wifi)
    } else if is(t.as_slice(), "cellular") {
        Some(WanSource::Cellular)
    } else {
        None
    }
}

/// A stored WAN source name reads back as the source it names.
pub proof fn lemma_wan_source_roundtrip(s: WanSource)
    ensures
        parse_wan_source_spec(wan_source_name_spec(s)) == Some(s),
{
    reveal_strlit("ethernet");
    reveal_strlit("wifi");
    reveal_strlit("cellular");
    let n = wan_source_name_spec(s);
    assert(crate::text::trim_start(n) == n);
    assert(trim(n) == n);
}

// ---------------------------------------------------------------------
// Detection kinds
// ---------------------------------------------------------------------

pub open spec fn detection_kind_name_spec(k: DetectionKind) -> Seq<char> {
    match k {
        DetectionKind::Motion => "motion"@,
        DetectionKind::Person => "person"@,
        DetectionKind::Tamper => "tamper"@,
    }
}

pub fn detection_kind_name(k: DetectionKind) -> (r: &'static str)
    ensures
        r@ == detection_kind_name_spec(k),
{
    match k {
        DetectionKind::Motion => "motion",
        DetectionKind::Person => "person",
        DetectionKind::Tamper => "tamper",
    }
}

/// The kind a stored name stands for; an unknown name is read as motion.
pub open spec fn parse_detection_kind_spec(s: Seq<char>) -> DetectionKind {
    if s == "person"@ {
        DetectionKind::Person
    } else if s == "tamper"@ {
        DetectionKind::Tamper
    } else {
        DetectionKind::Motion
    }
}

pub fn parse_detection_kind(s: &str) -> (r: DetectionKind)
    ensures
        r == parse_detection_kind_spec(s@),
{
    let c = chars_of(s);
    if is(c.as_slice(), "person") {
        DetectionKind::Person
    } else if is(c.as_slice(), "tamper") {
        DetectionKind::Tamper
    } else {
        DetectionKind::Motion
    }
}

pub proof fn lemma_detection_kind_roundtrip(k: DetectionKind)
    ensures
        parse_detection_kind_spec(detection_kind_name_spec(k)) == k,
{
    reveal_strlit("motion");
    reveal_strlit("person");
    reveal_strlit("tamper");
    assert("motion"@[0] != "person"@[0]);
    assert("motion"@[0] != "tamper"@[0]);
    assert("tamper"@[0] != "person"@[0]);
}

pub open spec fn tamper_kind_label_spec(k: TamperKind) -> Seq<char> {
    match k {
        TamperKind::SuddenDarkness => "SuddenDarkness"@,
        TamperKind::Obstruction => "Obstruction"@,
        TamperKind::CameraMoved => "CameraMoved"@,
        TamperKind::FeedLoss => "FeedLoss"@,
    }
}

/// The name of a tamper kind as `{:?}` writes it.
pub fn tamper_kind_label(k: TamperKind) -> (r: &'static str)
    ensures
        r@ == tamper_kind_label_spec(k),
{
    match k {
        TamperKind::SuddenDarkness => "SuddenDarkness",
        TamperKind::Obstruction => "Obstruction",
        TamperKind::CameraMoved => "CameraMoved",
        TamperKind::FeedLoss => "FeedLoss",
    }
}

// ---------------------------------------------------------------------
// VPN and alerts
// ---------------------------------------------------------------------

pub open spec fn vpn_type_name_spec(t: VpnType) -> Seq<char> {
    match t {
        VpnType::Wireguard => "wireguard"@,
        VpnType::Openvpn => "openvpn"@,
    }
}

pub fn vpn_type_name(t: VpnType) -> (r: &'static str)
    ensures
        r@ == vpn_type_name_spec(t),
{
    match t {
        VpnType::Wireguard => "wireguard",
        VpnType::Openvpn => "openvpn",
    }
}

/// A stored VPN type: `openvpn`, and WireGuard for anything else.
pub open spec fn parse_vpn_type_spec(s: Seq<char>) -> VpnType {
    if s == "openvpn"@ {
        VpnType::Openvpn
    } else {
        VpnType::Wireguard
    }
}

pub fn parse_vpn_type(s: &str) -> (r: VpnType)
    ensures
        r == parse_vpn_type_spec(s@),
{
    let c = chars_of(s);
    if is(c.as_slice(), "openvpn") {
        VpnType::Openvpn
    } else {
        VpnType::Wireguard
    }
}

pub proof fn lemma_vpn_type_roundtrip(t: VpnType)
    ensures
        parse_vpn_type_spec(vpn_type_name_spec(t)) == t,
{
    reveal_strlit("wireguard");
    reveal_strlit("openvpn");
    assert("wireguard"@[0] != "openvpn"@[0]);
}

/// The file extension of a VPN configuration of this type.
pub fn vpn_config_extension(t: VpnType) -> (r: &'static str)
    ensures
        r@ == match t {
            VpnType::Wireguard => "conf"@,
            VpnType::Openvpn => "ovpn"@,
        },
{
    match t {
        VpnType::Wireguard => "conf",
        VpnType::Openvpn => "ovpn",
    }
}

pub open spec fn vpn_mode_name_spec(m: VpnMode) -> Seq<char> {
    match m {
        VpnMode::Client => "client"@,
        VpnMode::Server => "server"@,
    }
}

pub fn vpn_mode_name(m: VpnMode) -> (r: &'static str)
    ensures
        r@ == vpn_mode_name_spec(m),
{
    match m {
        VpnMode::Client => "client",
        VpnMode::Server => "server",
    }
}

/// A stored VPN mode: `server`, and client for anything else.
pub open spec fn parse_vpn_mode_spec(s: Seq<char>) -> VpnMode {
    if s == "server"@ {
        VpnMode::Server
    } else {
        VpnMode::Client
    }
}

pub fn parse_vpn_mode(s: &str) -> (r: VpnMode)
    ensures
        r == parse_vpn_mode_spec(s@),
{
    let c = chars_of(s);
    if is(c.as_slice(), "server") {
        VpnMode::Server
    } else {
        VpnMode::Client
    }
}

pub proof fn lemma_vpn_mode_roundtrip(m: VpnMode)
    ensures
        parse_vpn_mode_spec(vpn_mode_name_spec(m)) == m,
{
    reveal_strlit("client");
    reveal_strlit("server");
    assert("client"@[0] != "server"@[0]);
}

pub open spec fn alert_action_name_spec(a: AlertAction) -> Seq<char> {
    match a {
        AlertAction::Ui => "ui"@,
        AlertAction::Sms => "sms"@,
        AlertAction::Webhook => "webhook"@,
    }
}

pub fn alert_action_name(a: AlertAction) -> (r: &'static str)
    ensures
        r@ == alert_action_name_spec(a),
{
    match a {
        AlertAction::Ui => "ui",
        AlertAction::Sms => "sms",
        AlertAction::Webhook => "webhook",
    }
}

/// A stored alert action: `sms`, `webhook`, and the UI for anything else.
pub open spec fn parse_alert_action_spec(s: Seq<char>) -> AlertAction {
    if s == "sms"@ {
        AlertAction::Sms
    } else if s == "webhook"@ {
        AlertAction::Webhook
    } else {
        AlertAction::Ui
    }
}

pub fn parse_alert_action(s: &str) -> (r: AlertAction)
    ensures
        r == parse_alert_action_spec(s@),
{
    let c = chars_of(s);
    if is(c.as_slice(), "sms") {
        AlertAction::Sms
    } else if is(c.as_slice(), "webhook") {
        AlertAction::Webhook
    } else {
        AlertAction::Ui
    }
}

pub proof fn lemma_alert_action_roundtrip(a: AlertAction)
    ensures
        parse_alert_action_spec(alert_action_name_spec(a)) == a,
{
    reveal_strlit("ui");
    reveal_strlit("sms");
    reveal_strlit("webhook");
    assert("ui"@[0] != "sms"@[0]);
    assert("ui"@[0] != "webhook"@[0]);
    assert("sms"@[0] != "webhook"@[0]);
}


// ---------------------------------------------------------------------
// Texts shown in the web interface
// ---------------------------------------------------------------------

/// The letter shown as the icon of an event.
pub fn event_icon_text(k: DetectionKind) -> (r: &'static str)
    ensures
        r@ == match k {
            DetectionKind::Motion => "M"@,
            DetectionKind::Person => "P"@,
            DetectionKind::Tamper => "T"@,
        },
{
    match k {
        DetectionKind::Motion => "M",
        DetectionKind::Person => "P",
        DetectionKind::Tamper => "T",
    }
}

/// The heading shown for an event.
pub fn event_type_text(k: DetectionKind) -> (r: &'static str)
    ensures
        r@ == match k {
            DetectionKind::Motion => "Motion Detected"@,
            DetectionKind::Person => "Person Detected"@,
            DetectionKind::Tamper => "Tamper Alert"@,
        },
{
    match k {
        DetectionKind::Motion => "Motion Detected",
        DetectionKind::Person => "Person Detected",
        DetectionKind::Tamper => "Tamper Alert",
    }
}

/// The name of a WAN source on the failover page.
pub fn wan_text(s: WanSource) -> (r: String)
    ensures
        r@ == match s {
            WanSource::Ethernet => "Ethernet"@,
            WanSource::Wifi => "Wi-Fi"@,
            WanSource::Cellular => "Cellular"@,
        },
{
    match s {
        WanSource::Ethernet => String::from_str("Ethernet"),
        WanSource::Wifi => String::from_str("Wi-Fi"),
        WanSource::Cellular => String::from_str("Cellular"),
    }
}

/// The name of a WAN source on the network page, with its medium.
pub fn wan_source_text(s: WanSource) -> (r: &'static str)
    ensures
        r@ == match s {
            WanSource::Ethernet => "Ethernet (PoE)"@,
            WanSource::Wifi => "Wi-Fi"@,
            WanSource::Cellular => "Cellular (4G)"@,
        },
{
    match s {
        WanSource::Ethernet => "Ethernet (PoE)",
        WanSource::Wifi => "Wi-Fi",
        WanSource::Cellular => "Cellular (4G)",
    }
}

} // verus!
