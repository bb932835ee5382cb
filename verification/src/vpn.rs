//! VPN and Tor: the WireGuard configuration file written for a set of peers,
//! the Tor configuration, the helper requests that start and stop a tunnel,
//! and the VPN state read from the system's tools.
use vstd::prelude::*;
use crate::types::{VpnMode, VpnType, vpn_config_extension};
use crate::privileged::PrivRequest;
use crate::text::{
    chars_of, decimal, decimal_exec, extend_chars, extend_str, has_suffix, lines_exec, lines_of,
    slice_chars, split_exec, split_on, string_from_chars, trim, trim_exec, views, ends_with,
    lemma_split_nonempty,
};

verus! {

#[derive(Clone, Debug, Default)]
pub struct VpnStatus {
    pub wireguard_active: bool,
    pub wireguard_interface: Option<String>,
    pub openvpn_active: bool,
    pub tor_active: bool,
    pub tor_socks_port: Option<u16>,
    pub kill_switch_active: bool,
}

#[derive(Clone, Debug, Default)]
pub struct TorConfig {
    pub enabled: bool,
    pub socks_port: u16,
    pub control_port: u16,
    pub use_bridges: bool,
    pub bridge_lines: Vec<String>,
}

#[derive(Clone, Debug)]
pub struct WireguardPeer {
    pub public_key: String,
    pub allowed_ips: String,
    pub endpoint: Option<String>,
    pub preshared_key: Option<String>,
    pub persistent_keepalive: Option<u16>,
}

#[derive(Clone, Debug)]
pub struct WireguardConfig {
    pub interface_name: String,
    pub private_key: String,
    pub address: String,
    pub listen_port: Option<u16>,
    pub dns: Vec<String>,
    pub peers: Vec<WireguardPeer>,
}

pub open spec fn opt_line(label: Seq<char>, v: Option<String>) -> Seq<char> {
    match v {
        Some(s) => label + s@ + "\n"@,
        None => Seq::empty(),
    }
}

pub open spec fn opt_number_line(label: Seq<char>, v: Option<u16>) -> Seq<char> {
    match v {
        Some(n) => label + decimal(n as nat) + "\n"@,
        None => Seq::empty(),
    }
}

/// The strings joined with `", "` between them.
pub open spec fn join_comma(v: Seq<String>) -> Seq<char>
    decreases v.len(),
{
    if v.len() == 0 {
        Seq::empty()
    } else if v.len() == 1 {
        v[0]@
    } else {
        join_comma(v.drop_last()) + ", "@ + v.last()@
    }
}

pub open spec fn peer_section(p: WireguardPeer) -> Seq<char> {
    "\n[Peer]\n"@ + "PublicKey = "@ + p.public_key@ + "\n"@ + "AllowedIPs = "@ + p.allowed_ips@
        + "\n"@ + opt_line("Endpoint = "@, p.endpoint) + opt_line(
        "PresharedKey = "@,
        p.preshared_key,
    ) + opt_number_line("PersistentKeepalive = "@, p.persistent_keepalive)
}

pub open spec fn peer_sections(peers: Seq<WireguardPeer>) -> Seq<char>
    decreases peers.len(),
{
    if peers.len() == 0 {
        Seq::empty()
    } else {
        peer_sections(peers.drop_last()) + peer_section(peers.last())
    }
}

/// A WireGuard configuration file: the interface section, then one section per peer.
pub open spec fn wireguard_text(c: WireguardConfig) -> Seq<char> {
    "[Interface]\n"@ + "PrivateKey = "@ + c.private_key@ + "\n"@ + "Address = "@ + c.address@
        + "\n"@ + opt_number_line("ListenPort = "@, c.listen_port) + (if c.dns@.len() > 0 {
        "DNS = "@ + join_comma(c.dns@) + "\n"@
    } else {
        Seq::empty()
    }) + peer_sections(c.peers@)
}

fn push_opt_line(b: &mut Vec<char>, label: &str, v: &Option<String>)
    ensures
        final(b)@ == old(b)@ + opt_line(label@, *v),
{
    match v {
        Some(s) => {
            extend_str(b, label);
            extend_str(b, s.as_str());
            extend_str(b, "\n");
        },
        None => {
            assert(old(b)@ + Seq::<char>::empty() =~= old(b)@);
        },
    }
}

fn push_number_line(b: &mut Vec<char>, label: &str, v: Option<u16>)
    ensures
        final(b)@ == old(b)@ + opt_number_line(label@, v),
{
    match v {
        Some(n) => {
            extend_str(b, label);
            let d = decimal_exec(n as u64);
            extend_chars(b, d.as_slice());
            extend_str(b, "\n");
        },
        None => {
            assert(old(b)@ + Seq::<char>::empty() =~= old(b)@);
        },
    }
}

/// The WireGuard configuration file for `c`.
pub fn generate_wireguard_config(c: &WireguardConfig) -> (r: String)
    ensures
        r@ == wireguard_text(*c),
{
    let mut b: Vec<char> = Vec::new();
    extend_str(&mut b, "[Interface]\n");
    extend_str(&mut b, "PrivateKey = ");
    extend_str(&mut b, c.private_key.as_str());
    extend_str(&mut b, "\n");
    extend_str(&mut b, "Address = ");
    extend_str(&mut b, c.address.as_str());
    extend_str(&mut b, "\n");
    push_number_line(&mut b, "ListenPort = ", c.listen_port);
    let ghost head = b@;
    if c.dns.len() > 0 {
        extend_str(&mut b, "DNS = ");
        let ghost before = b@;
        let mut i: usize = 0;
        while i < c.dns.len()
            invariant
                i <= c.dns@.len(),
                c.dns@.len() > 0,
                b@ == before + join_comma(c.dns@.take(i as int)),
            decreases c.dns@.len() - i,
        {
            if i > 0 {
                extend_str(&mut b, ", ");
            }
            extend_str(&mut b, c.dns[i].as_str());
            i = i + 1;
            proof {
                let t = c.dns@.take(i as int);
                assert(t.drop_last() =~= c.dns@.take(i - 1));
                if i == 1 {
                    assert(c.dns@.take(0) =~= Seq::<String>::empty());
                }
            }
            assert(b@ =~= before + join_comma(c.dns@.take(i as int)));
        }
        assert(c.dns@.take(i as int) =~= c.dns@);
        extend_str(&mut b, "\n");
    } else {
        assert(b@ =~= head + Seq::<char>::empty());
    }
    let ghost mid = b@;
    let mut k: usize = 0;
    assert(c.peers@.take(0) =~= Seq::<WireguardPeer>::empty());
    assert(b@ =~= mid + peer_sections(c.peers@.take(0)));
    while k < c.peers.len()
        invariant
            k <= c.peers@.len(),
            b@ == mid + peer_sections(c.peers@.take(k as int)),
        decreases c.peers@.len() - k,
    {
        let ghost before = b@;
        let p = &c.peers[k];
        extend_str(&mut b, "\n[Peer]\n");
        extend_str(&mut b, "PublicKey = ");
        extend_str(&mut b, p.public_key.as_str());
        extend_str(&mut b, "\n");
        extend_str(&mut b, "AllowedIPs = ");
        extend_str(&mut b, p.allowed_ips.as_str());
        extend_str(&mut b, "\n");
        push_opt_line(&mut b, "Endpoint = ", &p.endpoint);
        push_opt_line(&mut b, "PresharedKey = ", &p.preshared_key);
        push_number_line(&mut b, "PersistentKeepalive = ", p.persistent_keepalive);
        k = k + 1;
        assert(c.peers@.take(k as int).drop_last() =~= c.peers@.take(k - 1));
        assert(b@ =~= before + peer_section(c.peers@[k - 1]));
    }
    assert(c.peers@.take(k as int) =~= c.peers@);
    assert(b@ =~= wireguard_text(*c));
    string_from_chars(b.as_slice())
}

pub open spec fn bridge_lines_text(v: Seq<String>) -> Seq<char>
    decreases v.len(),
{
    if v.len() == 0 {
        Seq::empty()
    } else {
        bridge_lines_text(v.drop_last()) + "Bridge "@ + v.last()@ + "\n"@
    }
}

/// The torrc for a Tor configuration: the ports, the data directory, daemon mode,
/// and the bridges when bridges are in use and some are given.
pub open spec fn torrc_text(c: TorConfig) -> Seq<char> {
    "SocksPort "@ + decimal(c.socks_port as nat) + "\n"@ + "ControlPort "@ + decimal(
        c.control_port as nat,
    ) + "\n"@ + "DataDirectory /var/lib/pi-kiosk/tor\n"@ + "RunAsDaemon 1\n"@ + (if c.use_bridges
        && c.bridge_lines@.len() > 0 {
        "UseBridges 1\n"@ + bridge_lines_text(c.bridge_lines@)
    } else {
        Seq::empty()
    })
}

pub fn torrc(c: &TorConfig) -> (r: String)
    ensures
        r@ == torrc_text(*c),
{
    let mut b: Vec<char> = Vec::new();
    extend_str(&mut b, "SocksPort ");
    let s = decimal_exec(c.socks_port as u64);
    extend_chars(&mut b, s.as_slice());
    extend_str(&mut b, "\n");
    extend_str(&mut b, "ControlPort ");
    let p = decimal_exec(c.control_port as u64);
    extend_chars(&mut b, p.as_slice());
    extend_str(&mut b, "\n");
    extend_str(&mut b, "DataDirectory /var/lib/pi-kiosk/tor\n");
    extend_str(&mut b, "RunAsDaemon 1\n");
    let ghost head = b@;
    if c.use_bridges && c.bridge_lines.len() > 0 {
        extend_str(&mut b, "UseBridges 1\n");
        let ghost before = b@;
        let mut i: usize = 0;
        assert(c.bridge_lines@.take(0) =~= Seq::<String>::empty());
        assert(b@ =~= before + bridge_lines_text(c.bridge_lines@.take(0)));
        while i < c.bridge_lines.len()
            invariant
                i <= c.bridge_lines@.len(),
                b@ == before + bridge_lines_text(c.bridge_lines@.take(i as int)),
            decreases c.bridge_lines@.len() - i,
        {
            extend_str(&mut b, "Bridge ");
            extend_str(&mut b, c.bridge_lines[i].as_str());
            extend_str(&mut b, "\n");
            i = i + 1;
            assert(c.bridge_lines@.take(i as int).drop_last() =~= c.bridge_lines@.take(i - 1));
            assert(b@ =~= before + bridge_lines_text(c.bridge_lines@.take(i as int)));
        }
        assert(c.bridge_lines@.take(i as int) =~= c.bridge_lines@);
    } else {
        assert(b@ =~= head + Seq::<char>::empty());
    }
    assert(b@ =~= torrc_text(*c));
    string_from_chars(b.as_slice())
}

/// Where the configuration of an imported VPN is stored: `<dir>/<id>.<ext>`.
pub fn vpn_config_path(dir: &str, id: &str, t: VpnType) -> (r: String)
    ensures
        r@ == dir@ + "/"@ + id@ + "."@ + match t {
            VpnType::Wireguard => "conf"@,
            VpnType::Openvpn => "ovpn"@,
        },
{
    let mut b = chars_of(dir);
    extend_str(&mut b, "/");
    extend_str(&mut b, id);
    extend_str(&mut b, ".");
    extend_str(&mut b, vpn_config_extension(t));
    string_from_chars(b.as_slice())
}

/// The WireGuard interface a configuration file brings up: the file's name without
/// `.conf`, or `wg0` when it does not end so.
pub open spec fn wireguard_interface_spec(path: Seq<char>) -> Seq<char> {
    let name = split_on(path, '/').last();
    if has_suffix(name, ".conf"@) {
        name.take(name.len() - ".conf"@.len())
    } else {
        "wg0"@
    }
}

pub fn wireguard_interface(path: &str) -> (r: String)
    ensures
        r@ == wireguard_interface_spec(path@),
{
    let c = chars_of(path);
    let parts = split_exec(c.as_slice(), '/');
    proof {
        lemma_split_nonempty(c@, '/');
    }
    let last = &parts[parts.len() - 1];
    assert(views(parts@).last() == last@);
    let suffix = chars_of(".conf");
    if ends_with(last.as_slice(), suffix.as_slice()) {
        let n = slice_chars(last.as_slice(), 0, last.len() - suffix.len());
        assert(n@ =~= last@.take(last@.len() - suffix@.len()));
        string_from_chars(n.as_slice())
    } else {
        "wg0".to_owned()
    }
}

/// The helper request that starts a stored VPN.
pub fn vpn_start_request(t: VpnType, config_path: &String) -> (r: PrivRequest)
    ensures
        match t {
            VpnType::Wireguard => r matches PrivRequest::WireguardUp { config_path: p } && p@
                == config_path@,
            VpnType::Openvpn => r matches PrivRequest::OpenvpnUp { config_path: p } && p@
                == config_path@,
        },
{
    match t {
        VpnType::Wireguard => PrivRequest::WireguardUp { config_path: config_path.clone() },
        VpnType::Openvpn => PrivRequest::OpenvpnUp { config_path: config_path.clone() },
    }
}

/// The helper request that stops a stored VPN.
pub fn vpn_stop_request(t: VpnType, config_path: &String) -> (r: PrivRequest)
    ensures
        match t {
            VpnType::Wireguard => r matches PrivRequest::WireguardDown { interface } && interface@
                == wireguard_interface_spec(config_path@),
            VpnType::Openvpn => r matches PrivRequest::OpenvpnDown { interface } && interface@
                == config_path@,
        },
{
    match t {
        VpnType::Wireguard => PrivRequest::WireguardDown {
            interface: wireguard_interface(config_path.as_str()),
        },
        VpnType::Openvpn => PrivRequest::OpenvpnDown { interface: config_path.clone() },
    }
}

/// What the system's tools report of the tunnels.
pub struct VpnReadings {
    /// What `wg show` printed, when it succeeded.
    pub wg_show: Option<String>,
    /// What `systemctl is-active openvpn@pi-kiosk` printed, when it could be run.
    pub openvpn_state: Option<String>,
    /// Whether `pgrep -x tor` succeeded, when Tor is enabled and it could be run.
    pub tor_running: Option<bool>,
    /// Whether `nft list table inet pi-kiosk-killswitch` succeeded, when it could be run.
    pub killswitch_listed: Option<bool>,
}

pub open spec fn wg_interface_spec(text: Seq<char>) -> Option<Seq<char>> {
    let ls = lines_of(text);
    if ls.len() > 0 {
        Some(trim(split_on(ls[0], ':')[0]))
    } else {
        None
    }
}

/// The VPN state: WireGuard is active when `wg show` printed something, its interface
/// being what precedes the first `:` on the first line; OpenVPN when its unit is
/// `active`; Tor when enabled and running; the kill switch when its table is listed.
pub fn vpn_status(r: &VpnReadings, tor: &TorConfig) -> (s: VpnStatus)
    ensures
        s.wireguard_active == (r.wg_show matches Some(t) && trim(t@).len() > 0),
        match r.wg_show {
            Some(t) if trim(t@).len() > 0 => match s.wireguard_interface {
                Some(i) => wg_interface_spec(t@) == Some(i@),
                None => wg_interface_spec(t@) is None,
            },
            _ => s.wireguard_interface is None,
        },
        s.openvpn_active == (r.openvpn_state matches Some(t) && trim(t@) == "active"@),
        s.tor_active == (tor.enabled && r.tor_running == Some(true)),
        s.tor_socks_port == if tor.enabled && r.tor_running == Some(true) {
            Some(tor.socks_port)
        } else {
            None
        },
        s.kill_switch_active == (r.killswitch_listed == Some(true)),
{
    let mut s = VpnStatus {
        wireguard_active: false,
        wireguard_interface: None,
        openvpn_active: false,
        tor_active: false,
        tor_socks_port: None,
        kill_switch_active: false,
    };
    match &r.wg_show {
        Some(t) => {
            let c = chars_of(t.as_str());
            let tt = trim_exec(c.as_slice());
            if tt.len() > 0 {
                s.wireguard_active = true;
                let ls = lines_exec(c.as_slice());
                if ls.len() > 0 {
                    assert(views(ls@)[0] == ls@[0]@);
                    let p = split_exec(ls[0].as_slice(), ':');
                    proof {
                        lemma_split_nonempty(ls@[0]@, ':');
                    }
                    assert(views(p@)[0] == p@[0]@);
                    let name = trim_exec(p[0].as_slice());
                    s.wireguard_interface = Some(string_from_chars(name.as_slice()));
                }
            }
        },
        None => {},
    }
    match &r.openvpn_state {
        Some(t) => {
            let c = chars_of(t.as_str());
            let tt = trim_exec(c.as_slice());
            let active = chars_of("active");
            s.openvpn_active = crate::text::chars_eq(tt.as_slice(), active.as_slice());
        },
        None => {},
    }
    if tor.enabled && r.tor_running == Some(true) {
        s.tor_active = true;
        s.tor_socks_port = Some(tor.socks_port);
    }
    s.kill_switch_active = r.killswitch_listed == Some(true);
    s
}


/// A stored VPN configuration; `created_at` is an RFC 3339 time.
#[derive(Clone, Debug)]
pub struct VpnConfig {
    pub id: String,
    pub name: String,
    pub vpn_type: VpnType,
    pub mode: VpnMode,
    pub config_path: String,
    pub enabled: bool,
    pub kill_switch: bool,
    pub created_at: String,
}

/// The position of the configuration with identifier `id`: the first one.
pub fn find_vpn_config(configs: &Vec<VpnConfig>, id: &str) -> (r: Option<usize>)
    ensures
        match r {
            Some(i) => i < configs@.len() && configs@[i as int].id@ == id@ && forall|j: int|
                0 <= j < i ==> configs@[j].id@ != id@,
            None => forall|j: int| 0 <= j < configs@.len() ==> configs@[j].id@ != id@,
        },
{
    let key = chars_of(id);
    let mut i: usize = 0;
    while i < configs.len()
        invariant
            i <= configs@.len(),
            key@ == id@,
            forall|j: int| 0 <= j < i ==> configs@[j].id@ != id@,
        decreases configs@.len() - i,
    {
        let c = chars_of(configs[i].id.as_str());
        if crate::text::chars_eq(c.as_slice(), key.as_slice()) {
            return Some(i);
        }
        i = i + 1;
    }
    None
}

/// The record of an imported configuration: a client, switched off and without
/// kill switch, whose file is `/etc/pi-kiosk/vpn/<id>.<ext>`.
pub fn imported_vpn_config(id: &str, name: &str, vpn_type: VpnType, created_at: &str) -> (r:
    VpnConfig)
    ensures
        r.id@ == id@,
        r.name@ == name@,
        r.vpn_type == vpn_type,
        r.mode == VpnMode::Client,
        r.config_path@ == "/etc/pi-kiosk/vpn"@ + "/"@ + id@ + "."@ + match vpn_type {
            VpnType::Wireguard => "conf"@,
            VpnType::Openvpn => "ovpn"@,
        },
        !r.enabled,
        !r.kill_switch,
        r.created_at@ == created_at@,
{
    VpnConfig {
        id: id.to_owned(),
        name: name.to_owned(),
        vpn_type,
        mode: VpnMode::Client,
        config_path: vpn_config_path("/etc/pi-kiosk/vpn", id, vpn_type),
        enabled: false,
        kill_switch: false,
        created_at: created_at.to_owned(),
    }
}

} // verus!
