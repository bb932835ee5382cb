//! Network status: the interfaces reported by `ip -j addr`, the WAN state that
//! follows from them, and the clients seen in the DHCP leases and the
//! neighbour table.
use vstd::prelude::*;
use crate::types::WanSource;
use crate::text::{
    chars_eq, chars_of, contains, contains_exec, has_prefix, lines_exec, lines_of, parse_u32,
    parse_unsigned, starts_with, string_from_chars, trim, trim_exec, views, words, words_exec,
};

verus! {

#[derive(Clone, Debug)]
pub struct WanStatus {
    pub active_source: WanSource,
    pub online: bool,
    pub ethernet_up: bool,
    pub wifi_up: bool,
    pub cellular_up: bool,
    pub ip_address: Option<String>,
    pub gateway: Option<String>,
}

#[derive(Clone, Debug)]
pub struct InterfaceInfo {
    pub name: String,
    pub state: String,
    pub mac: String,
    pub ipv4: Option<String>,
    pub ipv6: Option<String>,
    pub link_type: String,
    pub speed_mbps: Option<u32>,
}

/// A client of the access point.
#[derive(Clone, Debug)]
pub struct ConnectedClient {
    pub hostname: String,
    pub mac: String,
    pub ip: String,
    pub interface: String,
    /// When the client was seen, in seconds since the Unix epoch.
    pub connected_since: i64,
}

/// One address of an interface, as `ip -j addr` reports it.
#[derive(Clone, Debug)]
pub struct RawAddress {
    pub family: Option<String>,
    pub local: Option<String>,
}

/// One interface, as `ip -j addr` reports it.
#[derive(Clone, Debug)]
pub struct RawInterface {
    pub ifname: Option<String>,
    pub operstate: Option<String>,
    pub address: Option<String>,
    pub link_type: Option<String>,
    pub addr_info: Option<Vec<RawAddress>>,
}

/// One entry of the neighbour table, as `ip -j neigh` reports it.
#[derive(Clone, Debug)]
pub struct RawNeighbor {
    pub dst: Option<String>,
    pub lladdr: Option<String>,
    pub dev: Option<String>,
}

pub struct RawAddressView {
    pub family: Option<Seq<char>>,
    pub local: Option<Seq<char>>,
}

impl View for RawAddress {
    type V = RawAddressView;

    open spec fn view(&self) -> RawAddressView {
        RawAddressView { family: opt_text(self.family), local: opt_text(self.local) }
    }
}

pub open spec fn address_views(v: Seq<RawAddress>) -> Seq<RawAddressView> {
    v.map_values(|a: RawAddress| a@)
}

pub struct RawInterfaceView {
    pub ifname: Option<Seq<char>>,
    pub operstate: Option<Seq<char>>,
    pub address: Option<Seq<char>>,
    pub link_type: Option<Seq<char>>,
    pub addr_info: Option<Seq<RawAddressView>>,
}

impl View for RawInterface {
    type V = RawInterfaceView;

    open spec fn view(&self) -> RawInterfaceView {
        RawInterfaceView {
            ifname: opt_text(self.ifname),
            operstate: opt_text(self.operstate),
            address: opt_text(self.address),
            link_type: opt_text(self.link_type),
            addr_info: match self.addr_info {
                Some(a) => Some(address_views(a@)),
                None => None,
            },
        }
    }
}

pub open spec fn interface_views(v: Seq<RawInterface>) -> Seq<RawInterfaceView> {
    v.map_values(|i: RawInterface| i@)
}

pub struct RawNeighborView {
    pub dst: Option<Seq<char>>,
    pub lladdr: Option<Seq<char>>,
    pub dev: Option<Seq<char>>,
}

impl View for RawNeighbor {
    type V = RawNeighborView;

    open spec fn view(&self) -> RawNeighborView {
        RawNeighborView { dst: opt_text(self.dst), lladdr: opt_text(self.lladdr), dev: opt_text(self.dev) }
    }
}

pub open spec fn neighbor_views(v: Seq<RawNeighbor>) -> Seq<RawNeighborView> {
    v.map_values(|n: RawNeighbor| n@)
}

pub struct NetworkMonitor;

impl NetworkMonitor {
    pub fn new() -> (r: Self) {
        NetworkMonitor
    }
}

// ---------------------------------------------------------------------
// Specifications
// ---------------------------------------------------------------------

pub open spec fn text_or(o: Option<String>, d: Seq<char>) -> Seq<char> {
    match o {
        Some(s) => s@,
        None => d,
    }
}

pub open spec fn opt_text(o: Option<String>) -> Option<Seq<char>> {
    match o {
        Some(s) => Some(s@),
        None => None,
    }
}

/// The text held, or `d` where there is none.
pub open spec fn opt_or(o: Option<Seq<char>>, d: Seq<char>) -> Seq<char> {
    match o {
        Some(s) => s,
        None => d,
    }
}

pub open spec fn is_ethernet_name(n: Seq<char>) -> bool {
    has_prefix(n, "eth"@) || has_prefix(n, "en"@)
}

pub open spec fn is_wifi_name(n: Seq<char>) -> bool {
    has_prefix(n, "wlan"@) || has_prefix(n, "wl"@)
}

pub open spec fn is_cellular_name(n: Seq<char>) -> bool {
    has_prefix(n, "wwan"@) || has_prefix(n, "usb"@) || contains(n, "cellular"@)
}

/// An interface carries traffic when its state is `up` and it has an IPv4 address.
pub open spec fn carries(i: InterfaceInfo) -> bool {
    i.state@ == "up"@ && i.ipv4 is Some
}

pub open spec fn some_up(v: Seq<InterfaceInfo>, kind: spec_fn(Seq<char>) -> bool) -> bool {
    exists|k: int| 0 <= k < v.len() && kind(v[k].name@) && #[trigger] carries(v[k])
}

pub open spec fn ethernet_kind() -> spec_fn(Seq<char>) -> bool {
    |n: Seq<char>| is_ethernet_name(n)
}

pub open spec fn wifi_kind() -> spec_fn(Seq<char>) -> bool {
    |n: Seq<char>| is_wifi_name(n)
}

pub open spec fn cellular_kind() -> spec_fn(Seq<char>) -> bool {
    |n: Seq<char>| is_cellular_name(n)
}

/// The WAN source in use: ethernet before Wi-Fi before cellular; ethernet when none is up.
pub open spec fn active_source_spec(eth: bool, wifi: bool, cell: bool) -> WanSource {
    if eth {
        WanSource::Ethernet
    } else if wifi {
        WanSource::Wifi
    } else if cell {
        WanSource::Cellular
    } else {
        WanSource::Ethernet
    }
}

/// The WAN source goes by priority: ethernet when it carries traffic, else Wi-Fi
/// when it does (whether or not a cellular link is up too), else cellular; with
/// none up, ethernet is named.
pub proof fn lemma_active_source_priority(eth: bool, wifi: bool, cell: bool)
    ensures
        eth ==> active_source_spec(eth, wifi, cell) == WanSource::Ethernet,
        !eth && wifi ==> active_source_spec(eth, wifi, cell) == WanSource::Wifi,
        !eth && !wifi && cell ==> active_source_spec(eth, wifi, cell) == WanSource::Cellular,
        !eth && !wifi && !cell ==> active_source_spec(eth, wifi, cell) == WanSource::Ethernet,
        active_source_spec(eth, wifi, cell) == WanSource::Wifi ==> wifi && !eth,
        active_source_spec(eth, wifi, cell) == WanSource::Cellular ==> cell && !eth && !wifi,
{
}

fn lit(s: &str) -> (r: Vec<char>)
    ensures
        r@ == s@,
{
    chars_of(s)
}

fn has_prefix_str(s: &[char], p: &str) -> (r: bool)
    ensures
        r == has_prefix(s@, p@),
{
    let pv = lit(p);
    starts_with(s, pv.as_slice())
}

fn eq_str(s: &[char], p: &str) -> (r: bool)
    ensures
        r == (s@ == p@),
{
    let pv = lit(p);
    chars_eq(s, pv.as_slice())
}

pub fn is_ethernet(name: &str) -> (r: bool)
    ensures
        r == is_ethernet_name(name@),
{
    let n = chars_of(name);
    has_prefix_str(n.as_slice(), "eth") || has_prefix_str(n.as_slice(), "en")
}

pub fn is_wifi(name: &str) -> (r: bool)
    ensures
        r == is_wifi_name(name@),
{
    let n = chars_of(name);
    has_prefix_str(n.as_slice(), "wlan") || has_prefix_str(n.as_slice(), "wl")
}

pub fn is_cellular(name: &str) -> (r: bool)
    ensures
        r == is_cellular_name(name@),
{
    let n = chars_of(name);
    let c = lit("cellular");
    has_prefix_str(n.as_slice(), "wwan") || has_prefix_str(n.as_slice(), "usb") || contains_exec(
        n.as_slice(),
        c.as_slice(),
    )
}

fn carries_exec(i: &InterfaceInfo) -> (r: bool)
    ensures
        r == carries(*i),
{
    let s = chars_of(i.state.as_str());
    eq_str(s.as_slice(), "up") && i.ipv4.is_some()
}

fn copy_opt(o: &Option<String>) -> (r: Option<String>)
    ensures
        opt_text(r) == opt_text(*o),
{
    match o {
        Some(s) => Some(s.clone()),
        None => None,
    }
}

impl NetworkMonitor {
    /// The WAN state from the interfaces and the default route's address and gateway.
    pub fn determine_wan_status(
        &self,
        interfaces: &[InterfaceInfo],
        ip_address: Option<String>,
        gateway: Option<String>,
    ) -> (w: WanStatus)
        ensures
            w.ethernet_up == some_up(interfaces@, ethernet_kind()),
            w.wifi_up == some_up(interfaces@, wifi_kind()),
            w.cellular_up == some_up(interfaces@, cellular_kind()),
            w.online == (w.ethernet_up || w.wifi_up || w.cellular_up),
            w.active_source == active_source_spec(w.ethernet_up, w.wifi_up, w.cellular_up),
            w.ethernet_up ==> w.active_source == WanSource::Ethernet,
            !w.ethernet_up && w.wifi_up ==> w.active_source == WanSource::Wifi,
            !w.ethernet_up && !w.wifi_up && w.cellular_up ==> w.active_source
                == WanSource::Cellular,
            !w.online ==> w.active_source == WanSource::Ethernet,
            opt_text(w.ip_address) == opt_text(ip_address),
            opt_text(w.gateway) == opt_text(gateway),
    {
        let mut eth = false;
        let mut wifi = false;
        let mut cell = false;
        let mut k: usize = 0;
        while k < interfaces.len()
            invariant
                k <= interfaces@.len(),
                eth == exists|j: int|
                    0 <= j < k && is_ethernet_name(interfaces@[j].name@) && #[trigger] carries(
                        interfaces@[j],
                    ),
                wifi == exists|j: int|
                    0 <= j < k && is_wifi_name(interfaces@[j].name@) && #[trigger] carries(
                        interfaces@[j],
                    ),
                cell == exists|j: int|
                    0 <= j < k && is_cellular_name(interfaces@[j].name@) && #[trigger] carries(
                        interfaces@[j],
                    ),
            decreases interfaces@.len() - k,
        {
            let i = &interfaces[k];
            let up = carries_exec(i);
            if up && is_ethernet(i.name.as_str()) {
                eth = true;
            }
            if up && is_wifi(i.name.as_str()) {
                wifi = true;
            }
            if up && is_cellular(i.name.as_str()) {
                cell = true;
            }
            k = k + 1;
        }
        let active = if eth {
            WanSource::Ethernet
        } else if wifi {
            WanSource::Wifi
        } else if cell {
            WanSource::Cellular
        } else {
            WanSource::Ethernet
        };
        WanStatus {
            active_source: active,
            online: eth || wifi || cell,
            ethernet_up: eth,
            wifi_up: wifi,
            cellular_up: cell,
            ip_address,
            gateway,
        }
    }
}

// ---------------------------------------------------------------------
// Interfaces
// ---------------------------------------------------------------------

pub open spec fn raw_family(a: RawAddressView) -> Seq<char> {
    opt_or(a.family, Seq::empty())
}

pub open spec fn raw_local(a: RawAddressView) -> Seq<char> {
    opt_or(a.local, Seq::empty())
}

/// The IPv4 and IPv6 addresses picked from an address list: the last `inet` address
/// that is not empty, and the last non-empty `inet6` address outside `fe80`.
pub open spec fn pick_addresses(addrs: Seq<RawAddressView>) -> (Option<Seq<char>>, Option<Seq<char>>)
    decreases addrs.len(),
{
    if addrs.len() == 0 {
        (None, None)
    } else {
        let (v4, v6) = pick_addresses(addrs.drop_last());
        let a = addrs.last();
        let fam = raw_family(a);
        let local = raw_local(a);
        if fam == "inet"@ && local.len() > 0 {
            (Some(local), v6)
        } else if fam == "inet6"@ && local.len() > 0 && !has_prefix(local, "fe80"@) {
            (v4, Some(local))
        } else {
            (v4, v6)
        }
    }
}

/// The link speed is read for interfaces that are `UP` and ethernet.
pub open spec fn wants_speed_spec(name: Seq<char>, state: Seq<char>, link_type: Seq<char>) -> bool {
    state == "UP"@ && (link_type == "ether"@ || has_prefix(name, "eth"@))
}

pub struct InterfaceView {
    pub name: Seq<char>,
    pub state: Seq<char>,
    pub mac: Seq<char>,
    pub ipv4: Option<Seq<char>>,
    pub ipv6: Option<Seq<char>>,
    pub link_type: Seq<char>,
    pub speed_mbps: Option<u32>,
}

impl View for InterfaceInfo {
    type V = InterfaceView;

    open spec fn view(&self) -> InterfaceView {
        InterfaceView {
            name: self.name@,
            state: self.state@,
            mac: self.mac@,
            ipv4: opt_text(self.ipv4),
            ipv6: opt_text(self.ipv6),
            link_type: self.link_type@,
            speed_mbps: self.speed_mbps,
        }
    }
}

/// The interface an `ip -j addr` entry describes, if it is not loopback or unnamed;
/// `speed` is the link speed read for it, used when `wants_speed_spec` holds.
pub open spec fn interface_spec(raw: RawInterfaceView, speed: Option<u32>) -> Option<InterfaceView> {
    let name = opt_or(raw.ifname, Seq::empty());
    if name.len() == 0 || name == "lo"@ {
        None
    } else {
        let state = opt_or(raw.operstate, "unknown"@);
        let link = opt_or(raw.link_type, "unknown"@);
        let picked = match raw.addr_info {
            Some(a) => pick_addresses(a),
            None => (None, None),
        };
        Some(
            InterfaceView {
                name,
                state,
                mac: opt_or(raw.address, Seq::empty()),
                ipv4: picked.0,
                ipv6: picked.1,
                link_type: link,
                speed_mbps: if wants_speed_spec(name, state, link) {
                    speed
                } else {
                    None
                },
            },
        )
    }
}

fn text_or_exec(o: &Option<String>, d: &str) -> (r: String)
    ensures
        r@ == text_or(*o, d@),
{
    match o {
        Some(s) => s.clone(),
        None => d.to_owned(),
    }
}

fn text_or_empty(o: &Option<String>) -> (r: String)
    ensures
        r@ == text_or(*o, Seq::empty()),
{
    match o {
        Some(s) => s.clone(),
        None => String::new(),
    }
}

fn pick_addresses_exec(addrs: &Vec<RawAddress>) -> (r: (Option<String>, Option<String>))
    ensures
        (opt_text(r.0), opt_text(r.1)) == pick_addresses(address_views(addrs@)),
{
    let ghost av = address_views(addrs@);
    let mut v4: Option<String> = None;
    let mut v6: Option<String> = None;
    let mut k: usize = 0;
    assert(av.take(0) =~= Seq::<RawAddressView>::empty());
    while k < addrs.len()
        invariant
            k <= addrs@.len(),
            av == address_views(addrs@),
            (opt_text(v4), opt_text(v6)) == pick_addresses(av.take(k as int)),
        decreases addrs@.len() - k,
    {
        let a = &addrs[k];
        let fam = text_or_empty(&a.family);
        let local = text_or_empty(&a.local);
        let fc = chars_of(fam.as_str());
        let lc = chars_of(local.as_str());
        assert(av.take(k + 1).drop_last() =~= av.take(k as int));
        assert(av.take(k + 1).last() == addrs@[k as int]@);
        if eq_str(fc.as_slice(), "inet") && lc.len() > 0 {
            v4 = Some(local);
        } else if eq_str(fc.as_slice(), "inet6") && lc.len() > 0 && !has_prefix_str(
            lc.as_slice(),
            "fe80",
        ) {
            v6 = Some(local);
        }
        k = k + 1;
    }
    assert(av.take(k as int) =~= av);
    (v4, v6)
}

/// Whether the link speed of an interface should be read.
pub fn wants_link_speed(name: &str, state: &str, link_type: &str) -> (r: bool)
    ensures
        r == wants_speed_spec(name@, state@, link_type@),
{
    let n = chars_of(name);
    let s = chars_of(state);
    let l = chars_of(link_type);
    eq_str(s.as_slice(), "UP") && (eq_str(l.as_slice(), "ether") || has_prefix_str(
        n.as_slice(),
        "eth",
    ))
}

/// The link speed in Mbit/s from the text of `/sys/class/net/<iface>/speed`.
pub fn parse_link_speed(text: &str) -> (r: Option<u32>)
    ensures
        match r {
            Some(v) => parse_unsigned(trim(text@), u32::MAX as nat) == Some(v as nat),
            None => parse_unsigned(trim(text@), u32::MAX as nat) is None,
        },
{
    let c = chars_of(text);
    let t = trim_exec(c.as_slice());
    parse_u32(t.as_slice())
}

/// The interface described by an `ip -j addr` entry.
pub fn interface_from_raw(raw: &RawInterface, speed: Option<u32>) -> (r: Option<InterfaceInfo>)
    ensures
        match r {
            Some(i) => interface_spec(raw@, speed) == Some(i@),
            None => interface_spec(raw@, speed) is None,
        },
{
    let name = text_or_empty(&raw.ifname);
    let nc = chars_of(name.as_str());
    if nc.len() == 0 || eq_str(nc.as_slice(), "lo") {
        return None;
    }
    let state = text_or_exec(&raw.operstate, "unknown");
    let mac = text_or_empty(&raw.address);
    let link_type = text_or_exec(&raw.link_type, "unknown");
    let (ipv4, ipv6) = match &raw.addr_info {
        Some(a) => pick_addresses_exec(a),
        None => (None, None),
    };
    let speed_mbps = if wants_link_speed(name.as_str(), state.as_str(), link_type.as_str()) {
        speed
    } else {
        None
    };
    Some(InterfaceInfo { name, state, mac, ipv4, ipv6, link_type, speed_mbps })
}

/// The link type guessed from an interface's name when `ip` is not available.
pub open spec fn guessed_link_type(name: Seq<char>) -> Seq<char> {
    if is_ethernet_name(name) {
        "ether"@
    } else if is_wifi_name(name) {
        "wifi"@
    } else {
        "unknown"@
    }
}

/// An interface as read from `/sys/class/net`, given the contents of its
/// `operstate` and `address` files where they could be read.
pub open spec fn sysfs_interface_spec(
    name: Seq<char>,
    operstate: Option<String>,
    address: Option<String>,
) -> Option<InterfaceView> {
    if name == "lo"@ {
        None
    } else {
        Some(
            InterfaceView {
                name,
                state: match operstate {
                    Some(s) => trim(s@),
                    None => "unknown"@,
                },
                mac: match address {
                    Some(s) => trim(s@),
                    None => Seq::empty(),
                },
                ipv4: None,
                ipv6: None,
                link_type: guessed_link_type(name),
                speed_mbps: None,
            },
        )
    }
}

fn trimmed(s: &String) -> (r: String)
    ensures
        r@ == trim(s@),
{
    let c = chars_of(s.as_str());
    let t = trim_exec(c.as_slice());
    string_from_chars(t.as_slice())
}

/// The interface read from `/sys/class/net/<name>`.
pub fn sysfs_interface(name: &str, operstate: &Option<String>, address: &Option<String>) -> (r:
    Option<InterfaceInfo>)
    ensures
        match r {
            Some(i) => sysfs_interface_spec(name@, *operstate, *address) == Some(i@),
            None => sysfs_interface_spec(name@, *operstate, *address) is None,
        },
{
    let nc = chars_of(name);
    if eq_str(nc.as_slice(), "lo") {
        return None;
    }
    let link_type = if is_ethernet(name) {
        "ether".to_owned()
    } else if is_wifi(name) {
        "wifi".to_owned()
    } else {
        "unknown".to_owned()
    };
    Some(
        InterfaceInfo {
            name: name.to_owned(),
            state: match operstate {
                Some(s) => trimmed(s),
                None => "unknown".to_owned(),
            },
            mac: match address {
                Some(s) => trimmed(s),
                None => String::new(),
            },
            ipv4: None,
            ipv6: None,
            link_type,
            speed_mbps: None,
        },
    )
}

// ---------------------------------------------------------------------
// Default route and WAN address
// ---------------------------------------------------------------------

pub open spec fn is_wan_name(n: Seq<char>) -> bool {
    is_ethernet_name(n) || is_wifi_name(n)
}

/// The first `inet` address listed that has a `local` value.
pub open spec fn first_inet(addrs: Seq<RawAddressView>) -> Option<Seq<char>>
    decreases addrs.len(),
{
    if addrs.len() == 0 {
        None
    } else if addrs[0].family == Some("inet"@) && addrs[0].local is Some {
        addrs[0].local
    } else {
        first_inet(addrs.drop_first())
    }
}

/// The WAN address: the first IPv4 address, with a `local` value, of the first
/// ethernet or Wi-Fi interface that has one.
pub open spec fn wan_ip_spec(ifaces: Seq<RawInterfaceView>) -> Option<Seq<char>>
    decreases ifaces.len(),
{
    if ifaces.len() == 0 {
        None
    } else {
        let i = ifaces[0];
        let here = if is_wan_name(opt_or(i.ifname, Seq::empty())) {
            match i.addr_info {
                Some(a) => first_inet(a),
                None => None,
            }
        } else {
            None
        };
        if here is Some {
            here
        } else {
            wan_ip_spec(ifaces.drop_first())
        }
    }
}

fn first_inet_exec(addrs: &Vec<RawAddress>) -> (r: Option<String>)
    ensures
        opt_text(r) == first_inet(address_views(addrs@)),
{
    let ghost av = address_views(addrs@);
    let mut k: usize = 0;
    assert(av.skip(0) =~= av);
    while k < addrs.len()
        invariant
            k <= addrs@.len(),
            av == address_views(addrs@),
            first_inet(av) == first_inet(av.skip(k as int)),
        decreases addrs@.len() - k,
    {
        let a = &addrs[k];
        assert(av.skip(k as int)[0] == addrs@[k as int]@);
        assert(av.skip(k as int).drop_first() =~= av.skip(k + 1));
        match (&a.family, &a.local) {
            (Some(f), Some(l)) => {
                let fc = chars_of(f.as_str());
                if eq_str(fc.as_slice(), "inet") {
                    return Some(l.clone());
                }
            },
            _ => {},
        }
        k = k + 1;
    }
    assert(av.skip(k as int) =~= Seq::<RawAddressView>::empty());
    None
}

/// The WAN address from an `ip -j addr` report.
pub fn wan_ip(ifaces: &Vec<RawInterface>) -> (r: Option<String>)
    ensures
        opt_text(r) == wan_ip_spec(interface_views(ifaces@)),
{
    let ghost iv = interface_views(ifaces@);
    let mut k: usize = 0;
    assert(iv.skip(0) =~= iv);
    while k < ifaces.len()
        invariant
            k <= ifaces@.len(),
            iv == interface_views(ifaces@),
            wan_ip_spec(iv) == wan_ip_spec(iv.skip(k as int)),
        decreases ifaces@.len() - k,
    {
        let i = &ifaces[k];
        assert(iv.skip(k as int)[0] == ifaces@[k as int]@);
        assert(iv.skip(k as int).drop_first() =~= iv.skip(k + 1));
        let name = text_or_empty(&i.ifname);
        let nc = chars_of(name.as_str());
        if is_ethernet(name.as_str()) || is_wifi(name.as_str()) {
            match &i.addr_info {
                Some(a) => {
                    let r = first_inet_exec(a);
                    if r.is_some() {
                        return r;
                    }
                },
                None => {},
            }
        }
        k = k + 1;
    }
    assert(iv.skip(k as int) =~= Seq::<RawInterfaceView>::empty());
    None
}

/// The default route's address and gateway: both absent unless `ip -j route show
/// default` listed a route; then the WAN address and the first route's gateway.
pub fn default_route(routes: &Option<Vec<Option<String>>>, wan_address: Option<String>) -> (r: (
    Option<String>,
    Option<String>,
))
    ensures
        match routes {
            Some(v) if v@.len() > 0 => opt_text(r.0) == opt_text(wan_address) && opt_text(r.1)
                == opt_text(v@[0]),
            _ => r.0 is None && r.1 is None,
        },
{
    match routes {
        Some(v) => {
            if v.len() > 0 {
                (wan_address, copy_opt(&v[0]))
            } else {
                (None, None)
            }
        },
        None => (None, None),
    }
}

// ---------------------------------------------------------------------
// Reading `ip -j` reports
// ---------------------------------------------------------------------

/// The entries of an `ip -j addr show` report, as `serde_json` reads them.
pub uninterp spec fn ip_addr_json(stdout: Seq<char>) -> Option<Seq<RawInterfaceView>>;

/// The gateways of the routes of an `ip -j route show` report, as `serde_json`
/// reads them.
pub uninterp spec fn ip_route_json(stdout: Seq<char>) -> Option<Seq<Option<Seq<char>>>>;

/// The entries of an `ip -j neigh show` report, as `serde_json` reads them.
pub uninterp spec fn ip_neigh_json(stdout: Seq<char>) -> Option<Seq<RawNeighborView>>;

pub open spec fn opt_texts(v: Seq<Option<String>>) -> Seq<Option<Seq<char>>> {
    v.map_values(|o: Option<String>| opt_text(o))
}

/// `serde_json::from_str::<Vec<serde_json::Value>>` on an `ip -j addr` report:
/// `None` where the text is not a JSON array; else, of each entry, the string
/// fields `ifname`, `operstate`, `address` and `link_type`, and the array
/// `addr_info` with each address's string fields `family` and `local` (a field
/// that is missing or not of that kind is `None`).
#[verifier::external_body]
fn ip_addr_report(stdout: &str) -> (r: Option<Vec<RawInterface>>)
    ensures
        match r {
            Some(v) => ip_addr_json(stdout@) == Some(interface_views(v@)),
            None => ip_addr_json(stdout@) is None,
        },
{
    let list: Vec<serde_json::Value> = serde_json::from_str(stdout).ok()?;
    let s = |v: &serde_json::Value, k: &str| v.get(k).and_then(|x| x.as_str()).map(|x| x.to_string());
    Some(list.iter().map(|v| RawInterface {
        ifname: s(v, "ifname"),
        operstate: s(v, "operstate"),
        address: s(v, "address"),
        link_type: s(v, "link_type"),
        addr_info: v.get("addr_info").and_then(|a| a.as_array()).map(|a| {
            a.iter().map(|x| RawAddress { family: s(x, "family"), local: s(x, "local") }).collect()
        }),
    }).collect())
}

/// `serde_json::from_str::<Vec<serde_json::Value>>` on an `ip -j route` report:
/// `None` where the text is not a JSON array; else each route's string field
/// `gateway` (`None` where it is missing or not a string).
#[verifier::external_body]
fn ip_route_report(stdout: &str) -> (r: Option<Vec<Option<String>>>)
    ensures
        match r {
            Some(v) => ip_route_json(stdout@) == Some(opt_texts(v@)),
            None => ip_route_json(stdout@) is None,
        },
{
    let list: Vec<serde_json::Value> = serde_json::from_str(stdout).ok()?;
    Some(list.iter().map(|v| v.get("gateway").and_then(|x| x.as_str()).map(|x| x.to_string())).collect())
}

/// `serde_json::from_str::<Vec<serde_json::Value>>` on an `ip -j neigh` report:
/// `None` where the text is not a JSON array; else each entry's string fields
/// `dst`, `lladdr` and `dev` (`None` where missing or not a string).
#[verifier::external_body]
fn ip_neigh_report(stdout: &str) -> (r: Option<Vec<RawNeighbor>>)
    ensures
        match r {
            Some(v) => ip_neigh_json(stdout@) == Some(neighbor_views(v@)),
            None => ip_neigh_json(stdout@) is None,
        },
{
    let list: Vec<serde_json::Value> = serde_json::from_str(stdout).ok()?;
    let s = |v: &serde_json::Value, k: &str| v.get(k).and_then(|x| x.as_str()).map(|x| x.to_string());
    Some(list.iter().map(|v| RawNeighbor { dst: s(v, "dst"), lladdr: s(v, "lladdr"), dev: s(v, "dev") }).collect())
}

/// The entries of an `ip -j -d addr show` report, or `None` where it is not a
/// JSON array (no interface is then listed).
pub fn ip_interfaces(stdout: &str) -> (r: Option<Vec<RawInterface>>)
    ensures
        match r {
            Some(v) => ip_addr_json(stdout@) == Some(interface_views(v@)),
            None => ip_addr_json(stdout@) is None,
        },
{
    ip_addr_report(stdout)
}

pub open spec fn info_views(v: Seq<InterfaceInfo>) -> Seq<InterfaceView> {
    v.map_values(|i: InterfaceInfo| i@)
}

/// The interfaces that report entries describe, in order, with the link speed
/// read for each entry (`speeds[k]` for entry `k`).
pub open spec fn interfaces_spec(raws: Seq<RawInterfaceView>, speeds: Seq<Option<u32>>) -> Seq<
    InterfaceView,
>
    decreases raws.len(),
{
    if raws.len() == 0 {
        Seq::empty()
    } else {
        let rest = interfaces_spec(raws.drop_last(), speeds.drop_last());
        match interface_spec(raws.last(), speeds.last()) {
            Some(i) => rest.push(i),
            None => rest,
        }
    }
}

/// The interfaces of an `ip -j -d addr show` report: every entry but the
/// loopback and unnamed ones, each with the link speed read for it.
pub fn interfaces_from_report(raws: &Vec<RawInterface>, speeds: &Vec<Option<u32>>) -> (r: Vec<
    InterfaceInfo,
>)
    requires
        raws@.len() == speeds@.len(),
    ensures
        info_views(r@) == interfaces_spec(interface_views(raws@), speeds@),
{
    let ghost rv = interface_views(raws@);
    let mut out: Vec<InterfaceInfo> = Vec::new();
    let mut k: usize = 0;
    assert(rv.take(0) =~= Seq::<RawInterfaceView>::empty());
    while k < raws.len()
        invariant
            k <= raws@.len(),
            raws@.len() == speeds@.len(),
            rv == interface_views(raws@),
            info_views(out@) == interfaces_spec(rv.take(k as int), speeds@.take(k as int)),
        decreases raws@.len() - k,
    {
        assert(rv.take(k + 1).drop_last() =~= rv.take(k as int));
        assert(speeds@.take(k + 1).drop_last() =~= speeds@.take(k as int));
        assert(rv.take(k + 1).last() == raws@[k as int]@);
        assert(speeds@.take(k + 1).last() == speeds@[k as int]);
        match interface_from_raw(&raws[k], speeds[k]) {
            Some(i) => {
                let ghost before = info_views(out@);
                out.push(i);
                assert(info_views(out@) =~= before.push(i@));
            },
            None => {},
        }
        k = k + 1;
    }
    assert(rv.take(k as int) =~= rv);
    assert(speeds@.take(k as int) =~= speeds@);
    out
}

/// The default route's address and gateway from the reports of `ip -j route
/// show default` and `ip -j addr show` (`None` where the command failed): both
/// absent unless the route report lists a route; then the WAN address that the
/// address report gives and the first route's gateway.
pub open spec fn default_route_spec(route_out: Option<Seq<char>>, addr_out: Option<Seq<char>>) -> (
    Option<Seq<char>>,
    Option<Seq<char>>,
) {
    let routes = match route_out {
        Some(t) => ip_route_json(t),
        None => None,
    };
    let address = match addr_out {
        Some(t) => match ip_addr_json(t) {
            Some(ifs) => wan_ip_spec(ifs),
            None => None,
        },
        None => None,
    };
    match routes {
        Some(v) => if v.len() > 0 {
            (address, v[0])
        } else {
            (None, None)
        },
        None => (None, None),
    }
}

pub open spec fn opt_str(o: Option<&str>) -> Option<Seq<char>> {
    match o {
        Some(s) => Some(s@),
        None => None,
    }
}

/// The default route's address and gateway from the two `ip` reports.
pub fn default_route_from(route_out: Option<&str>, addr_out: Option<&str>) -> (r: (
    Option<String>,
    Option<String>,
))
    ensures
        (opt_text(r.0), opt_text(r.1)) == default_route_spec(opt_str(route_out), opt_str(addr_out)),
{
    let routes = match route_out {
        Some(t) => ip_route_report(t),
        None => None,
    };
    let address = match addr_out {
        Some(t) => match ip_addr_report(t) {
            Some(ifs) => wan_ip(&ifs),
            None => None,
        },
        None => None,
    };
    match &routes {
        Some(v) => {
            if v.len() > 0 {
                assert(opt_texts(v@)[0] == opt_text(v@[0]));
            }
        },
        None => {},
    }
    default_route(&routes, address)
}

/// The usable entries of a neighbour report, in order.
pub open spec fn usable_neighbors(ns: Seq<RawNeighborView>) -> Seq<RawNeighborView>
    decreases ns.len(),
{
    if ns.len() == 0 {
        Seq::empty()
    } else {
        let rest = usable_neighbors(ns.drop_last());
        if neighbor_usable(ns.last()) {
            rest.push(ns.last())
        } else {
            rest
        }
    }
}

/// The neighbour entries that name clients, from an `ip -j neigh show` report
/// (`None` where the command failed): none where the report is not a JSON
/// array; else, in order, each entry with an address and a hardware address
/// other than all zeros.
pub fn neighbors_from(out: Option<&str>) -> (r: Vec<RawNeighbor>)
    ensures
        neighbor_views(r@) == match opt_str(out) {
            Some(t) => match ip_neigh_json(t) {
                Some(ns) => usable_neighbors(ns),
                None => Seq::empty(),
            },
            None => Seq::empty(),
        },
{
    let list = match out {
        Some(t) => ip_neigh_report(t),
        None => None,
    };
    let mut res: Vec<RawNeighbor> = Vec::new();
    match list {
        None => {
            assert(neighbor_views(res@) =~= Seq::<RawNeighborView>::empty());
            res
        },
        Some(ns) => {
            let ghost nv = neighbor_views(ns@);
            let mut k: usize = 0;
            assert(nv.take(0) =~= Seq::<RawNeighborView>::empty());
            assert(neighbor_views(res@) =~= Seq::<RawNeighborView>::empty());
            while k < ns.len()
                invariant
                    k <= ns@.len(),
                    nv == neighbor_views(ns@),
                    neighbor_views(res@) == usable_neighbors(nv.take(k as int)),
                decreases ns@.len() - k,
            {
                assert(nv.take(k + 1).drop_last() =~= nv.take(k as int));
                assert(nv.take(k + 1).last() == ns@[k as int]@);
                if neighbor_is_client(&ns[k]) {
                    let n = RawNeighbor {
                        dst: copy_opt(&ns[k].dst),
                        lladdr: copy_opt(&ns[k].lladdr),
                        dev: copy_opt(&ns[k].dev),
                    };
                    let ghost before = neighbor_views(res@);
                    res.push(n);
                    assert(neighbor_views(res@) =~= before.push(ns@[k as int]@));
                }
                k = k + 1;
            }
            assert(nv.take(k as int) =~= nv);
            res
        },
    }
}

// ---------------------------------------------------------------------
// Clients
// ---------------------------------------------------------------------

pub struct ClientView {
    pub hostname: Seq<char>,
    pub mac: Seq<char>,
    pub ip: Seq<char>,
    pub interface: Seq<char>,
    pub connected_since: i64,
}

impl View for ConnectedClient {
    type V = ClientView;

    open spec fn view(&self) -> ClientView {
        ClientView {
            hostname: self.hostname@,
            mac: self.mac@,
            ip: self.ip@,
            interface: self.interface@,
            connected_since: self.connected_since,
        }
    }
}

pub open spec fn client_views(v: Seq<ConnectedClient>) -> Seq<ClientView> {
    v.map_values(|c: ConnectedClient| c@)
}

/// The client described by one line of a dnsmasq lease file
/// (`expiry mac ip hostname ...`), where the line has at least four words, seen
/// at `now`.
pub open spec fn lease_client(line: Seq<char>, now: i64) -> Option<ClientView> {
    let p = words(line);
    if p.len() >= 4 {
        Some(
            ClientView {
                hostname: if p[3] == "*"@ {
                    "unknown"@
                } else {
                    p[3]
                },
                mac: p[1],
                ip: p[2],
                interface: "wlan0"@,
                connected_since: now,
            },
        )
    } else {
        None
    }
}

pub open spec fn leases_from(ls: Seq<Seq<char>>, now: i64) -> Seq<ClientView>
    decreases ls.len(),
{
    if ls.len() == 0 {
        Seq::empty()
    } else {
        let rest = leases_from(ls.drop_last(), now);
        match lease_client(ls.last(), now) {
            Some(c) => rest.push(c),
            None => rest,
        }
    }
}

/// The clients listed in a lease file, read at `now` (seconds since the Unix epoch).
pub fn parse_leases(content: &str, now: i64) -> (r: Vec<ConnectedClient>)
    ensures
        client_views(r@) == leases_from(lines_of(content@), now),
{
    let c = chars_of(content);
    let ls = lines_exec(c.as_slice());
    let ghost lv = views(ls@);
    let mut out: Vec<ConnectedClient> = Vec::new();
    let mut k: usize = 0;
    assert(lv.take(0) =~= Seq::<Seq<char>>::empty());
    while k < ls.len()
        invariant
            k <= ls@.len(),
            lv == views(ls@),
            client_views(out@) == leases_from(lv.take(k as int), now),
        decreases ls@.len() - k,
    {
        assert(lv[k as int] == ls@[k as int]@);
        assert(lv.take(k + 1).drop_last() =~= lv.take(k as int));
        assert(lv.take(k + 1).last() == lv[k as int]);
        let p = words_exec(ls[k].as_slice());
        if p.len() >= 4 {
            assert(views(p@)[1] == p@[1]@);
            assert(views(p@)[2] == p@[2]@);
            assert(views(p@)[3] == p@[3]@);
            let hostname = if eq_str(p[3].as_slice(), "*") {
                "unknown".to_owned()
            } else {
                string_from_chars(p[3].as_slice())
            };
            let client = ConnectedClient {
                hostname,
                mac: string_from_chars(p[1].as_slice()),
                ip: string_from_chars(p[2].as_slice()),
                interface: "wlan0".to_owned(),
                connected_since: now,
            };
            let ghost before = client_views(out@);
            out.push(client);
            assert(client_views(out@) =~= before.push(client@));
        }
        k = k + 1;
    }
    assert(lv.take(k as int) =~= lv);
    out
}

/// A neighbour entry names a client when it has an address and a hardware address
/// other than all zeros.
pub open spec fn neighbor_usable(n: RawNeighborView) -> bool {
    let ip = opt_or(n.dst, Seq::empty());
    let mac = opt_or(n.lladdr, Seq::empty());
    ip.len() > 0 && mac.len() > 0 && mac != "00:00:00:00:00:00"@
}

pub fn neighbor_is_client(n: &RawNeighbor) -> (r: bool)
    ensures
        r == neighbor_usable(n@),
{
    let ip = text_or_empty(&n.dst);
    let mac = text_or_empty(&n.lladdr);
    let ic = chars_of(ip.as_str());
    let mc = chars_of(mac.as_str());
    ic.len() > 0 && mc.len() > 0 && !eq_str(mc.as_slice(), "00:00:00:00:00:00")
}

/// The host name in `getent hosts` output: its second word.
pub fn hostname_from_getent(stdout: &str) -> (r: Option<String>)
    ensures
        opt_text(r) == (if words(stdout@).len() >= 2 {
            Some(words(stdout@)[1])
        } else {
            None
        }),
{
    let c = chars_of(stdout);
    let p = words_exec(c.as_slice());
    if p.len() >= 2 {
        assert(views(p@)[1] == p@[1]@);
        Some(string_from_chars(p[1].as_slice()))
    } else {
        None
    }
}

/// The client a usable neighbour entry stands for, with the host name found for
/// it, seen at `now` (seconds since the Unix epoch).
pub fn neighbor_client(n: &RawNeighbor, hostname: Option<String>, now: i64) -> (r: ConnectedClient)
    ensures
        r@ == (ClientView {
            hostname: text_or(hostname, "unknown"@),
            mac: text_or(n.lladdr, Seq::empty()),
            ip: text_or(n.dst, Seq::empty()),
            interface: text_or(n.dev, Seq::empty()),
            connected_since: now,
        }),
{
    ConnectedClient {
        hostname: text_or_exec(&hostname, "unknown"),
        mac: text_or_empty(&n.lladdr),
        ip: text_or_empty(&n.dst),
        interface: text_or_empty(&n.dev),
        connected_since: now,
    }
}

pub open spec fn has_ip(v: Seq<ClientView>, ip: Seq<char>) -> bool {
    exists|k: int| 0 <= k < v.len() && #[trigger] v[k].ip == ip
}

/// The lease clients, then each neighbour client whose address is not already listed.
pub open spec fn merge_spec(leases: Seq<ClientView>, neigh: Seq<ClientView>) -> Seq<ClientView>
    decreases neigh.len(),
{
    if neigh.len() == 0 {
        leases
    } else {
        let m = merge_spec(leases, neigh.drop_last());
        if has_ip(m, neigh.last().ip) {
            m
        } else {
            m.push(neigh.last())
        }
    }
}

fn copy_client(c: &ConnectedClient) -> (r: ConnectedClient)
    ensures
        r@ == c@,
{
    ConnectedClient {
        hostname: c.hostname.clone(),
        mac: c.mac.clone(),
        ip: c.ip.clone(),
        interface: c.interface.clone(),
        connected_since: c.connected_since,
    }
}

/// The connected clients: those with leases, then those seen only in the neighbour table.
pub fn merge_clients(leases: Vec<ConnectedClient>, neighbors: &Vec<ConnectedClient>) -> (r: Vec<
    ConnectedClient,
>)
    ensures
        client_views(r@) == merge_spec(client_views(leases@), client_views(neighbors@)),
{
    let mut out = leases;
    let ghost lv = client_views(out@);
    let ghost nv = client_views(neighbors@);
    let mut k: usize = 0;
    assert(nv.take(0) =~= Seq::<ClientView>::empty());
    while k < neighbors.len()
        invariant
            k <= neighbors@.len(),
            nv == client_views(neighbors@),
            client_views(out@) == merge_spec(lv, nv.take(k as int)),
        decreases neighbors@.len() - k,
    {
        let n = &neighbors[k];
        assert(nv.take(k + 1).drop_last() =~= nv.take(k as int));
        assert(nv.take(k + 1).last() == n@);
        let nip = chars_of(n.ip.as_str());
        let mut found = false;
        let mut j: usize = 0;
        while j < out.len()
            invariant
                j <= out@.len(),
                nip@ == n.ip@,
                found == exists|i: int| 0 <= i < j && #[trigger] client_views(out@)[i].ip == n.ip@,
            decreases out@.len() - j,
        {
            let oc = chars_of(out[j].ip.as_str());
            if chars_eq(oc.as_slice(), nip.as_slice()) {
                found = true;
            }
            assert(client_views(out@)[j as int].ip == out@[j as int].ip@);
            j = j + 1;
        }
        if !found {
            let ghost before = client_views(out@);
            out.push(copy_client(n));
            assert(client_views(out@) =~= before.push(n@));
        }
        k = k + 1;
    }
    assert(nv.take(k as int) =~= nv);
    out
}

/// Merging keeps every lease and never lists one address twice from the neighbour table.
pub proof fn lemma_merge_keeps_leases(leases: Seq<ClientView>, neigh: Seq<ClientView>)
    ensures
        merge_spec(leases, neigh).len() >= leases.len(),
        merge_spec(leases, neigh).take(leases.len() as int) == leases,
        merge_spec(leases, neigh).len() <= leases.len() + neigh.len(),
    decreases neigh.len(),
{
    if neigh.len() > 0 {
        lemma_merge_keeps_leases(leases, neigh.drop_last());
        let m = merge_spec(leases, neigh.drop_last());
        assert(m.push(neigh.last()).take(leases.len() as int) =~= m.take(leases.len() as int));
    } else {
        assert(leases.take(leases.len() as int) =~= leases);
    }
}


/// A network interface that may be a Wi-Fi adapter: its name starts with `wl`.
pub fn is_wifi_adapter(name: &str) -> (r: bool)
    ensures
        r == has_prefix(name@, "wl"@),
{
    let n = chars_of(name);
    has_prefix_str(n.as_slice(), "wl")
}

/// Whether `iw dev <iface> info` shows a 5 GHz channel (5180, 5200 or 5745 MHz);
/// a failed run shows none.
pub fn iw_supports_5g(success: bool, stdout: &str) -> (r: bool)
    ensures
        r == (success && (contains(stdout@, "5180"@) || contains(stdout@, "5200"@) || contains(
            stdout@,
            "5745"@,
        ))),
{
    if !success {
        return false;
    }
    let c = chars_of(stdout);
    contains_exec(c.as_slice(), lit("5180").as_slice()) || contains_exec(
        c.as_slice(),
        lit("5200").as_slice(),
    ) || contains_exec(c.as_slice(), lit("5745").as_slice())
}

/// Whether `iw dev <iface> info` mentions access-point mode; a failed run does not.
pub fn iw_supports_ap(success: bool, stdout: &str) -> (r: bool)
    ensures
        r == (success && contains(stdout@, "AP"@)),
{
    if !success {
        return false;
    }
    let c = chars_of(stdout);
    contains_exec(c.as_slice(), lit("AP").as_slice())
}

} // verus!
