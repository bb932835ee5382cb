//! WAN failover: which sources are tried, in what order, when the active one
//! fails its health check; what a switch asks of the privileged helper; and
//! the WAN state and log entry it leaves.
use vstd::prelude::*;
use crate::types::{HealthCheckType, WanSource, wan_source_label, wan_source_label_spec};
use crate::network::{WanStatus, opt_text};
use crate::privileged::{PrivRequest};
use crate::text::{chars_of, extend_str, has_prefix, starts_with, string_from_chars};
use crate::devices::strs;

verus! {

/// Whether a WAN source can carry traffic: the ethernet or Wi-Fi link is up, or the
/// modem is present and connected.
pub open spec fn source_up_spec(
    s: WanSource,
    ethernet_up: bool,
    wifi_up: bool,
    modem_present: bool,
    modem_connected: bool,
) -> bool {
    match s {
        WanSource::Ethernet => ethernet_up,
        WanSource::Wifi => wifi_up,
        WanSource::Cellular => modem_present && modem_connected,
    }
}

/// The sources to try, in priority order: each listed source other than the current
/// one whose link is up.
pub open spec fn candidates_spec(
    priority: Seq<WanSource>,
    current: WanSource,
    ethernet_up: bool,
    wifi_up: bool,
    modem_present: bool,
    modem_connected: bool,
) -> Seq<WanSource> {
    priority.filter(candidate_pred(current, ethernet_up, wifi_up, modem_present, modem_connected))
}

pub open spec fn candidate_pred(
    current: WanSource,
    ethernet_up: bool,
    wifi_up: bool,
    modem_present: bool,
    modem_connected: bool,
) -> spec_fn(WanSource) -> bool {
    |s: WanSource|
        s != current && source_up_spec(s, ethernet_up, wifi_up, modem_present, modem_connected)
}

pub fn source_up(
    s: WanSource,
    wan: &WanStatus,
    modem_present: bool,
    modem_connected: bool,
) -> (r: bool)
    ensures
        r == source_up_spec(s, wan.ethernet_up, wan.wifi_up, modem_present, modem_connected),
{
    match s {
        WanSource::Ethernet => wan.ethernet_up,
        WanSource::Wifi => wan.wifi_up,
        WanSource::Cellular => modem_present && modem_connected,
    }
}

/// The sources to health-check, in order, after the active one failed.
pub fn failover_candidates(
    priority: &Vec<WanSource>,
    wan: &WanStatus,
    modem_present: bool,
    modem_connected: bool,
) -> (r: Vec<WanSource>)
    ensures
        r@ == candidates_spec(
            priority@,
            wan.active_source,
            wan.ethernet_up,
            wan.wifi_up,
            modem_present,
            modem_connected,
        ),
{
    let ghost f = candidate_pred(
        wan.active_source,
        wan.ethernet_up,
        wan.wifi_up,
        modem_present,
        modem_connected,
    );
    let mut out: Vec<WanSource> = Vec::new();
    let mut i: usize = 0;
    assert(priority@.take(0) =~= Seq::<WanSource>::empty());
    while i < priority.len()
        invariant
            i <= priority@.len(),
            f == candidate_pred(
                wan.active_source,
                wan.ethernet_up,
                wan.wifi_up,
                modem_present,
                modem_connected,
            ),
            out@ == priority@.take(i as int).filter(f),
        decreases priority@.len() - i,
    {
        let s = priority[i];
        proof {
            reveal_with_fuel(Seq::<WanSource>::filter, 1);
            assert(priority@.take(i + 1).drop_last() =~= priority@.take(i as int));
        }
        if s != wan.active_source && source_up(s, wan, modem_present, modem_connected) {
            out.push(s);
        }
        i = i + 1;
    }
    assert(priority@.take(i as int) =~= priority@);
    out
}

/// The interface and gateway a switch to `s` uses: `eth0` or `wlan0` with the known
/// gateway (empty when none is known), or the cellular interface with no gateway.
pub open spec fn route_spec(s: WanSource, gateway: Option<Seq<char>>, cellular_iface: Seq<char>) -> (
    Seq<char>,
    Seq<char>,
) {
    let gw = match gateway {
        Some(g) => g,
        None => Seq::empty(),
    };
    match s {
        WanSource::Ethernet => ("eth0"@, gw),
        WanSource::Wifi => ("wlan0"@, gw),
        WanSource::Cellular => (cellular_iface, Seq::empty()),
    }
}

pub fn failover_route(s: WanSource, gateway: &Option<String>, cellular_iface: &str) -> (r: (
    String,
    String,
))
    ensures
        (r.0@, r.1@) == route_spec(s, opt_text(*gateway), cellular_iface@),
{
    let gw = match gateway {
        Some(g) => g.clone(),
        None => String::new(),
    };
    match s {
        WanSource::Ethernet => ("eth0".to_owned(), gw),
        WanSource::Wifi => ("wlan0".to_owned(), gw),
        WanSource::Cellular => (cellular_iface.to_owned(), String::new()),
    }
}

/// The helper requests that switch to `s`: bring the interface up, then set the
/// default route through the gateway when there is one. No request brings the
/// cellular link up first: the helper's protocol (`PrivRequest`) has no request
/// for connecting the modem, so a switch to cellular relies on a link that is
/// already connected.
pub fn switch_requests(s: WanSource, gateway: &Option<String>, cellular_iface: &str) -> (r: Vec<
    PrivRequest,
>)
    ensures
        ({
            let (iface, gw) = route_spec(s, opt_text(*gateway), cellular_iface@);
            &&& r@.len() == if gw.len() > 0 {
                2int
            } else {
                1int
            }
            &&& r@[0] matches PrivRequest::InterfaceUp { interface } && interface@ == iface
            &&& gw.len() > 0 ==> (r@[1] matches PrivRequest::SetDefaultRoute { interface, gateway }
                && interface@ == iface && gateway@ == gw)
        }),
{
    let (iface, gw) = failover_route(s, gateway, cellular_iface);
    let mut v: Vec<PrivRequest> = Vec::new();
    v.push(PrivRequest::InterfaceUp { interface: iface.clone() });
    let gc = chars_of(gw.as_str());
    if gc.len() > 0 {
        v.push(PrivRequest::SetDefaultRoute { interface: iface, gateway: gw });
    }
    v
}

/// The log entry for an automatic switch.
pub fn failover_reason(current: WanSource, to: WanSource) -> (r: String)
    ensures
        r@ == "health check failed on "@ + wan_source_label_spec(current) + ", switched to "@
            + wan_source_label_spec(to),
{
    let mut b = chars_of("health check failed on ");
    extend_str(&mut b, wan_source_label(current));
    extend_str(&mut b, ", switched to ");
    extend_str(&mut b, wan_source_label(to));
    string_from_chars(b.as_slice())
}

/// The log entry for a switch the user asked for.
pub fn manual_failover_reason(current: WanSource, to: WanSource) -> (r: String)
    ensures
        r@ == "manual failover from "@ + wan_source_label_spec(current) + " to "@
            + wan_source_label_spec(to),
{
    let mut b = chars_of("manual failover from ");
    extend_str(&mut b, wan_source_label(current));
    extend_str(&mut b, " to ");
    extend_str(&mut b, wan_source_label(to));
    string_from_chars(b.as_slice())
}

/// The WAN state after switching to `to`: that source active and online, the rest kept.
pub fn switched_wan(wan: WanStatus, to: WanSource) -> (r: WanStatus)
    ensures
        r.active_source == to,
        r.online,
        r.ethernet_up == wan.ethernet_up,
        r.wifi_up == wan.wifi_up,
        r.cellular_up == wan.cellular_up,
        opt_text(r.ip_address) == opt_text(wan.ip_address),
        opt_text(r.gateway) == opt_text(wan.gateway),
{
    WanStatus { active_source: to, online: true, ..wan }
}

/// Every source tried is up and differs from the one that failed, and none is tried
/// that the priority list does not name.
pub proof fn lemma_candidates_sound(
    priority: Seq<WanSource>,
    current: WanSource,
    ethernet_up: bool,
    wifi_up: bool,
    modem_present: bool,
    modem_connected: bool,
)
    ensures
        forall|i: int|
            0 <= i < candidates_spec(
                priority,
                current,
                ethernet_up,
                wifi_up,
                modem_present,
                modem_connected,
            ).len() ==> {
                let c = #[trigger] candidates_spec(
                    priority,
                    current,
                    ethernet_up,
                    wifi_up,
                    modem_present,
                    modem_connected,
                )[i];
                &&& c != current
                &&& source_up_spec(c, ethernet_up, wifi_up, modem_present, modem_connected)
                &&& priority.contains(c)
            },
{
    let f = candidate_pred(current, ethernet_up, wifi_up, modem_present, modem_connected);
    let c = priority.filter(f);
    assert forall|i: int| 0 <= i < c.len() implies f(c[i]) && priority.contains(c[i]) by {
        assert(c.contains(c[i]));
        priority.lemma_filter_contains_rev(f, c[i]);
        priority.lemma_filter_pred(f, i);
    }
}


/// How a health check is carried out: a command that succeeds when the target
/// answers, or an HTTP request to a URL.
pub enum HealthProbe {
    Command { program: String, args: Vec<String> },
    Http { url: String },
}

/// The URL an HTTP health check fetches: the target itself where it starts
/// with `http`, else `http://<target>/`.
pub open spec fn health_url_spec(target: Seq<char>) -> Seq<char> {
    if has_prefix(target, "http"@) {
        target
    } else {
        "http://"@ + target + "/"@
    }
}

/// The health check of `target` for a check type: one ping with a three-second
/// wait, a lookup of the name at the local resolver, or an HTTP request.
pub fn health_probe(check: HealthCheckType, target: &str) -> (r: HealthProbe)
    ensures
        match check {
            HealthCheckType::Ping => r matches HealthProbe::Command { program, args } && program@
                == "ping"@ && strs(args@) == seq!["-c"@, "1"@, "-W"@, "3"@, target@],
            HealthCheckType::Dns => r matches HealthProbe::Command { program, args } && program@
                == "nslookup"@ && strs(args@) == seq![target@, "127.0.0.1"@],
            HealthCheckType::Http => r matches HealthProbe::Http { url } && url@ == health_url_spec(
                target@,
            ),
        },
{
    match check {
        HealthCheckType::Ping => {
            let mut args: Vec<String> = Vec::new();
            args.push(String::from_str("-c"));
            args.push(String::from_str("1"));
            args.push(String::from_str("-W"));
            args.push(String::from_str("3"));
            args.push(String::from_str(target));
            assert(strs(args@) =~= seq!["-c"@, "1"@, "-W"@, "3"@, target@]);
            HealthProbe::Command { program: String::from_str("ping"), args }
        },
        HealthCheckType::Dns => {
            let mut args: Vec<String> = Vec::new();
            args.push(String::from_str(target));
            args.push(String::from_str("127.0.0.1"));
            assert(strs(args@) =~= seq![target@, "127.0.0.1"@]);
            HealthProbe::Command { program: String::from_str("nslookup"), args }
        },
        HealthCheckType::Http => {
            let t = chars_of(target);
            let url = if starts_with(t.as_slice(), chars_of("http").as_slice()) {
                String::from_str(target)
            } else {
                let mut b = chars_of("http://");
                extend_str(&mut b, target);
                extend_str(&mut b, "/");
                string_from_chars(b.as_slice())
            };
            HealthProbe::Http { url }
        },
    }
}

/// What the failover loop does next.
#[derive(Clone, Copy, Debug, PartialEq, Eq, Structural)]
pub enum FailoverStep {
    /// Failover is off, or the active source passed its health check: wait for
    /// the next round.
    Wait,
    /// Health-check this candidate next.
    Check(WanSource),
    /// Switch to this candidate: it is the first one that passed.
    SwitchTo(WanSource),
    /// Every candidate failed its check (or there was none): nothing is switched.
    NoneHealthy,
}

/// The next step of a failover round, from whether failover is on, whether the
/// active source passed its health check, the candidates in the order they are
/// tried, and the verdicts of the candidates checked so far (`results[i]` for
/// `candidates[i]`). The first candidate that passed is switched to; else the
/// next unchecked one is checked.
pub fn failover_step(
    enabled: bool,
    current_healthy: bool,
    candidates: &Vec<WanSource>,
    results: &Vec<bool>,
) -> (r: FailoverStep)
    requires
        results@.len() <= candidates@.len(),
    ensures
        (!enabled || current_healthy) <==> r is Wait,
        r matches FailoverStep::SwitchTo(c) ==> exists|i: int|
            0 <= i < results@.len() && results@[i] && (forall|j: int| 0 <= j < i ==> !results@[j])
                && c == candidates@[i],
        r matches FailoverStep::Check(c) ==> (forall|j: int| 0 <= j < results@.len() ==> !results@[j])
            && results@.len() < candidates@.len() && c == candidates@[results@.len() as int],
        r is NoneHealthy ==> (forall|j: int| 0 <= j < results@.len() ==> !results@[j])
            && results@.len() == candidates@.len(),
        (enabled && !current_healthy && exists|i: int| 0 <= i < results@.len() && results@[i])
            ==> r is SwitchTo,
{
    if !enabled || current_healthy {
        return FailoverStep::Wait;
    }
    let mut i: usize = 0;
    while i < results.len()
        invariant
            enabled && !current_healthy,
            i <= results@.len(),
            results@.len() <= candidates@.len(),
            forall|j: int| 0 <= j < i ==> !results@[j],
        decreases results@.len() - i,
    {
        if results[i] {
            return FailoverStep::SwitchTo(candidates[i]);
        }
        i = i + 1;
    }
    if results.len() < candidates.len() {
        FailoverStep::Check(candidates[results.len()])
    } else {
        FailoverStep::NoneHealthy
    }
}

} // verus!
