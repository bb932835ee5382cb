//! The privileged helper's protocol: the typed requests it accepts, the
//! configuration files it writes for them, the fixed commands it runs, and
//! the response it gives for each outcome. The helper never runs anything
//! but the steps planned here.
use vstd::prelude::*;
use crate::text::{
    decimal, decimal_exec, extend_chars, extend_str, chars_of, string_from_chars, lines_text,
    lemma_lines_text_concat, lemma_lines_text_one, lemma_lines_text_stripped,
    lemma_split_lines_text, lines_of, no_newline, split_on, strip_cr,
};

verus! {

#[derive(Clone, Copy, Debug, PartialEq, Eq, Structural)]
pub enum WifiBand {
    Band24G,
    Band5G,
}

#[derive(Clone, Copy, Debug, PartialEq, Eq, Structural)]
pub enum Encryption {
    Wpa2Psk,
    Wpa3Sae,
    Open,
}

#[derive(Clone, Debug)]
pub struct HostapdConfig {
    pub interface: String,
    pub ssid: String,
    pub password: String,
    pub channel: u8,
    pub band: WifiBand,
    pub encryption: Encryption,
    pub country_code: String,
    pub hidden: bool,
}

#[derive(Clone, Debug)]
pub struct DnsmasqConfig {
    pub interface: String,
    pub dhcp_range_start: String,
    pub dhcp_range_end: String,
    pub lease_time: String,
    pub dns_servers: Vec<String>,
}

#[derive(Clone, Debug)]
pub struct NftRule {
    pub table: String,
    pub chain: String,
    pub rule: String,
}

/// Typed requests accepted by the privileged helper.
/// The helper never accepts arbitrary commands, only these variants.
#[derive(Clone, Debug)]
pub enum PrivRequest {
    Ping,
    HostapdStart { config: HostapdConfig },
    HostapdStop,
    DnsmasqStart { config: DnsmasqConfig },
    DnsmasqStop,
    NftablesApply { rules: Vec<NftRule> },
    WireguardUp { config_path: String },
    WireguardDown { interface: String },
    OpenvpnUp { config_path: String },
    OpenvpnDown { interface: String },
    TorStart { config_path: String },
    TorStop,
    KillSwitchEnable { interface: String },
    KillSwitchDisable,
    InterfaceUp { interface: String },
    InterfaceDown { interface: String },
    SetDefaultRoute { interface: String, gateway: String },
}

#[derive(Clone, Debug)]
pub enum PrivResponse {
    Success,
    Pong,
    Error(String),
}

/// One step of carrying out a request.
#[derive(Clone, Debug)]
pub enum Step {
    /// Reply at once.
    Reply(PrivResponse),
    /// Write `contents` to `path`, first creating the directory `dir` when one is given.
    /// A failure is answered with `context` followed by the error.
    WriteFile { dir: Option<String>, path: String, contents: String, context: String },
    /// Run `program` with `args`, ignoring how it ends.
    RunIgnored { program: String, args: Vec<String> },
    /// Run `program` with `args` and wait for it. A failed launch is answered with
    /// `launch_context` and the error; a failed exit with `failure_context` and its
    /// standard error, unless `ok_on_failure` holds, in which case the reply is `Ok`.
    Run {
        program: String,
        args: Vec<String>,
        launch_context: String,
        failure_context: String,
        ok_on_failure: bool,
    },
    /// Start `program` with `args` without waiting for it.
    Spawn { program: String, args: Vec<String>, launch_context: String },
}

/// How a step went.
#[derive(Clone, Debug)]
pub enum StepOutcome {
    /// The file was written, or the program was started (for `Spawn`).
    Done,
    /// Writing the file, or starting the program, failed with this message.
    Failed(String),
    /// The program ran to its end.
    Exited { success: bool, stderr: String },
}

// ---------------------------------------------------------------------
// Views
// ---------------------------------------------------------------------

pub open spec fn str_views(v: Seq<String>) -> Seq<Seq<char>> {
    v.map_values(|s: String| s@)
}

pub enum StepView {
    Reply(ResponseView),
    WriteFile { dir: Option<Seq<char>>, path: Seq<char>, contents: Seq<char>, context: Seq<char> },
    RunIgnored { program: Seq<char>, args: Seq<Seq<char>> },
    Run {
        program: Seq<char>,
        args: Seq<Seq<char>>,
        launch_context: Seq<char>,
        failure_context: Seq<char>,
        ok_on_failure: bool,
    },
    Spawn { program: Seq<char>, args: Seq<Seq<char>>, launch_context: Seq<char> },
}

pub enum ResponseView {
    Success,
    Pong,
    Error(Seq<char>),
}

impl View for PrivResponse {
    type V = ResponseView;

    open spec fn view(&self) -> ResponseView {
        match self {
            PrivResponse::Success => ResponseView::Success,
            PrivResponse::Pong => ResponseView::Pong,
            PrivResponse::Error(m) => ResponseView::Error(m@),
        }
    }
}

impl View for Step {
    type V = StepView;

    open spec fn view(&self) -> StepView {
        match self {
            Step::Reply(r) => StepView::Reply(r@),
            Step::WriteFile { dir, path, contents, context } => StepView::WriteFile {
                dir: match dir {
                    Some(d) => Some(d@),
                    None => None,
                },
                path: path@,
                contents: contents@,
                context: context@,
            },
            Step::RunIgnored { program, args } => StepView::RunIgnored {
                program: program@,
                args: str_views(args@),
            },
            Step::Run { program, args, launch_context, failure_context, ok_on_failure } =>
                StepView::Run {
                program: program@,
                args: str_views(args@),
                launch_context: launch_context@,
                failure_context: failure_context@,
                ok_on_failure: *ok_on_failure,
            },
            Step::Spawn { program, args, launch_context } => StepView::Spawn {
                program: program@,
                args: str_views(args@),
                launch_context: launch_context@,
            },
        }
    }
}

pub open spec fn step_views(v: Seq<Step>) -> Seq<StepView> {
    v.map_values(|s: Step| s@)
}

// ---------------------------------------------------------------------
// Configuration files
// ---------------------------------------------------------------------

pub open spec fn band_mode(b: WifiBand) -> Seq<char> {
    match b {
        WifiBand::Band24G => "g"@,
        WifiBand::Band5G => "a"@,
    }
}

pub open spec fn encryption_section(e: Encryption, password: Seq<char>) -> Seq<char> {
    match e {
        Encryption::Open => "auth_algs=1\n"@,
        Encryption::Wpa2Psk => "wpa=2\nwpa_passphrase="@ + password
            + "\nwpa_key_mgmt=WPA-PSK\nrsn_pairwise=CCMP\n"@,
        Encryption::Wpa3Sae => "wpa=2\nwpa_passphrase="@ + password
            + "\nwpa_key_mgmt=WPA-PSK SAE\nrsn_pairwise=CCMP\nsae_require_mfp=1\nieee80211w=2\n"@,
    }
}

/// The hostapd configuration for an access point.
pub open spec fn hostapd_text(c: HostapdConfig) -> Seq<char> {
    "interface="@ + c.interface@ + "\ndriver=nl80211\nssid="@ + c.ssid@ + "\nhw_mode="@
        + band_mode(c.band) + "\nchannel="@ + decimal(c.channel as nat) + "\ncountry_code="@
        + c.country_code@ + "\n"@ + (if c.hidden {
        "ignore_broadcast_ssid=1\n"@
    } else {
        Seq::empty()
    }) + encryption_section(c.encryption, c.password@)
}

/// The lines of the encryption section of a hostapd configuration.
pub open spec fn encryption_lines(e: Encryption, password: Seq<char>) -> Seq<Seq<char>> {
    match e {
        Encryption::Open => seq!["auth_algs=1"@],
        Encryption::Wpa2Psk => seq![
            "wpa=2"@,
            "wpa_passphrase="@ + password,
            "wpa_key_mgmt=WPA-PSK"@,
            "rsn_pairwise=CCMP"@,
        ],
        Encryption::Wpa3Sae => seq![
            "wpa=2"@,
            "wpa_passphrase="@ + password,
            "wpa_key_mgmt=WPA-PSK SAE"@,
            "rsn_pairwise=CCMP"@,
            "sae_require_mfp=1"@,
            "ieee80211w=2"@,
        ],
    }
}

/// The lines of a hostapd configuration.
pub open spec fn hostapd_lines(c: HostapdConfig) -> Seq<Seq<char>> {
    seq![
        "interface="@ + c.interface@,
        "driver=nl80211"@,
        "ssid="@ + c.ssid@,
        "hw_mode="@ + band_mode(c.band),
        "channel="@ + decimal(c.channel as nat),
        "country_code="@ + c.country_code@,
    ] + (if c.hidden {
        seq!["ignore_broadcast_ssid=1"@]
    } else {
        Seq::empty()
    }) + encryption_lines(c.encryption, c.password@)
}

proof fn lemma_lines_text_cons(l: Seq<char>, rest: Seq<Seq<char>>)
    ensures
        lines_text(seq![l] + rest) == l + seq!['\n'] + lines_text(rest),
{
    lemma_lines_text_concat(seq![l], rest);
    lemma_lines_text_one(l);
}

proof fn lemma_hostapd_text_lines(c: HostapdConfig)
    ensures
        hostapd_text(c) == lines_text(hostapd_lines(c)),
{
    reveal_strlit("interface=");
    reveal_strlit("driver=nl80211");
    reveal_strlit("ssid=");
    reveal_strlit("hw_mode=");
    reveal_strlit("channel=");
    reveal_strlit("country_code=");
    reveal_strlit("ignore_broadcast_ssid=1");
    reveal_strlit("auth_algs=1");
    reveal_strlit("wpa=2");
    reveal_strlit("wpa_passphrase=");
    reveal_strlit("wpa_key_mgmt=WPA-PSK");
    reveal_strlit("wpa_key_mgmt=WPA-PSK SAE");
    reveal_strlit("rsn_pairwise=CCMP");
    reveal_strlit("sae_require_mfp=1");
    reveal_strlit("ieee80211w=2");
    reveal_strlit("\ndriver=nl80211\nssid=");
    reveal_strlit("\nhw_mode=");
    reveal_strlit("\nchannel=");
    reveal_strlit("\ncountry_code=");
    reveal_strlit("\n");
    reveal_strlit("ignore_broadcast_ssid=1\n");
    reveal_strlit("auth_algs=1\n");
    reveal_strlit("wpa=2\nwpa_passphrase=");
    reveal_strlit("\nwpa_key_mgmt=WPA-PSK\nrsn_pairwise=CCMP\n");
    reveal_strlit(
        "\nwpa_key_mgmt=WPA-PSK SAE\nrsn_pairwise=CCMP\nsae_require_mfp=1\nieee80211w=2\n",
    );
    let nl = seq!['\n'];
    let l0 = "interface="@ + c.interface@;
    let l1 = "driver=nl80211"@;
    let l2 = "ssid="@ + c.ssid@;
    let l3 = "hw_mode="@ + band_mode(c.band);
    let l4 = "channel="@ + decimal(c.channel as nat);
    let l5 = "country_code="@ + c.country_code@;
    let head = seq![l0, l1, l2, l3, l4, l5];
    let hid = if c.hidden {
        seq!["ignore_broadcast_ssid=1"@]
    } else {
        Seq::<Seq<char>>::empty()
    };
    let enc = encryption_lines(c.encryption, c.password@);
    // The head: six lines.
    lemma_lines_text_cons(l5, Seq::empty());
    assert(lines_text(Seq::<Seq<char>>::empty()) == Seq::<char>::empty());
    assert(seq![l4] + seq![l5] =~= seq![l4, l5]);
    lemma_lines_text_cons(l4, seq![l5]);
    assert(seq![l3] + seq![l4, l5] =~= seq![l3, l4, l5]);
    lemma_lines_text_cons(l3, seq![l4, l5]);
    assert(seq![l2] + seq![l3, l4, l5] =~= seq![l2, l3, l4, l5]);
    lemma_lines_text_cons(l2, seq![l3, l4, l5]);
    assert(seq![l1] + seq![l2, l3, l4, l5] =~= seq![l1, l2, l3, l4, l5]);
    lemma_lines_text_cons(l1, seq![l2, l3, l4, l5]);
    assert(seq![l0] + seq![l1, l2, l3, l4, l5] =~= head);
    lemma_lines_text_cons(l0, seq![l1, l2, l3, l4, l5]);
    let th = l0 + nl + (l1 + nl + (l2 + nl + (l3 + nl + (l4 + nl + (l5 + nl + Seq::empty())))));
    assert(lines_text(head) == th);
    assert(th =~= "interface="@ + c.interface@ + "\ndriver=nl80211\nssid="@ + c.ssid@ + "\nhw_mode="@
        + band_mode(c.band) + "\nchannel="@ + decimal(c.channel as nat) + "\ncountry_code="@
        + c.country_code@ + "\n"@);
    // The hidden line.
    if c.hidden {
        lemma_lines_text_one("ignore_broadcast_ssid=1"@);
        assert(lines_text(hid) =~= "ignore_broadcast_ssid=1\n"@);
    } else {
        assert(lines_text(hid) =~= Seq::<char>::empty());
    }
    // The encryption lines.
    let pw = c.password@;
    match c.encryption {
        Encryption::Open => {
            lemma_lines_text_one("auth_algs=1"@);
            assert(lines_text(enc) =~= encryption_section(c.encryption, pw));
        },
        Encryption::Wpa2Psk => {
            let e0 = "wpa=2"@;
            let e1 = "wpa_passphrase="@ + pw;
            let e2 = "wpa_key_mgmt=WPA-PSK"@;
            let e3 = "rsn_pairwise=CCMP"@;
            lemma_lines_text_cons(e3, Seq::empty());
            assert(seq![e2] + seq![e3] =~= seq![e2, e3]);
            lemma_lines_text_cons(e2, seq![e3]);
            assert(seq![e1] + seq![e2, e3] =~= seq![e1, e2, e3]);
            lemma_lines_text_cons(e1, seq![e2, e3]);
            assert(seq![e0] + seq![e1, e2, e3] =~= enc);
            lemma_lines_text_cons(e0, seq![e1, e2, e3]);
            assert(lines_text(enc) =~= encryption_section(c.encryption, pw));
        },
        Encryption::Wpa3Sae => {
            let e0 = "wpa=2"@;
            let e1 = "wpa_passphrase="@ + pw;
            let e2 = "wpa_key_mgmt=WPA-PSK SAE"@;
            let e3 = "rsn_pairwise=CCMP"@;
            let e4 = "sae_require_mfp=1"@;
            let e5 = "ieee80211w=2"@;
            lemma_lines_text_cons(e5, Seq::empty());
            assert(seq![e4] + seq![e5] =~= seq![e4, e5]);
            lemma_lines_text_cons(e4, seq![e5]);
            assert(seq![e3] + seq![e4, e5] =~= seq![e3, e4, e5]);
            lemma_lines_text_cons(e3, seq![e4, e5]);
            assert(seq![e2] + seq![e3, e4, e5] =~= seq![e2, e3, e4, e5]);
            lemma_lines_text_cons(e2, seq![e3, e4, e5]);
            assert(seq![e1] + seq![e2, e3, e4, e5] =~= seq![e1, e2, e3, e4, e5]);
            lemma_lines_text_cons(e1, seq![e2, e3, e4, e5]);
            assert(seq![e0] + seq![e1, e2, e3, e4, e5] =~= enc);
            lemma_lines_text_cons(e0, seq![e1, e2, e3, e4, e5]);
            assert(lines_text(enc) =~= encryption_section(c.encryption, pw));
        },
    }
    lemma_lines_text_concat(head, hid);
    lemma_lines_text_concat(head + hid, enc);
    assert(hostapd_lines(c) == head + hid + enc);
    assert(hostapd_text(c) =~= lines_text(head) + lines_text(hid) + lines_text(enc));
}

proof fn lemma_contains_concat(a: Seq<Seq<char>>, b: Seq<Seq<char>>, x: Seq<char>)
    ensures
        (a + b).contains(x) <==> (a.contains(x) || b.contains(x)),
{
    if a.contains(x) {
        let i = choose|i: int| 0 <= i < a.len() && a[i] == x;
        assert((a + b)[i] == x);
    }
    if b.contains(x) {
        let i = choose|i: int| 0 <= i < b.len() && b[i] == x;
        assert((a + b)[a.len() + i] == x);
    }
    if (a + b).contains(x) {
        let i = choose|i: int| 0 <= i < (a + b).len() && (a + b)[i] == x;
        if i < a.len() {
            assert(a[i] == x);
        } else {
            assert(b[i - a.len()] == x);
        }
    }
}

/// `l` and `t` differ at some position that both have.
spec fn line_differs(l: Seq<char>, t: Seq<char>) -> bool {
    exists|k: int| 0 <= k < t.len() && k < l.len() && #[trigger] l[k] != t[k]
}

/// No line of `ls` is `t` when each differs from it at some position.
proof fn lemma_none_is(ls: Seq<Seq<char>>, t: Seq<char>)
    requires
        forall|i: int| 0 <= i < ls.len() ==> #[trigger] line_differs(ls[i], t),
    ensures
        !ls.contains(t),
{
    if ls.contains(t) {
        let i = choose|i: int| 0 <= i < ls.len() && ls[i] == t;
        assert(line_differs(ls[i], t));
        let k = choose|k: int| 0 <= k < t.len() && k < ls[i].len() && #[trigger] ls[i][k] != t[k];
        assert(ls[i][k] == t[k]);
    }
}

proof fn lemma_no_newline_prefixed(p: Seq<char>, x: Seq<char>)
    requires
        no_newline(p),
        no_newline(x),
    ensures
        no_newline(p + x),
{
    let s = p + x;
    assert forall|j: int| 0 <= j < s.len() implies s[j] != '\n' by {
        if j < p.len() {
            assert(s[j] == p[j]);
        } else {
            assert(s[j] == x[j - p.len()]);
        }
    }
}

proof fn lemma_strip_prefixed(p: Seq<char>, x: Seq<char>)
    requires
        p.len() > 0,
        p.last() != '\r',
    ensures
        strip_cr(p + x) == p + strip_cr(x),
{
    if x.len() > 0 {
        assert((p + x).last() == x.last());
        if x.last() == '\r' {
            assert((p + x).drop_last() =~= p + x.drop_last());
        }
    } else {
        assert(p + x =~= p);
        assert((p + x).last() == p.last());
    }
}

/// The hostapd file reads back line by line, where no field holds a line break
/// (a carriage return that ends a field is dropped as the line is read). Of
/// those lines: `hw_mode=a` is there exactly for the 5 GHz band and `hw_mode=g`
/// for 2.4 GHz, `ignore_broadcast_ssid=1` exactly for a hidden network,
/// `wpa_passphrase=` and the password exactly when the network is encrypted (for
/// an encrypted network whose password does not end in a carriage return),
/// `sae_require_mfp=1` exactly for WPA3-SAE, and `auth_algs=1` exactly for an
/// open network.
pub proof fn lemma_hostapd_lines(c: HostapdConfig)
    requires
        no_newline(c.interface@),
        no_newline(c.ssid@),
        no_newline(c.country_code@),
        no_newline(c.password@),
        c.encryption != Encryption::Open ==> !(c.password@.len() > 0 && c.password@.last()
            == '\r'),
    ensures
        lines_of(hostapd_text(c)) == hostapd_lines(c).map_values(|l: Seq<char>| strip_cr(l)),
        lines_of(hostapd_text(c)).contains("hw_mode=a"@) <==> c.band == WifiBand::Band5G,
        lines_of(hostapd_text(c)).contains("hw_mode=g"@) <==> c.band == WifiBand::Band24G,
        lines_of(hostapd_text(c)).contains("ignore_broadcast_ssid=1"@) <==> c.hidden,
        lines_of(hostapd_text(c)).contains("wpa_passphrase="@ + c.password@) <==> c.encryption
            != Encryption::Open,
        lines_of(hostapd_text(c)).contains("sae_require_mfp=1"@) <==> c.encryption
            == Encryption::Wpa3Sae,
        lines_of(hostapd_text(c)).contains("auth_algs=1"@) <==> c.encryption == Encryption::Open,
{
    reveal_strlit("interface=");
    reveal_strlit("driver=nl80211");
    reveal_strlit("ssid=");
    reveal_strlit("hw_mode=");
    reveal_strlit("channel=");
    reveal_strlit("country_code=");
    reveal_strlit("ignore_broadcast_ssid=1");
    reveal_strlit("auth_algs=1");
    reveal_strlit("wpa=2");
    reveal_strlit("wpa_passphrase=");
    reveal_strlit("wpa_key_mgmt=WPA-PSK");
    reveal_strlit("wpa_key_mgmt=WPA-PSK SAE");
    reveal_strlit("rsn_pairwise=CCMP");
    reveal_strlit("sae_require_mfp=1");
    reveal_strlit("ieee80211w=2");
    reveal_strlit("a");
    reveal_strlit("g");
    lemma_hostapd_text_lines(c);
    let pw = c.password@;
    let dec = decimal(c.channel as nat);
    crate::text::lemma_decimal(c.channel as nat);
    assert(no_newline(dec) && dec.last() != '\r') by {
        assert forall|j: int| 0 <= j < dec.len() implies dec[j] != '\n' by {
            assert(crate::text::is_digit(dec[j]));
        }
        assert(crate::text::is_digit(dec[dec.len() - 1]));
    }
    let m = band_mode(c.band);
    assert(no_newline(m) && m.len() > 0 && m.last() != '\r');
    let head = seq![
        "interface="@ + c.interface@,
        "driver=nl80211"@,
        "ssid="@ + c.ssid@,
        "hw_mode="@ + m,
        "channel="@ + dec,
        "country_code="@ + c.country_code@,
    ];
    let hid = if c.hidden {
        seq!["ignore_broadcast_ssid=1"@]
    } else {
        Seq::<Seq<char>>::empty()
    };
    let enc = encryption_lines(c.encryption, pw);
    let ls = hostapd_lines(c);
    assert(ls == head + hid + enc);
    // No line holds a line break.
    lemma_no_newline_prefixed("interface="@, c.interface@);
    lemma_no_newline_prefixed("ssid="@, c.ssid@);
    lemma_no_newline_prefixed("hw_mode="@, m);
    lemma_no_newline_prefixed("channel="@, dec);
    lemma_no_newline_prefixed("country_code="@, c.country_code@);
    lemma_no_newline_prefixed("wpa_passphrase="@, pw);
    assert forall|i: int| 0 <= i < ls.len() implies no_newline(#[trigger] ls[i]) by {
        if i < 6 {
            assert(ls[i] == head[i]);
        } else if i < 6 + hid.len() {
            assert(ls[i] == hid[i - 6]);
        } else {
            assert(ls[i] == enc[i - 6 - hid.len()]);
        }
    }
    lemma_lines_text_stripped(ls);
    // The lines as read: carriage returns dropped from the ends of the fields.
    lemma_strip_prefixed("interface="@, c.interface@);
    lemma_strip_prefixed("ssid="@, c.ssid@);
    lemma_strip_prefixed("hw_mode="@, m);
    lemma_strip_prefixed("channel="@, dec);
    lemma_strip_prefixed("country_code="@, c.country_code@);
    lemma_strip_prefixed("wpa_passphrase="@, pw);
    assert(strip_cr(m) == m);
    assert(strip_cr(dec) == dec);
    let head_read = seq![
        "interface="@ + strip_cr(c.interface@),
        "driver=nl80211"@,
        "ssid="@ + strip_cr(c.ssid@),
        "hw_mode="@ + m,
        "channel="@ + dec,
        "country_code="@ + strip_cr(c.country_code@),
    ];
    let sl = ls.map_values(|l: Seq<char>| strip_cr(l));
    assert forall|i: int| 0 <= i < enc.len() implies strip_cr(#[trigger] enc[i]) == enc[i] by {
        if c.encryption != Encryption::Open && i == 1 {
            assert(strip_cr(pw) == pw);
        }
    }
    assert forall|i: int| 0 <= i < hid.len() implies strip_cr(#[trigger] hid[i]) == hid[i] by {}
    assert(sl =~= head_read + hid + enc) by {
        assert forall|i: int| 0 <= i < sl.len() implies sl[i] == (head_read + hid + enc)[i] by {
            if i < 6 {
                assert(ls[i] == head[i]);
            } else if i < 6 + hid.len() {
                assert(ls[i] == hid[i - 6]);
            } else {
                assert(ls[i] == enc[i - 6 - hid.len()]);
            }
        }
    }
    lemma_contains_concat(head_read, hid, "hw_mode=a"@);
    lemma_contains_concat(head_read + hid, enc, "hw_mode=a"@);
    lemma_contains_concat(head_read, hid, "hw_mode=g"@);
    lemma_contains_concat(head_read + hid, enc, "hw_mode=g"@);
    lemma_contains_concat(head_read, hid, "ignore_broadcast_ssid=1"@);
    lemma_contains_concat(head_read + hid, enc, "ignore_broadcast_ssid=1"@);
    lemma_contains_concat(head_read, hid, "wpa_passphrase="@ + pw);
    lemma_contains_concat(head_read + hid, enc, "wpa_passphrase="@ + pw);
    lemma_contains_concat(head_read, hid, "sae_require_mfp=1"@);
    lemma_contains_concat(head_read + hid, enc, "sae_require_mfp=1"@);
    lemma_contains_concat(head_read, hid, "auth_algs=1"@);
    lemma_contains_concat(head_read + hid, enc, "auth_algs=1"@);
    lemma_hostapd_head(
        strip_cr(c.interface@),
        strip_cr(c.ssid@),
        c.band,
        dec,
        strip_cr(c.country_code@),
        pw,
        head_read,
    );
    lemma_hostapd_hidden(c.hidden, hid);
    lemma_hostapd_encryption(c.encryption, pw, enc);
}

/// Split at its line breaks, the hostapd file gives its lines (and an empty piece
/// after the last line break), where no field holds a line break. Of those lines,
/// whatever the fields end in: `hw_mode=a` is there exactly for the 5 GHz band and
/// `hw_mode=g` for 2.4 GHz, `ignore_broadcast_ssid=1` exactly for a hidden
/// network, `wpa_passphrase=` and the password exactly when the network is
/// encrypted, `sae_require_mfp=1` exactly for WPA3-SAE, and `auth_algs=1` exactly
/// for an open network.
pub proof fn lemma_hostapd_split(c: HostapdConfig)
    requires
        no_newline(c.interface@),
        no_newline(c.ssid@),
        no_newline(c.country_code@),
        no_newline(c.password@),
    ensures
        split_on(hostapd_text(c), '\n') == hostapd_lines(c).push(Seq::empty()),
        split_on(hostapd_text(c), '\n').contains("hw_mode=a"@) <==> c.band == WifiBand::Band5G,
        split_on(hostapd_text(c), '\n').contains("hw_mode=g"@) <==> c.band == WifiBand::Band24G,
        split_on(hostapd_text(c), '\n').contains("ignore_broadcast_ssid=1"@) <==> c.hidden,
        split_on(hostapd_text(c), '\n').contains("wpa_passphrase="@ + c.password@) <==> c.encryption
            != Encryption::Open,
        split_on(hostapd_text(c), '\n').contains("sae_require_mfp=1"@) <==> c.encryption
            == Encryption::Wpa3Sae,
        split_on(hostapd_text(c), '\n').contains("auth_algs=1"@) <==> c.encryption
            == Encryption::Open,
{
    reveal_strlit("interface=");
    reveal_strlit("driver=nl80211");
    reveal_strlit("ssid=");
    reveal_strlit("hw_mode=");
    reveal_strlit("channel=");
    reveal_strlit("country_code=");
    reveal_strlit("ignore_broadcast_ssid=1");
    reveal_strlit("auth_algs=1");
    reveal_strlit("wpa=2");
    reveal_strlit("wpa_passphrase=");
    reveal_strlit("wpa_key_mgmt=WPA-PSK");
    reveal_strlit("wpa_key_mgmt=WPA-PSK SAE");
    reveal_strlit("rsn_pairwise=CCMP");
    reveal_strlit("sae_require_mfp=1");
    reveal_strlit("ieee80211w=2");
    reveal_strlit("hw_mode=a");
    reveal_strlit("hw_mode=g");
    reveal_strlit("a");
    reveal_strlit("g");
    lemma_hostapd_text_lines(c);
    let pw = c.password@;
    let dec = decimal(c.channel as nat);
    crate::text::lemma_decimal(c.channel as nat);
    assert(no_newline(dec)) by {
        assert forall|j: int| 0 <= j < dec.len() implies dec[j] != '\n' by {
            assert(crate::text::is_digit(dec[j]));
        }
    }
    let m = band_mode(c.band);
    assert(no_newline(m));
    let head = seq![
        "interface="@ + c.interface@,
        "driver=nl80211"@,
        "ssid="@ + c.ssid@,
        "hw_mode="@ + m,
        "channel="@ + dec,
        "country_code="@ + c.country_code@,
    ];
    let hid = if c.hidden {
        seq!["ignore_broadcast_ssid=1"@]
    } else {
        Seq::<Seq<char>>::empty()
    };
    let enc = encryption_lines(c.encryption, pw);
    let ls = hostapd_lines(c);
    assert(ls == head + hid + enc);
    lemma_no_newline_prefixed("interface="@, c.interface@);
    lemma_no_newline_prefixed("ssid="@, c.ssid@);
    lemma_no_newline_prefixed("hw_mode="@, m);
    lemma_no_newline_prefixed("channel="@, dec);
    lemma_no_newline_prefixed("country_code="@, c.country_code@);
    lemma_no_newline_prefixed("wpa_passphrase="@, pw);
    assert forall|i: int| 0 <= i < ls.len() implies no_newline(#[trigger] ls[i]) by {
        if i < 6 {
            assert(ls[i] == head[i]);
        } else if i < 6 + hid.len() {
            assert(ls[i] == hid[i - 6]);
        } else {
            assert(ls[i] == enc[i - 6 - hid.len()]);
        }
    }
    lemma_split_lines_text(ls);
    let tail = seq![Seq::<char>::empty()];
    assert(ls.push(Seq::empty()) =~= head + hid + enc + tail);
    let targets = seq![
        "hw_mode=a"@,
        "hw_mode=g"@,
        "ignore_broadcast_ssid=1"@,
        "wpa_passphrase="@ + pw,
        "sae_require_mfp=1"@,
        "auth_algs=1"@,
    ];
    assert forall|k: int| 0 <= k < targets.len() implies !tail.contains(#[trigger] targets[k]) by {
        if tail.contains(targets[k]) {
            assert(tail[0].len() == 0);
        }
    }
    assert(!tail.contains("hw_mode=a"@) && !tail.contains("hw_mode=g"@)) by {
        assert(targets[0] == "hw_mode=a"@);
        assert(targets[1] == "hw_mode=g"@);
    }
    assert(!tail.contains("ignore_broadcast_ssid=1"@) && !tail.contains("wpa_passphrase="@ + pw)) by {
        assert(targets[2] == "ignore_broadcast_ssid=1"@);
        assert(targets[3] == "wpa_passphrase="@ + pw);
    }
    assert(!tail.contains("sae_require_mfp=1"@) && !tail.contains("auth_algs=1"@)) by {
        assert(targets[4] == "sae_require_mfp=1"@);
        assert(targets[5] == "auth_algs=1"@);
    }
    let x = head + hid + enc;
    lemma_contains_concat(head, hid, "hw_mode=a"@);
    lemma_contains_concat(head + hid, enc, "hw_mode=a"@);
    lemma_contains_concat(x, tail, "hw_mode=a"@);
    lemma_contains_concat(head, hid, "hw_mode=g"@);
    lemma_contains_concat(head + hid, enc, "hw_mode=g"@);
    lemma_contains_concat(x, tail, "hw_mode=g"@);
    lemma_contains_concat(head, hid, "ignore_broadcast_ssid=1"@);
    lemma_contains_concat(head + hid, enc, "ignore_broadcast_ssid=1"@);
    lemma_contains_concat(x, tail, "ignore_broadcast_ssid=1"@);
    lemma_contains_concat(head, hid, "wpa_passphrase="@ + pw);
    lemma_contains_concat(head + hid, enc, "wpa_passphrase="@ + pw);
    lemma_contains_concat(x, tail, "wpa_passphrase="@ + pw);
    lemma_contains_concat(head, hid, "sae_require_mfp=1"@);
    lemma_contains_concat(head + hid, enc, "sae_require_mfp=1"@);
    lemma_contains_concat(x, tail, "sae_require_mfp=1"@);
    lemma_contains_concat(head, hid, "auth_algs=1"@);
    lemma_contains_concat(head + hid, enc, "auth_algs=1"@);
    lemma_contains_concat(x, tail, "auth_algs=1"@);
    lemma_hostapd_head(c.interface@, c.ssid@, c.band, dec, c.country_code@, pw, head);
    lemma_hostapd_hidden(c.hidden, hid);
    lemma_hostapd_encryption(c.encryption, pw, enc);
}

proof fn lemma_hostapd_head(
    iface: Seq<char>,
    ssid: Seq<char>,
    band: WifiBand,
    channel: Seq<char>,
    country: Seq<char>,
    password: Seq<char>,
    head: Seq<Seq<char>>,
)
    requires
        head == seq![
            "interface="@ + iface,
            "driver=nl80211"@,
            "ssid="@ + ssid,
            "hw_mode="@ + band_mode(band),
            "channel="@ + channel,
            "country_code="@ + country,
        ],
    ensures
        head.contains("hw_mode=a"@) <==> band == WifiBand::Band5G,
        head.contains("hw_mode=g"@) <==> band == WifiBand::Band24G,
        !head.contains("ignore_broadcast_ssid=1"@),
        !head.contains("wpa_passphrase="@ + password),
        !head.contains("sae_require_mfp=1"@),
        !head.contains("auth_algs=1"@),
{
    reveal_strlit("interface=");
    reveal_strlit("driver=nl80211");
    reveal_strlit("ssid=");
    reveal_strlit("hw_mode=");
    reveal_strlit("channel=");
    reveal_strlit("country_code=");
    reveal_strlit("ignore_broadcast_ssid=1");
    reveal_strlit("auth_algs=1");
    reveal_strlit("wpa_passphrase=");
    reveal_strlit("sae_require_mfp=1");
    reveal_strlit("hw_mode=a");
    reveal_strlit("hw_mode=g");
    reveal_strlit("a");
    reveal_strlit("g");
    let h3 = head.remove(3);
    assert forall|i: int| 0 <= i < h3.len() implies line_differs(h3[i], "hw_mode=a"@) by {
        assert(h3[i][0] != 'h');
    }
    lemma_none_is(h3, "hw_mode=a"@);
    assert forall|i: int| 0 <= i < h3.len() implies line_differs(h3[i], "hw_mode=g"@) by {
        assert(h3[i][0] != 'h');
    }
    lemma_none_is(h3, "hw_mode=g"@);
    assert(head =~= h3.insert(3, head[3]));
    let m = head[3];
    if head.contains("hw_mode=a"@) {
        let i = choose|i: int| 0 <= i < head.len() && head[i] == "hw_mode=a"@;
        if i != 3 {
            assert(h3[if i < 3 { i } else { i - 1 }] == head[i]);
        } else {
            assert(m[8] == 'a');
        }
    }
    if head.contains("hw_mode=g"@) {
        let i = choose|i: int| 0 <= i < head.len() && head[i] == "hw_mode=g"@;
        if i != 3 {
            assert(h3[if i < 3 { i } else { i - 1 }] == head[i]);
        } else {
            assert(m[8] == 'g');
        }
    }
    if band == WifiBand::Band5G {
        assert(m =~= "hw_mode=a"@);
        assert(head[3] == "hw_mode=a"@);
    } else {
        assert(m =~= "hw_mode=g"@);
        assert(head[3] == "hw_mode=g"@);
    }
    assert forall|i: int| 0 <= i < head.len() implies line_differs(head[i], "ignore_broadcast_ssid=1"@) by {
        if i == 0 {
            assert(head[i][1] != "ignore_broadcast_ssid=1"@[1]);
        } else {
            assert(head[i][0] != 'i');
        }
    }
    lemma_none_is(head, "ignore_broadcast_ssid=1"@);
    let wp = "wpa_passphrase="@ + password;
    assert forall|i: int| 0 <= i < head.len() implies line_differs(head[i], wp) by {
        assert(wp[0] == 'w');
        assert(head[i][0] != 'w');
    }
    lemma_none_is(head, wp);
    assert forall|i: int| 0 <= i < head.len() implies line_differs(head[i], "sae_require_mfp=1"@) by {
        if i == 2 {
            assert(head[i][1] != "sae_require_mfp=1"@[1]);
        } else {
            assert(head[i][0] != 's');
        }
    }
    lemma_none_is(head, "sae_require_mfp=1"@);
    assert forall|i: int| 0 <= i < head.len() implies line_differs(head[i], "auth_algs=1"@) by {
        assert(head[i][0] != 'a');
    }
    lemma_none_is(head, "auth_algs=1"@);
}

proof fn lemma_hostapd_hidden(hidden: bool, hid: Seq<Seq<char>>)
    requires
        hid == if hidden {
            seq!["ignore_broadcast_ssid=1"@]
        } else {
            Seq::<Seq<char>>::empty()
        },
    ensures
        !hid.contains("hw_mode=a"@),
        !hid.contains("hw_mode=g"@),
        hid.contains("ignore_broadcast_ssid=1"@) <==> hidden,
        forall|p: Seq<char>| !hid.contains("wpa_passphrase="@ + p),
        !hid.contains("sae_require_mfp=1"@),
        !hid.contains("auth_algs=1"@),
{
    reveal_strlit("ignore_broadcast_ssid=1");
    reveal_strlit("hw_mode=a");
    reveal_strlit("hw_mode=g");
    reveal_strlit("wpa_passphrase=");
    reveal_strlit("sae_require_mfp=1");
    reveal_strlit("auth_algs=1");
    if hidden {
        assert(hid[0] == "ignore_broadcast_ssid=1"@);
        assert forall|p: Seq<char>| !hid.contains("wpa_passphrase="@ + p) by {
            if hid.contains("wpa_passphrase="@ + p) {
                assert(("wpa_passphrase="@ + p)[0] == 'w');
                assert(hid[0][0] == 'i');
            }
        }
        assert(!hid.contains("hw_mode=a"@)) by {
            if hid.contains("hw_mode=a"@) {
                assert(hid[0][0] != "hw_mode=a"@[0]);
            }
        }
        assert(!hid.contains("hw_mode=g"@)) by {
            if hid.contains("hw_mode=g"@) {
                assert(hid[0][0] != "hw_mode=g"@[0]);
            }
        }
        assert(!hid.contains("sae_require_mfp=1"@)) by {
            if hid.contains("sae_require_mfp=1"@) {
                assert(hid[0][0] != "sae_require_mfp=1"@[0]);
            }
        }
        assert(!hid.contains("auth_algs=1"@)) by {
            if hid.contains("auth_algs=1"@) {
                assert(hid[0][0] != "auth_algs=1"@[0]);
            }
        }
    }
}

proof fn lemma_hostapd_encryption(e: Encryption, pw: Seq<char>, enc: Seq<Seq<char>>)
    requires
        enc == encryption_lines(e, pw),
    ensures
        !enc.contains("hw_mode=a"@),
        !enc.contains("hw_mode=g"@),
        !enc.contains("ignore_broadcast_ssid=1"@),
        enc.contains("wpa_passphrase="@ + pw) <==> e != Encryption::Open,
        enc.contains("sae_require_mfp=1"@) <==> e == Encryption::Wpa3Sae,
        enc.contains("auth_algs=1"@) <==> e == Encryption::Open,
{
    reveal_strlit("auth_algs=1");
    reveal_strlit("wpa=2");
    reveal_strlit("wpa_passphrase=");
    reveal_strlit("wpa_key_mgmt=WPA-PSK");
    reveal_strlit("wpa_key_mgmt=WPA-PSK SAE");
    reveal_strlit("rsn_pairwise=CCMP");
    reveal_strlit("sae_require_mfp=1");
    reveal_strlit("ieee80211w=2");
    reveal_strlit("ignore_broadcast_ssid=1");
    reveal_strlit("hw_mode=a");
    reveal_strlit("hw_mode=g");
    let wp = "wpa_passphrase="@ + pw;
    assert(wp[0] == 'w' && wp[3] == '_' && wp[4] == 'p');
    assert forall|i: int| 0 <= i < enc.len() implies line_differs(enc[i], "hw_mode=a"@) by {
        assert(enc[i][0] != 'h');
    }
    lemma_none_is(enc, "hw_mode=a"@);
    assert forall|i: int| 0 <= i < enc.len() implies line_differs(enc[i], "hw_mode=g"@) by {
        assert(enc[i][0] != 'h');
    }
    lemma_none_is(enc, "hw_mode=g"@);
    assert forall|i: int| 0 <= i < enc.len() implies line_differs(enc[i], "ignore_broadcast_ssid=1"@) by {
        assert(enc[i][1] != 'g');
    }
    lemma_none_is(enc, "ignore_broadcast_ssid=1"@);
    match e {
        Encryption::Open => {
            assert(enc[0] == "auth_algs=1"@);
            assert forall|i: int| 0 <= i < enc.len() implies line_differs(enc[i], wp) by {
                assert(enc[i][0] != wp[0]);
            }
            lemma_none_is(enc, wp);
            assert forall|i: int| 0 <= i < enc.len() implies line_differs(enc[i], "sae_require_mfp=1"@) by {
                assert(enc[i][0] != 's');
            }
            lemma_none_is(enc, "sae_require_mfp=1"@);
        },
        Encryption::Wpa2Psk => {
            assert(enc[1] == wp);
            assert forall|i: int| 0 <= i < enc.len() implies line_differs(enc[i], "sae_require_mfp=1"@) by {
                assert(enc[i][0] != 's');
            }
            lemma_none_is(enc, "sae_require_mfp=1"@);
            assert forall|i: int| 0 <= i < enc.len() implies line_differs(enc[i], "auth_algs=1"@) by {
                assert(enc[i][0] != 'a');
            }
            lemma_none_is(enc, "auth_algs=1"@);
        },
        Encryption::Wpa3Sae => {
            assert(enc[1] == wp);
            assert(enc[4] == "sae_require_mfp=1"@);
            assert forall|i: int| 0 <= i < enc.len() implies line_differs(enc[i], "auth_algs=1"@) by {
                assert(enc[i][0] != 'a');
            }
            lemma_none_is(enc, "auth_algs=1"@);
        },
    }
}

pub open spec fn server_lines(servers: Seq<String>) -> Seq<char>
    decreases servers.len(),
{
    if servers.len() == 0 {
        Seq::empty()
    } else {
        server_lines(servers.drop_last()) + "server="@ + servers.last()@ + "\n"@
    }
}

/// The dnsmasq configuration for the access point's DHCP and DNS service.
pub open spec fn dnsmasq_text(c: DnsmasqConfig) -> Seq<char> {
    "interface="@ + c.interface@ + "\nbind-interfaces\ndhcp-range="@ + c.dhcp_range_start@
        + ","@ + c.dhcp_range_end@ + ","@ + c.lease_time@ + "\n"@ + server_lines(c.dns_servers@)
}

pub open spec fn nft_rule_line(r: NftRule) -> Seq<char> {
    "table "@ + r.table@ + " { chain "@ + r.chain@ + " { "@ + r.rule@ + " } }\n"@
}

/// The nftables rule file: one table and chain per rule.
pub open spec fn nftables_text(rules: Seq<NftRule>) -> Seq<char>
    decreases rules.len(),
{
    if rules.len() == 0 {
        Seq::empty()
    } else {
        nftables_text(rules.drop_last()) + nft_rule_line(rules.last())
    }
}

/// The kill-switch rules: drop all traffic that does not leave through `iface`.
pub open spec fn killswitch_text(iface: Seq<char>) -> Seq<char> {
    "table inet pi-kiosk-killswitch {\n  chain killswitch {\n    meta oifname != \""@ + iface
        + "\" drop;\n    ip daddr 127.0.0.0/8 accept;\n  }\n}\n"@
}

/// The hostapd configuration file's contents.
pub fn hostapd_config(c: &HostapdConfig) -> (r: String)
    ensures
        r@ == hostapd_text(*c),
{
    let mut b: Vec<char> = Vec::new();
    extend_str(&mut b, "interface=");
    extend_str(&mut b, c.interface.as_str());
    extend_str(&mut b, "\ndriver=nl80211\nssid=");
    extend_str(&mut b, c.ssid.as_str());
    extend_str(&mut b, "\nhw_mode=");
    match c.band {
        WifiBand::Band24G => extend_str(&mut b, "g"),
        WifiBand::Band5G => extend_str(&mut b, "a"),
    }
    extend_str(&mut b, "\nchannel=");
    let ch = decimal_exec(c.channel as u64);
    extend_chars(&mut b, ch.as_slice());
    extend_str(&mut b, "\ncountry_code=");
    extend_str(&mut b, c.country_code.as_str());
    extend_str(&mut b, "\n");
    let ghost head = b@;
    if c.hidden {
        extend_str(&mut b, "ignore_broadcast_ssid=1\n");
    } else {
        assert(b@ =~= head + Seq::<char>::empty());
    }
    match c.encryption {
        Encryption::Open => {
            extend_str(&mut b, "auth_algs=1\n");
        },
        Encryption::Wpa2Psk => {
            let ghost before = b@;
            extend_str(&mut b, "wpa=2\nwpa_passphrase=");
            extend_str(&mut b, c.password.as_str());
            extend_str(&mut b, "\nwpa_key_mgmt=WPA-PSK\nrsn_pairwise=CCMP\n");
            assert(b@ =~= before + encryption_section(c.encryption, c.password@));
        },
        Encryption::Wpa3Sae => {
            let ghost before = b@;
            extend_str(&mut b, "wpa=2\nwpa_passphrase=");
            extend_str(&mut b, c.password.as_str());
            extend_str(
                &mut b,
                "\nwpa_key_mgmt=WPA-PSK SAE\nrsn_pairwise=CCMP\nsae_require_mfp=1\nieee80211w=2\n",
            );
            assert(b@ =~= before + encryption_section(c.encryption, c.password@));
        },
    }
    assert(b@ =~= hostapd_text(*c));
    string_from_chars(b.as_slice())
}

/// The dnsmasq configuration file's contents.
pub fn dnsmasq_config(c: &DnsmasqConfig) -> (r: String)
    ensures
        r@ == dnsmasq_text(*c),
{
    let mut b: Vec<char> = Vec::new();
    extend_str(&mut b, "interface=");
    extend_str(&mut b, c.interface.as_str());
    extend_str(&mut b, "\nbind-interfaces\ndhcp-range=");
    extend_str(&mut b, c.dhcp_range_start.as_str());
    extend_str(&mut b, ",");
    extend_str(&mut b, c.dhcp_range_end.as_str());
    extend_str(&mut b, ",");
    extend_str(&mut b, c.lease_time.as_str());
    extend_str(&mut b, "\n");
    let ghost head = b@;
    let mut i: usize = 0;
    assert(c.dns_servers@.take(0) =~= Seq::<String>::empty());
    assert(b@ =~= head + server_lines(c.dns_servers@.take(0)));
    while i < c.dns_servers.len()
        invariant
            i <= c.dns_servers@.len(),
            b@ == head + server_lines(c.dns_servers@.take(i as int)),
        decreases c.dns_servers@.len() - i,
    {
        extend_str(&mut b, "server=");
        extend_str(&mut b, c.dns_servers[i].as_str());
        extend_str(&mut b, "\n");
        i = i + 1;
        assert(c.dns_servers@.take(i as int).drop_last() =~= c.dns_servers@.take(i - 1));
        assert(b@ =~= head + server_lines(c.dns_servers@.take(i as int)));
    }
    assert(c.dns_servers@.take(i as int) =~= c.dns_servers@);
    assert(b@ =~= dnsmasq_text(*c));
    string_from_chars(b.as_slice())
}

/// The nftables rule file's contents.
pub fn nftables_rules(rules: &[NftRule]) -> (r: String)
    ensures
        r@ == nftables_text(rules@),
{
    let mut b: Vec<char> = Vec::new();
    let mut i: usize = 0;
    assert(rules@.take(0) =~= Seq::<NftRule>::empty());
    while i < rules.len()
        invariant
            i <= rules@.len(),
            b@ == nftables_text(rules@.take(i as int)),
        decreases rules@.len() - i,
    {
        let ghost before = b@;
        let r = &rules[i];
        extend_str(&mut b, "table ");
        extend_str(&mut b, r.table.as_str());
        extend_str(&mut b, " { chain ");
        extend_str(&mut b, r.chain.as_str());
        extend_str(&mut b, " { ");
        extend_str(&mut b, r.rule.as_str());
        extend_str(&mut b, " } }\n");
        i = i + 1;
        assert(rules@.take(i as int).drop_last() =~= rules@.take(i - 1));
        assert(b@ =~= before + nft_rule_line(rules@[i - 1]));
    }
    assert(rules@.take(i as int) =~= rules@);
    string_from_chars(b.as_slice())
}

/// The kill-switch rule file's contents.
pub fn killswitch_rules(interface: &str) -> (r: String)
    ensures
        r@ == killswitch_text(interface@),
{
    let mut b: Vec<char> = Vec::new();
    extend_str(&mut b, "table inet pi-kiosk-killswitch {\n  chain killswitch {\n    meta oifname != \"");
    extend_str(&mut b, interface);
    extend_str(&mut b, "\" drop;\n    ip daddr 127.0.0.0/8 accept;\n  }\n}\n");
    assert(b@ =~= killswitch_text(interface@));
    string_from_chars(b.as_slice())
}

// ---------------------------------------------------------------------
// Planning
// ---------------------------------------------------------------------

pub open spec fn run_view(
    program: Seq<char>,
    args: Seq<Seq<char>>,
    failure_context: Seq<char>,
    launch_context: Seq<char>,
) -> StepView {
    StepView::Run { program, args, launch_context, failure_context, ok_on_failure: false }
}

pub open spec fn systemctl(verb: Seq<char>, unit: Seq<char>, failure: Seq<char>) -> StepView {
    run_view("systemctl"@, seq![verb, unit], failure, "failed to run systemctl: "@)
}

/// The steps that carry out a request, in order.
pub open spec fn plan_spec(req: PrivRequest) -> Seq<StepView> {
    match req {
        PrivRequest::Ping => seq![StepView::Reply(ResponseView::Pong)],
        PrivRequest::HostapdStart { config } => seq![
            StepView::WriteFile {
                dir: Some("/etc/hostapd"@),
                path: "/etc/hostapd/hostapd.conf"@,
                contents: hostapd_text(config),
                context: "failed to write hostapd config: "@,
            },
            systemctl("restart"@, "hostapd"@, "hostapd start failed: "@),
        ],
        PrivRequest::HostapdStop => seq![systemctl("stop"@, "hostapd"@, "hostapd stop failed: "@)],
        PrivRequest::DnsmasqStart { config } => seq![
            StepView::WriteFile {
                dir: Some("/etc/dnsmasq.d"@),
                path: "/etc/dnsmasq.d/pi-kiosk.conf"@,
                contents: dnsmasq_text(config),
                context: "failed to write dnsmasq config: "@,
            },
            systemctl("restart"@, "dnsmasq"@, "dnsmasq start failed: "@),
        ],
        PrivRequest::DnsmasqStop => seq![systemctl("stop"@, "dnsmasq"@, "dnsmasq stop failed: "@)],
        PrivRequest::NftablesApply { rules } => seq![
            StepView::WriteFile {
                dir: Some("/etc/nftables.d"@),
                path: "/etc/nftables.d/pi-kiosk.nft"@,
                contents: nftables_text(rules@),
                context: "failed to write nftables rules: "@,
            },
            run_view(
                "nft"@,
                seq!["-f"@, "/etc/nftables.d/pi-kiosk.nft"@],
                "nft apply failed: "@,
                "failed to run nft: "@,
            ),
        ],
        PrivRequest::WireguardUp { config_path } => seq![
            run_view(
                "wg-quick"@,
                seq!["up"@, config_path@],
                "wg-quick up failed: "@,
                "failed to run wg-quick: "@,
            ),
        ],
        PrivRequest::WireguardDown { interface } => seq![
            run_view(
                "wg-quick"@,
                seq!["down"@, interface@],
                "wg-quick down failed: "@,
                "failed to run wg-quick: "@,
            ),
        ],
        PrivRequest::OpenvpnUp { config_path } => seq![
            systemctl("start"@, "openvpn@pi-kiosk"@, "openvpn start failed: "@),
        ],
        PrivRequest::OpenvpnDown { interface } => seq![
            systemctl("stop"@, "openvpn@pi-kiosk"@, "openvpn stop failed: "@),
        ],
        PrivRequest::TorStart { config_path } => seq![
            StepView::Spawn {
                program: "tor"@,
                args: seq!["-f"@, config_path@],
                launch_context: "failed to start tor: "@,
            },
        ],
        PrivRequest::TorStop => seq![
            StepView::Run {
                program: "pkill"@,
                args: seq!["-x"@, "tor"@],
                launch_context: "failed to kill tor: "@,
                failure_context: Seq::empty(),
                ok_on_failure: true,
            },
        ],
        PrivRequest::KillSwitchEnable { interface } => seq![
            StepView::WriteFile {
                dir: None,
                path: "/etc/nftables.d/pi-kiosk-killswitch.nft"@,
                contents: killswitch_text(interface@),
                context: "failed to write kill-switch rules: "@,
            },
            run_view(
                "nft"@,
                seq!["-f"@, "/etc/nftables.d/pi-kiosk-killswitch.nft"@],
                "nft apply failed: "@,
                "failed to run nft: "@,
            ),
        ],
        PrivRequest::KillSwitchDisable => seq![
            StepView::Run {
                program: "nft"@,
                args: seq!["delete"@, "table"@, "inet"@, "pi-kiosk-killswitch"@],
                launch_context: "failed to run nft: "@,
                failure_context: Seq::empty(),
                ok_on_failure: true,
            },
        ],
        PrivRequest::InterfaceUp { interface } => seq![
            run_view(
                "ip"@,
                seq!["link"@, "set"@, interface@, "up"@],
                "interface up failed: "@,
                "failed to run ip: "@,
            ),
        ],
        PrivRequest::InterfaceDown { interface } => seq![
            run_view(
                "ip"@,
                seq!["link"@, "set"@, interface@, "down"@],
                "interface down failed: "@,
                "failed to run ip: "@,
            ),
        ],
        PrivRequest::SetDefaultRoute { interface, gateway } => seq![
            StepView::RunIgnored { program: "ip"@, args: seq!["route"@, "del"@, "default"@] },
            run_view(
                "ip"@,
                seq!["route"@, "add"@, "default"@, "via"@, gateway@, "dev"@, interface@],
                "set default route failed: "@,
                "failed to run ip: "@,
            ),
        ],
    }
}

/// The programs the helper may run: nothing else is ever started.
pub open spec fn allowed_program(p: Seq<char>) -> bool {
    ||| p == "systemctl"@
    ||| p == "nft"@
    ||| p == "wg-quick"@
    ||| p == "tor"@
    ||| p == "pkill"@
    ||| p == "ip"@
}

pub open spec fn step_program_allowed(s: StepView) -> bool {
    match s {
        StepView::RunIgnored { program, .. } => allowed_program(program),
        StepView::Run { program, .. } => allowed_program(program),
        StepView::Spawn { program, .. } => allowed_program(program),
        _ => true,
    }
}

/// Every request, whatever strings it carries, is carried out by fixed programs only.
pub proof fn lemma_only_fixed_programs(req: PrivRequest)
    ensures
        forall|i: int|
            0 <= i < plan_spec(req).len() ==> #[trigger] step_program_allowed(plan_spec(req)[i]),
{
}

/// The strings a request carries that may reach a command line.
pub open spec fn request_strings(req: PrivRequest) -> Seq<Seq<char>> {
    match req {
        PrivRequest::WireguardUp { config_path } => seq![config_path@],
        PrivRequest::WireguardDown { interface } => seq![interface@],
        PrivRequest::OpenvpnUp { config_path } => seq![config_path@],
        PrivRequest::OpenvpnDown { interface } => seq![interface@],
        PrivRequest::TorStart { config_path } => seq![config_path@],
        PrivRequest::KillSwitchEnable { interface } => seq![interface@],
        PrivRequest::InterfaceUp { interface } => seq![interface@],
        PrivRequest::InterfaceDown { interface } => seq![interface@],
        PrivRequest::SetDefaultRoute { interface, gateway } => seq![interface@, gateway@],
        _ => Seq::empty(),
    }
}

/// The fixed words that the helper's command lines are made of.
pub open spec fn fixed_arg(a: Seq<char>) -> bool {
    ||| a == "restart"@
    ||| a == "start"@
    ||| a == "stop"@
    ||| a == "hostapd"@
    ||| a == "dnsmasq"@
    ||| a == "openvpn@pi-kiosk"@
    ||| a == "-f"@
    ||| a == "/etc/nftables.d/pi-kiosk.nft"@
    ||| a == "/etc/nftables.d/pi-kiosk-killswitch.nft"@
    ||| a == "up"@
    ||| a == "down"@
    ||| a == "-x"@
    ||| a == "tor"@
    ||| a == "delete"@
    ||| a == "table"@
    ||| a == "inet"@
    ||| a == "pi-kiosk-killswitch"@
    ||| a == "link"@
    ||| a == "set"@
    ||| a == "route"@
    ||| a == "del"@
    ||| a == "add"@
    ||| a == "default"@
    ||| a == "via"@
    ||| a == "dev"@
}

/// The arguments of a step that runs a program.
pub open spec fn step_args(s: StepView) -> Seq<Seq<char>> {
    match s {
        StepView::RunIgnored { args, .. } => args,
        StepView::Run { args, .. } => args,
        StepView::Spawn { args, .. } => args,
        _ => Seq::empty(),
    }
}

/// Every argument the helper passes to a program is one of its fixed words or,
/// whole and as one argument, a string the request carries: a request's strings
/// are never spliced into another argument, and no shell reads them.
pub proof fn lemma_args_fixed_or_whole(req: PrivRequest)
    ensures
        forall|i: int, j: int|
            0 <= i < plan_spec(req).len() && 0 <= j < step_args(plan_spec(req)[i]).len() ==> {
                let a = #[trigger] step_args(plan_spec(req)[i])[j];
                fixed_arg(a) || request_strings(req).contains(a)
            },
{
    let plan = plan_spec(req);
    let rs = request_strings(req);
    assert forall|i: int, j: int|
        0 <= i < plan.len() && 0 <= j < step_args(plan[i]).len() implies {
        let a = #[trigger] step_args(plan[i])[j];
        fixed_arg(a) || rs.contains(a)
    } by {
        let a = step_args(plan[i])[j];
        if rs.len() > 0 && a == rs[0] {
            assert(rs.contains(a));
        } else if rs.len() > 1 && a == rs[1] {
            assert(rs.contains(a));
        }
    }
}

/// Whether the helper answers a request by how its last command exits: every
/// request but `Ping`, `TorStart` (answered once tor is started), `TorStop` and
/// `KillSwitchDisable` (answered `Success` however their command ends).
pub open spec fn answered_by_exit(req: PrivRequest) -> bool {
    !(req is Ping || req is TorStart || req is TorStop || req is KillSwitchDisable)
}

/// No request but `Ping` is answered `Pong`. For a request answered by how its
/// last command exits, the steps before it never answer `Success` (they go on or
/// fail), and the last one answers `Success` exactly when its command ran and
/// exited with success.
pub proof fn lemma_dispatch_replies(req: PrivRequest)
    ensures
        !(req is Ping) ==> forall|i: int, o: StepOutcome, last: bool|
            0 <= i < plan_spec(req).len() ==> !(#[trigger] step_reply_spec(plan_spec(req)[i], o, last)
                == Some(ResponseView::Pong)),
        answered_by_exit(req) ==> forall|i: int, o: StepOutcome|
            0 <= i < plan_spec(req).len() - 1 ==> !(#[trigger] step_reply_spec(
                plan_spec(req)[i],
                o,
                false,
            ) == Some(ResponseView::Success)),
        answered_by_exit(req) ==> forall|o: StepOutcome|
            !(o is Done) ==> (#[trigger] step_reply_spec(
                plan_spec(req).last(),
                o,
                true,
            ) == Some(ResponseView::Success) <==> (o matches StepOutcome::Exited { success, .. }
                && success)),
{
}

/// An interface request is carried out by one run of `ip link set` on that
/// interface, whose last argument is the direction asked for: `up` for
/// `InterfaceUp` and `down` for `InterfaceDown`; the two plans for one interface
/// differ in that argument only.
pub proof fn lemma_interface_direction(interface: String)
    ensures
        ({
            let up = plan_spec(PrivRequest::InterfaceUp { interface });
            let down = plan_spec(PrivRequest::InterfaceDown { interface });
            &&& up.len() == 1 && down.len() == 1
            &&& up[0] matches StepView::Run { program, args, .. } && program == "ip"@ && args
                == seq!["link"@, "set"@, interface@, "up"@]
            &&& down[0] matches StepView::Run { program, args, .. } && program == "ip"@ && args
                == seq!["link"@, "set"@, interface@, "down"@]
            &&& step_args(up[0]).drop_last() == step_args(down[0]).drop_last()
            &&& step_args(up[0]).last() != step_args(down[0]).last()
        }),
{
    reveal_strlit("up");
    reveal_strlit("down");
    let up = plan_spec(PrivRequest::InterfaceUp { interface });
    let down = plan_spec(PrivRequest::InterfaceDown { interface });
    assert(step_args(up[0]).drop_last() =~= step_args(down[0]).drop_last());
    assert("up"@.len() != "down"@.len());
}

fn owned(s: &str) -> (r: String)
    ensures
        r@ == s@,
{
    s.to_owned()
}

fn args2(a: &str, b: &str) -> (r: Vec<String>)
    ensures
        str_views(r@) == seq![a@, b@],
{
    let mut v: Vec<String> = Vec::new();
    v.push(owned(a));
    v.push(owned(b));
    assert(str_views(v@) =~= seq![a@, b@]);
    v
}

fn args3(a: &str, b: &str, c: &str) -> (r: Vec<String>)
    ensures
        str_views(r@) == seq![a@, b@, c@],
{
    let mut v: Vec<String> = Vec::new();
    v.push(owned(a));
    v.push(owned(b));
    v.push(owned(c));
    assert(str_views(v@) =~= seq![a@, b@, c@]);
    v
}

fn args4(a: &str, b: &str, c: &str, d: &str) -> (r: Vec<String>)
    ensures
        str_views(r@) == seq![a@, b@, c@, d@],
{
    let mut v: Vec<String> = Vec::new();
    v.push(owned(a));
    v.push(owned(b));
    v.push(owned(c));
    v.push(owned(d));
    assert(str_views(v@) =~= seq![a@, b@, c@, d@]);
    v
}

fn run_step(program: &str, args: Vec<String>, failure: &str, launch: &str) -> (r: Step)
    ensures
        r@ == run_view(program@, str_views(args@), failure@, launch@),
{
    Step::Run {
        program: owned(program),
        args,
        launch_context: owned(launch),
        failure_context: owned(failure),
        ok_on_failure: false,
    }
}

fn systemctl_step(verb: &str, unit: &str, failure: &str) -> (r: Step)
    ensures
        r@ == systemctl(verb@, unit@, failure@),
{
    run_step("systemctl", args2(verb, unit), failure, "failed to run systemctl: ")
}

fn one(s: Step) -> (r: Vec<Step>)
    ensures
        step_views(r@) == seq![s@],
{
    let mut v: Vec<Step> = Vec::new();
    v.push(s);
    assert(step_views(v@) =~= seq![s@]);
    v
}

fn two(a: Step, b: Step) -> (r: Vec<Step>)
    ensures
        step_views(r@) == seq![a@, b@],
{
    let mut v: Vec<Step> = Vec::new();
    v.push(a);
    v.push(b);
    assert(step_views(v@) =~= seq![a@, b@]);
    v
}

/// The steps that carry out `req` (the decisions of the helper's dispatcher).
pub fn plan_request(req: &PrivRequest) -> (r: Vec<Step>)
    ensures
        step_views(r@) == plan_spec(*req),
{
    match req {
        PrivRequest::Ping => one(Step::Reply(PrivResponse::Pong)),
        PrivRequest::HostapdStart { config } => two(
            Step::WriteFile {
                dir: Some(owned("/etc/hostapd")),
                path: owned("/etc/hostapd/hostapd.conf"),
                contents: hostapd_config(config),
                context: owned("failed to write hostapd config: "),
            },
            systemctl_step("restart", "hostapd", "hostapd start failed: "),
        ),
        PrivRequest::HostapdStop => one(systemctl_step("stop", "hostapd", "hostapd stop failed: ")),
        PrivRequest::DnsmasqStart { config } => two(
            Step::WriteFile {
                dir: Some(owned("/etc/dnsmasq.d")),
                path: owned("/etc/dnsmasq.d/pi-kiosk.conf"),
                contents: dnsmasq_config(config),
                context: owned("failed to write dnsmasq config: "),
            },
            systemctl_step("restart", "dnsmasq", "dnsmasq start failed: "),
        ),
        PrivRequest::DnsmasqStop => one(systemctl_step("stop", "dnsmasq", "dnsmasq stop failed: ")),
        PrivRequest::NftablesApply { rules } => two(
            Step::WriteFile {
                dir: Some(owned("/etc/nftables.d")),
                path: owned("/etc/nftables.d/pi-kiosk.nft"),
                contents: nftables_rules(rules.as_slice()),
                context: owned("failed to write nftables rules: "),
            },
            run_step(
                "nft",
                args2("-f", "/etc/nftables.d/pi-kiosk.nft"),
                "nft apply failed: ",
                "failed to run nft: ",
            ),
        ),
        PrivRequest::WireguardUp { config_path } => one(
            run_step(
                "wg-quick",
                args2("up", config_path.as_str()),
                "wg-quick up failed: ",
                "failed to run wg-quick: ",
            ),
        ),
        PrivRequest::WireguardDown { interface } => one(
            run_step(
                "wg-quick",
                args2("down", interface.as_str()),
                "wg-quick down failed: ",
                "failed to run wg-quick: ",
            ),
        ),
        PrivRequest::OpenvpnUp { config_path: _ } => one(
            systemctl_step("start", "openvpn@pi-kiosk", "openvpn start failed: "),
        ),
        PrivRequest::OpenvpnDown { interface: _ } => one(
            systemctl_step("stop", "openvpn@pi-kiosk", "openvpn stop failed: "),
        ),
        PrivRequest::TorStart { config_path } => one(
            Step::Spawn {
                program: owned("tor"),
                args: args2("-f", config_path.as_str()),
                launch_context: owned("failed to start tor: "),
            },
        ),
        PrivRequest::TorStop => one(
            Step::Run {
                program: owned("pkill"),
                args: args2("-x", "tor"),
                launch_context: owned("failed to kill tor: "),
                failure_context: String::new(),
                ok_on_failure: true,
            },
        ),
        PrivRequest::KillSwitchEnable { interface } => two(
            Step::WriteFile {
                dir: None,
                path: owned("/etc/nftables.d/pi-kiosk-killswitch.nft"),
                contents: killswitch_rules(interface.as_str()),
                context: owned("failed to write kill-switch rules: "),
            },
            run_step(
                "nft",
                args2("-f", "/etc/nftables.d/pi-kiosk-killswitch.nft"),
                "nft apply failed: ",
                "failed to run nft: ",
            ),
        ),
        PrivRequest::KillSwitchDisable => one(
            Step::Run {
                program: owned("nft"),
                args: args4("delete", "table", "inet", "pi-kiosk-killswitch"),
                launch_context: owned("failed to run nft: "),
                failure_context: String::new(),
                ok_on_failure: true,
            },
        ),
        PrivRequest::InterfaceUp { interface } => one(
            run_step(
                "ip",
                args4("link", "set", interface.as_str(), "up"),
                "interface up failed: ",
                "failed to run ip: ",
            ),
        ),
        PrivRequest::InterfaceDown { interface } => one(
            run_step(
                "ip",
                args4("link", "set", interface.as_str(), "down"),
                "interface down failed: ",
                "failed to run ip: ",
            ),
        ),
        PrivRequest::SetDefaultRoute { interface, gateway } => {
            let mut add: Vec<String> = Vec::new();
            add.push(owned("route"));
            add.push(owned("add"));
            add.push(owned("default"));
            add.push(owned("via"));
            add.push(gateway.clone());
            add.push(owned("dev"));
            add.push(interface.clone());
            assert(str_views(add@) =~= seq![
                "route"@,
                "add"@,
                "default"@,
                "via"@,
                gateway@,
                "dev"@,
                interface@,
            ]);
            two(
                Step::RunIgnored { program: owned("ip"), args: args3("route", "del", "default") },
                run_step("ip", add, "set default route failed: ", "failed to run ip: "),
            )
        },
    }
}

// ---------------------------------------------------------------------
// Responses
// ---------------------------------------------------------------------

/// The reply a step's outcome calls for, or `None` when the next step should run.
pub open spec fn step_reply_spec(step: StepView, outcome: StepOutcome, is_last: bool) -> Option<
    ResponseView,
> {
    match step {
        StepView::Reply(r) => Some(r),
        StepView::WriteFile { context, .. } => match outcome {
            StepOutcome::Failed(e) => Some(ResponseView::Error(context + e@)),
            _ => if is_last {
                Some(ResponseView::Success)
            } else {
                None
            },
        },
        StepView::RunIgnored { .. } => if is_last {
            Some(ResponseView::Success)
        } else {
            None
        },
        StepView::Run { launch_context, failure_context, ok_on_failure, .. } => match outcome {
            StepOutcome::Failed(e) => Some(ResponseView::Error(launch_context + e@)),
            StepOutcome::Exited { success, stderr } => if success || ok_on_failure {
                Some(ResponseView::Success)
            } else {
                Some(ResponseView::Error(failure_context + stderr@))
            },
            StepOutcome::Done => Some(ResponseView::Success),
        },
        StepView::Spawn { launch_context, .. } => match outcome {
            StepOutcome::Failed(e) => Some(ResponseView::Error(launch_context + e@)),
            _ => Some(ResponseView::Success),
        },
    }
}

fn copy_response(r: &PrivResponse) -> (c: PrivResponse)
    ensures
        c@ == r@,
{
    match r {
        PrivResponse::Success => PrivResponse::Success,
        PrivResponse::Pong => PrivResponse::Pong,
        PrivResponse::Error(m) => PrivResponse::Error(m.clone()),
    }
}

fn concat(a: &String, b: &String) -> (r: String)
    ensures
        r@ == a@ + b@,
{
    let mut v = chars_of(a.as_str());
    extend_str(&mut v, b.as_str());
    string_from_chars(v.as_slice())
}

/// The reply to send after a step ended with `outcome`, or `None` to go on with the
/// next step (`is_last` tells whether there is one).
pub fn step_reply(step: &Step, outcome: &StepOutcome, is_last: bool) -> (r: Option<PrivResponse>)
    ensures
        match r {
            Some(resp) => step_reply_spec(step@, *outcome, is_last) == Some(resp@),
            None => step_reply_spec(step@, *outcome, is_last) is None,
        },
{
    match step {
        Step::Reply(r) => Some(copy_response(r)),
        Step::WriteFile { context, .. } => match outcome {
            StepOutcome::Failed(e) => Some(PrivResponse::Error(concat(context, e))),
            _ => if is_last {
                Some(PrivResponse::Success)
            } else {
                None
            },
        },
        Step::RunIgnored { .. } => if is_last {
            Some(PrivResponse::Success)
        } else {
            None
        },
        Step::Run { launch_context, failure_context, ok_on_failure, .. } => match outcome {
            StepOutcome::Failed(e) => Some(PrivResponse::Error(concat(launch_context, e))),
            StepOutcome::Exited { success, stderr } => if *success || *ok_on_failure {
                Some(PrivResponse::Success)
            } else {
                Some(PrivResponse::Error(concat(failure_context, stderr)))
            },
            StepOutcome::Done => Some(PrivResponse::Success),
        },
        Step::Spawn { launch_context, .. } => match outcome {
            StepOutcome::Failed(e) => Some(PrivResponse::Error(concat(launch_context, e))),
            _ => Some(PrivResponse::Success),
        },
    }
}

/// What a caller of the helper makes of its reply: `Ok` and `Pong` are success,
/// an error reply or a transport error is the failure with its message.
pub fn response_outcome(resp: Result<PrivResponse, String>) -> (r: Result<(), String>)
    ensures
        match resp {
            Ok(PrivResponse::Success) | Ok(PrivResponse::Pong) => r is Ok,
            Ok(PrivResponse::Error(e)) => r matches Err(m) && m@ == e@,
            Err(e) => r matches Err(m) && m@ == e@,
        },
{
    match resp {
        Ok(PrivResponse::Success) => Ok(()),
        Ok(PrivResponse::Pong) => Ok(()),
        Ok(PrivResponse::Error(e)) => Err(e),
        Err(e) => Err(e),
    }
}

// ---------------------------------------------------------------------
// Framing
// ---------------------------------------------------------------------

/// The 4-byte big-endian header that precedes a message of `len` bytes.
pub open spec fn header_value(h: Seq<u8>) -> nat {
    (h[0] as nat) * 0x100_0000 + (h[1] as nat) * 0x1_0000 + (h[2] as nat) * 0x100 + (h[3] as nat)
}

/// A message framed for the helper's socket: its length as a big-endian `u32`,
/// then the message.
pub fn encode_frame(payload: &[u8]) -> (r: Vec<u8>)
    requires
        payload@.len() <= u32::MAX,
    ensures
        r@.len() == payload@.len() + 4,
        header_value(r@.take(4)) == payload@.len(),
        r@.skip(4) == payload@,
{
    let n = payload.len() as u32;
    let b0 = (n >> 24) as u8;
    let b1 = ((n >> 16) & 0xff) as u8;
    let b2 = ((n >> 8) & 0xff) as u8;
    let b3 = (n & 0xff) as u8;
    assert((b0 as nat) * 0x100_0000 + (b1 as nat) * 0x1_0000 + (b2 as nat) * 0x100 + (b3 as nat)
        == n as nat) by (bit_vector)
        requires
            b0 == (n >> 24) as u8,
            b1 == ((n >> 16) & 0xff) as u8,
            b2 == ((n >> 8) & 0xff) as u8,
            b3 == (n & 0xff) as u8,
    ;
    let mut r: Vec<u8> = Vec::new();
    r.push(b0);
    r.push(b1);
    r.push(b2);
    r.push(b3);
    let mut i: usize = 0;
    while i < payload.len()
        invariant
            i <= payload@.len(),
            r@.len() == 4 + i,
            r@[0] == b0,
            r@[1] == b1,
            r@[2] == b2,
            r@[3] == b3,
            r@.skip(4) == payload@.take(i as int),
        decreases payload@.len() - i,
    {
        r.push(payload[i]);
        i = i + 1;
        assert(r@.skip(4) =~= payload@.take(i as int));
    }
    assert(payload@.take(i as int) =~= payload@);
    r
}

/// The message length announced by a frame header.
pub fn frame_length(h: [u8; 4]) -> (r: u32)
    ensures
        r as nat == header_value(h@),
{
    let b0 = h[0];
    let b1 = h[1];
    let b2 = h[2];
    let b3 = h[3];
    let r = ((b0 as u32) << 24) | ((b1 as u32) << 16) | ((b2 as u32) << 8) | (b3 as u32);
    assert(r as nat == (b0 as nat) * 0x100_0000 + (b1 as nat) * 0x1_0000 + (b2 as nat) * 0x100
        + (b3 as nat)) by (bit_vector)
        requires
            r == ((b0 as u32) << 24) | ((b1 as u32) << 16) | ((b2 as u32) << 8) | (b3 as u32),
    ;
    r
}

} // verus!
