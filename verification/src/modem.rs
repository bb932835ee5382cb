//! The cellular modem: reading its state out of AT command replies and out of
//! `mmcli` reports, the SMS listing, and the choice of how to reach the modem.
use vstd::prelude::*;
use crate::text::{
    chars_of, contains, contains_exec, decimal, decimal_exec, extend_chars, extend_str, find,
    find_exec, has_prefix, has_suffix, ends_with, lines_exec, lines_of, parse_i32, parse_i32_spec,
    parse_u32, parse_unsigned, slice_chars, split_exec, split_on, starts_with, string_from_chars,
    trim, trim_char, trim_char_exec, trim_exec, views, words, words_exec,
};

verus! {

/// What is known of the modem.
#[derive(Clone, Debug, Default)]
pub struct ModemStatus {
    pub present: bool,
    pub sim_ready: bool,
    pub operator: Option<String>,
    pub signal_strength: Option<i32>,
    pub access_technology: Option<String>,
    pub registered: bool,
    pub connected: bool,
}

pub struct ModemStatusView {
    pub present: bool,
    pub sim_ready: bool,
    pub operator: Option<Seq<char>>,
    pub signal_strength: Option<i32>,
    pub access_technology: Option<Seq<char>>,
    pub registered: bool,
    pub connected: bool,
}

pub open spec fn opt_view(o: Option<String>) -> Option<Seq<char>> {
    match o {
        Some(s) => Some(s@),
        None => None,
    }
}

impl View for ModemStatus {
    type V = ModemStatusView;

    open spec fn view(&self) -> ModemStatusView {
        ModemStatusView {
            present: self.present,
            sim_ready: self.sim_ready,
            operator: opt_view(self.operator),
            signal_strength: self.signal_strength,
            access_technology: opt_view(self.access_technology),
            registered: self.registered,
            connected: self.connected,
        }
    }
}

/// A serial port that speaks AT commands.
pub struct AtSerial {
    pub port_path: String,
}

impl AtSerial {
    pub fn new(port_path: &str) -> (r: Self)
        ensures
            r.port_path@ == port_path@,
    {
        AtSerial { port_path: port_path.to_owned() }
    }
}

/// One SMS as the modem lists it.
#[derive(Clone, Debug)]
pub struct SmsRecord {
    pub index: u32,
    pub sender: String,
    pub body: String,
    /// When the message was listed, in seconds since the Unix epoch.
    pub timestamp: i64,
}

// ---------------------------------------------------------------------
// Scanning lines
// ---------------------------------------------------------------------

/// The first `Some` that `f` gives for the lines from `i` on (as `Iterator::find_map`).
pub open spec fn find_map_from<T>(
    ls: Seq<Seq<char>>,
    f: spec_fn(Seq<char>) -> Option<T>,
    i: int,
) -> Option<T>
    decreases ls.len() - i,
{
    if i < 0 || i >= ls.len() {
        None
    } else if f(ls[i]) is Some {
        f(ls[i])
    } else {
        find_map_from(ls, f, i + 1)
    }
}

/// Some line satisfies `p` (as `Iterator::any`).
pub open spec fn any_line(ls: Seq<Seq<char>>, p: spec_fn(Seq<char>) -> bool) -> bool {
    exists|i: int| 0 <= i < ls.len() && #[trigger] p(ls[i])
}

// ---------------------------------------------------------------------
// AT replies
// ---------------------------------------------------------------------

/// The text sent to the modem for a command: the command and CR LF.
pub fn at_command_line(cmd: &str) -> (r: String)
    ensures
        r@ == cmd@ + "\r\n"@,
{
    let mut b = chars_of(cmd);
    extend_str(&mut b, "\r\n");
    string_from_chars(b.as_slice())
}

/// A reply is complete once it holds a final `OK` or `ERROR` line.
pub open spec fn reply_complete_spec(reply: Seq<char>) -> bool {
    contains(reply, "OK\r\n"@) || contains(reply, "ERROR\r\n"@)
}

pub fn at_reply_complete(reply: &str) -> (r: bool)
    ensures
        r == reply_complete_spec(reply@),
{
    let s = chars_of(reply);
    let ok = chars_of("OK\r\n");
    let err = chars_of("ERROR\r\n");
    contains_exec(s.as_slice(), ok.as_slice()) || contains_exec(s.as_slice(), err.as_slice())
}

/// A modem answers the probe `AT` when its reply holds `OK`.
pub fn at_probe_ok(reply: &str) -> (r: bool)
    ensures
        r == contains(reply@, "OK"@),
{
    let s = chars_of(reply);
    let ok = chars_of("OK");
    contains_exec(s.as_slice(), ok.as_slice())
}

/// The three commands that send an SMS: text mode, the recipient, and the text
/// ended by Ctrl-Z.
pub fn sms_commands(number: &str, text: &str) -> (r: Vec<String>)
    ensures
        r@.len() == 3,
        r@[0]@ == "AT+CMGF=1"@,
        r@[1]@ == "AT+CMGS=\""@ + number@ + "\""@,
        r@[2]@ == text@ + "\x1A"@,
{
    let mut v: Vec<String> = Vec::new();
    v.push("AT+CMGF=1".to_owned());
    let mut b: Vec<char> = Vec::new();
    extend_str(&mut b, "AT+CMGS=\"");
    extend_str(&mut b, number);
    extend_str(&mut b, "\"");
    v.push(string_from_chars(b.as_slice()));
    let mut t = chars_of(text);
    extend_str(&mut t, "\x1A");
    v.push(string_from_chars(t.as_slice()));
    v
}

pub open spec fn cops_operator(l: Seq<char>) -> Option<Seq<char>> {
    let p = split_on(l, ',');
    if contains(l, "+COPS:"@) && p.len() > 2 {
        Some(trim_char(p[2], '"'))
    } else {
        None
    }
}

/// The signal strength in dBm for a `+CSQ` line: `-113 + 2 * rssi`, where an
/// rssi of 99 means unknown. The sum is taken modulo 2^32, as `i32` arithmetic wraps.
pub open spec fn csq_signal(l: Seq<char>) -> Option<i32> {
    let c = split_on(l, ':');
    if contains(l, "+CSQ:"@) && c.len() >= 2 {
        match parse_i32_spec(trim(split_on(c[1], ',')[0])) {
            Some(rssi) => if rssi == 99 {
                None
            } else {
                Some((-113 + rssi * 2) as i32)
            },
            None => None,
        }
    } else {
        None
    }
}

pub open spec fn cops_tech(l: Seq<char>) -> Option<Seq<char>> {
    let p = split_on(l, ',');
    if contains(l, "+COPS:"@) && p.len() > 3 {
        let t = trim(p[3]);
        if t == "0"@ {
            Some("GSM"@)
        } else if t == "2"@ {
            Some("UTRAN"@)
        } else if t == "7"@ {
            Some("LTE"@)
        } else {
            None
        }
    } else {
        None
    }
}

pub open spec fn creg_registered(l: Seq<char>) -> bool {
    let p = split_on(l, ',');
    contains(l, "+CREG:"@) && p.len() > 1 && (trim(p[1]) == "1"@ || trim(p[1]) == "5"@)
}

pub open spec fn cgact_active(l: Seq<char>) -> bool {
    contains(l, ",1"@)
}

pub open spec fn cops_operator_f() -> spec_fn(Seq<char>) -> Option<Seq<char>> {
    |l: Seq<char>| cops_operator(l)
}

pub open spec fn csq_signal_f() -> spec_fn(Seq<char>) -> Option<i32> {
    |l: Seq<char>| csq_signal(l)
}

pub open spec fn cops_tech_f() -> spec_fn(Seq<char>) -> Option<Seq<char>> {
    |l: Seq<char>| cops_tech(l)
}

pub open spec fn creg_registered_f() -> spec_fn(Seq<char>) -> bool {
    |l: Seq<char>| creg_registered(l)
}

pub open spec fn cgact_active_f() -> spec_fn(Seq<char>) -> bool {
    |l: Seq<char>| cgact_active(l)
}

pub open spec fn reply_lines(r: Option<String>) -> Seq<Seq<char>> {
    match r {
        Some(s) => lines_of(s@),
        None => Seq::empty(),
    }
}

/// The modem's replies to the status queries, `None` where the query failed.
pub struct SerialReplies {
    pub cpin: Option<String>,
    pub cops: Option<String>,
    pub csq: Option<String>,
    pub cops_again: Option<String>,
    pub creg: Option<String>,
    pub cgact: Option<String>,
}

/// The status read from a modem over its serial port.
pub open spec fn serial_status_spec(r: SerialReplies) -> ModemStatusView {
    ModemStatusView {
        present: true,
        sim_ready: match r.cpin {
            Some(s) => contains(s@, "READY"@),
            None => false,
        },
        operator: find_map_from(reply_lines(r.cops), cops_operator_f(), 0),
        signal_strength: find_map_from(reply_lines(r.csq), csq_signal_f(), 0),
        access_technology: find_map_from(reply_lines(r.cops_again), cops_tech_f(), 0),
        registered: any_line(reply_lines(r.creg), creg_registered_f()),
        connected: any_line(reply_lines(r.cgact), cgact_active_f()),
    }
}

/// A modem read over its serial port counts as registered exactly when a line of
/// its `AT+CREG?` reply holds `+CREG:` and its second comma-separated field
/// trims to `1` (registered on the home network) or `5` (roaming).
pub proof fn lemma_creg_registration(r: SerialReplies)
    ensures
        serial_status_spec(r).registered <==> exists|i: int|
            0 <= i < reply_lines(r.creg).len() && {
                let l = #[trigger] reply_lines(r.creg)[i];
                &&& contains(l, "+CREG:"@)
                &&& split_on(l, ',').len() > 1
                &&& (trim(split_on(l, ',')[1]) == "1"@ || trim(split_on(l, ',')[1]) == "5"@)
            },
{
    let ls = reply_lines(r.creg);
    if serial_status_spec(r).registered {
        let i = choose|i: int| 0 <= i < ls.len() && #[trigger] creg_registered_f()(ls[i]);
        assert(creg_registered(ls[i]));
    }
    if exists|i: int|
        0 <= i < ls.len() && {
            let l = #[trigger] ls[i];
            &&& contains(l, "+CREG:"@)
            &&& split_on(l, ',').len() > 1
            &&& (trim(split_on(l, ',')[1]) == "1"@ || trim(split_on(l, ',')[1]) == "5"@)
        } {
        let i = choose|i: int|
            0 <= i < ls.len() && {
                let l = #[trigger] ls[i];
                &&& contains(l, "+CREG:"@)
                &&& split_on(l, ',').len() > 1
                &&& (trim(split_on(l, ',')[1]) == "1"@ || trim(split_on(l, ',')[1]) == "5"@)
            };
        assert(creg_registered_f()(ls[i]));
    }
}

fn lit(s: &str) -> (r: Vec<char>)
    ensures
        r@ == s@,
{
    chars_of(s)
}

fn line_cops_operator(l: &[char]) -> (r: Option<Vec<char>>)
    ensures
        match r {
            Some(v) => cops_operator(l@) == Some(v@),
            None => cops_operator(l@) is None,
        },
{
    let pat = lit("+COPS:");
    if !contains_exec(l, pat.as_slice()) {
        return None;
    }
    let p = split_exec(l, ',');
    if p.len() > 2 {
        assert(views(p@)[2] == p@[2]@);
        Some(trim_char_exec(p[2].as_slice(), '"'))
    } else {
        None
    }
}

fn line_csq_signal(l: &[char]) -> (r: Option<i32>)
    ensures
        r == csq_signal(l@),
{
    let pat = lit("+CSQ:");
    if !contains_exec(l, pat.as_slice()) {
        return None;
    }
    let c = split_exec(l, ':');
    if c.len() < 2 {
        return None;
    }
    assert(views(c@)[1] == c@[1]@);
    let p = split_exec(c[1].as_slice(), ',');
    proof {
        crate::text::lemma_split_nonempty(c@[1]@, ',');
    }
    assert(views(p@)[0] == p@[0]@);
    let t = trim_exec(p[0].as_slice());
    match parse_i32(t.as_slice()) {
        Some(rssi) => if rssi == 99 {
            None
        } else {
            let v: i64 = -113i64 + (rssi as i64) * 2;
            Some(v as i32)
        },
        None => None,
    }
}

fn line_cops_tech(l: &[char]) -> (r: Option<Vec<char>>)
    ensures
        match r {
            Some(v) => cops_tech(l@) == Some(v@),
            None => cops_tech(l@) is None,
        },
{
    let pat = lit("+COPS:");
    if !contains_exec(l, pat.as_slice()) {
        return None;
    }
    let p = split_exec(l, ',');
    if p.len() <= 3 {
        return None;
    }
    assert(views(p@)[3] == p@[3]@);
    let t = trim_exec(p[3].as_slice());
    let zero = lit("0");
    let two = lit("2");
    let seven = lit("7");
    if crate::text::chars_eq(t.as_slice(), zero.as_slice()) {
        Some(lit("GSM"))
    } else if crate::text::chars_eq(t.as_slice(), two.as_slice()) {
        Some(lit("UTRAN"))
    } else if crate::text::chars_eq(t.as_slice(), seven.as_slice()) {
        Some(lit("LTE"))
    } else {
        None
    }
}

fn line_creg_registered(l: &[char]) -> (r: bool)
    ensures
        r == creg_registered(l@),
{
    let pat = lit("+CREG:");
    if !contains_exec(l, pat.as_slice()) {
        return false;
    }
    let p = split_exec(l, ',');
    if p.len() <= 1 {
        return false;
    }
    assert(views(p@)[1] == p@[1]@);
    let t = trim_exec(p[1].as_slice());
    let one = lit("1");
    let five = lit("5");
    crate::text::chars_eq(t.as_slice(), one.as_slice()) || crate::text::chars_eq(
        t.as_slice(),
        five.as_slice(),
    )
}

fn line_cgact_active(l: &[char]) -> (r: bool)
    ensures
        r == cgact_active(l@),
{
    let pat = lit(",1");
    contains_exec(l, pat.as_slice())
}

fn opt_lines(r: &Option<String>) -> (ls: Vec<Vec<char>>)
    ensures
        views(ls@) == reply_lines(*r),
{
    match r {
        Some(s) => {
            let c = chars_of(s.as_str());
            lines_exec(c.as_slice())
        },
        None => {
            let v: Vec<Vec<char>> = Vec::new();
            assert(views(v@) =~= Seq::<Seq<char>>::empty());
            v
        },
    }
}

fn first_operator(ls: &Vec<Vec<char>>) -> (r: Option<Vec<char>>)
    ensures
        match r {
            Some(v) => find_map_from(views(ls@), cops_operator_f(), 0) == Some(v@),
            None => find_map_from(views(ls@), cops_operator_f(), 0) is None,
        },
{
    let ghost f = cops_operator_f();
    let mut i: usize = 0;
    while i < ls.len()
        invariant
        f == cops_operator_f(),
            i <= ls@.len(),
            find_map_from(views(ls@), f, 0) == find_map_from(views(ls@), f, i as int),
        decreases ls@.len() - i,
    {
        assert(views(ls@)[i as int] == ls@[i as int]@);
        match line_cops_operator(ls[i].as_slice()) {
            Some(v) => {
                return Some(v);
            },
            None => {},
        }
        i = i + 1;
    }
    None
}

fn first_signal(ls: &Vec<Vec<char>>) -> (r: Option<i32>)
    ensures
        r == find_map_from(views(ls@), csq_signal_f(), 0),
{
    let ghost f = csq_signal_f();
    let mut i: usize = 0;
    while i < ls.len()
        invariant
        f == csq_signal_f(),
            i <= ls@.len(),
            find_map_from(views(ls@), f, 0) == find_map_from(views(ls@), f, i as int),
        decreases ls@.len() - i,
    {
        assert(views(ls@)[i as int] == ls@[i as int]@);
        match line_csq_signal(ls[i].as_slice()) {
            Some(v) => {
                return Some(v);
            },
            None => {},
        }
        i = i + 1;
    }
    None
}

fn first_tech(ls: &Vec<Vec<char>>) -> (r: Option<Vec<char>>)
    ensures
        match r {
            Some(v) => find_map_from(views(ls@), cops_tech_f(), 0) == Some(v@),
            None => find_map_from(views(ls@), cops_tech_f(), 0) is None,
        },
{
    let ghost f = cops_tech_f();
    let mut i: usize = 0;
    while i < ls.len()
        invariant
        f == cops_tech_f(),
            i <= ls@.len(),
            find_map_from(views(ls@), f, 0) == find_map_from(views(ls@), f, i as int),
        decreases ls@.len() - i,
    {
        assert(views(ls@)[i as int] == ls@[i as int]@);
        match line_cops_tech(ls[i].as_slice()) {
            Some(v) => {
                return Some(v);
            },
            None => {},
        }
        i = i + 1;
    }
    None
}

fn any_registered(ls: &Vec<Vec<char>>) -> (r: bool)
    ensures
        r == any_line(views(ls@), creg_registered_f()),
{
    let ghost p = creg_registered_f();
    let mut i: usize = 0;
    while i < ls.len()
        invariant
        p == creg_registered_f(),
            i <= ls@.len(),
            forall|j: int| 0 <= j < i ==> !#[trigger] p(views(ls@)[j]),
        decreases ls@.len() - i,
    {
        assert(views(ls@)[i as int] == ls@[i as int]@);
        if line_creg_registered(ls[i].as_slice()) {
            assert(p(views(ls@)[i as int]));
            return true;
        }
        i = i + 1;
    }
    false
}

fn any_active(ls: &Vec<Vec<char>>) -> (r: bool)
    ensures
        r == any_line(views(ls@), cgact_active_f()),
{
    let ghost p = cgact_active_f();
    let mut i: usize = 0;
    while i < ls.len()
        invariant
        p == cgact_active_f(),
            i <= ls@.len(),
            forall|j: int| 0 <= j < i ==> !#[trigger] p(views(ls@)[j]),
        decreases ls@.len() - i,
    {
        assert(views(ls@)[i as int] == ls@[i as int]@);
        if line_cgact_active(ls[i].as_slice()) {
            assert(p(views(ls@)[i as int]));
            return true;
        }
        i = i + 1;
    }
    false
}

fn opt_string(v: Option<Vec<char>>) -> (r: Option<String>)
    ensures
        opt_view(r) == match v {
            Some(c) => Some(c@),
            None => None::<Seq<char>>,
        },
{
    match v {
        Some(c) => Some(string_from_chars(c.as_slice())),
        None => None,
    }
}

/// The modem's status from its replies to `AT+CPIN?`, `AT+COPS?` (asked twice),
/// `AT+CSQ`, `AT+CREG?` and `AT+CGACT?`.
pub fn status_from_serial(r: &SerialReplies) -> (s: ModemStatus)
    ensures
        s@ == serial_status_spec(*r),
{
    let sim_ready = match &r.cpin {
        Some(t) => {
            let c = chars_of(t.as_str());
            let pat = lit("READY");
            contains_exec(c.as_slice(), pat.as_slice())
        },
        None => false,
    };
    let operator = opt_string(first_operator(&opt_lines(&r.cops)));
    let signal = first_signal(&opt_lines(&r.csq));
    let tech = opt_string(first_tech(&opt_lines(&r.cops_again)));
    let registered = any_registered(&opt_lines(&r.creg));
    let connected = any_active(&opt_lines(&r.cgact));
    ModemStatus {
        present: true,
        sim_ready,
        operator,
        signal_strength: signal,
        access_technology: tech,
        registered,
        connected,
    }
}

// ---------------------------------------------------------------------
// mmcli reports
// ---------------------------------------------------------------------

/// ModemManager knows a modem when `mmcli -L` succeeds and prints something.
pub fn modemmanager_listed(success: bool, stdout: &str) -> (r: bool)
    ensures
        r == (success && trim(stdout@).len() > 0),
{
    let c = chars_of(stdout);
    let t = trim_exec(c.as_slice());
    success && t.len() > 0
}

pub open spec fn modem_index_in_line(l: Seq<char>) -> Option<nat> {
    if contains(l, "Modem/"@) {
        parse_unsigned(trim(split_on(l, '/').last()), u32::MAX as nat)
    } else {
        None
    }
}

pub open spec fn modem_index_f() -> spec_fn(Seq<char>) -> Option<nat> {
    |l: Seq<char>| modem_index_in_line(l)
}

/// The number of the first modem that `mmcli -L` lists.
pub open spec fn modem_index_spec(listing: Seq<char>) -> Option<nat> {
    find_map_from(lines_of(listing), modem_index_f(), 0)
}

fn line_modem_index(l: &[char]) -> (r: Option<u32>)
    ensures
        match r {
            Some(v) => modem_index_in_line(l@) == Some(v as nat),
            None => modem_index_in_line(l@) is None,
        },
{
    let pat = lit("Modem/");
    if !contains_exec(l, pat.as_slice()) {
        return None;
    }
    let p = split_exec(l, '/');
    proof {
        crate::text::lemma_split_nonempty(l@, '/');
    }
    let last = p.len() - 1;
    assert(views(p@)[last as int] == p@[last as int]@);
    let t = trim_exec(p[last].as_slice());
    parse_u32(t.as_slice())
}

/// The number of the first modem in a `mmcli -L` listing.
pub fn modem_index(listing: &str) -> (r: Option<u32>)
    ensures
        match r {
            Some(v) => modem_index_spec(listing@) == Some(v as nat),
            None => modem_index_spec(listing@) is None,
        },
{
    let c = chars_of(listing);
    let ls = lines_exec(c.as_slice());
    let ghost f = modem_index_f();
    let mut i: usize = 0;
    while i < ls.len()
        invariant
        f == modem_index_f(),
            i <= ls@.len(),
            views(ls@) == lines_of(listing@),
            find_map_from(views(ls@), f, 0) == find_map_from(views(ls@), f, i as int),
        decreases ls@.len() - i,
    {
        assert(views(ls@)[i as int] == ls@[i as int]@);
        match line_modem_index(ls[i].as_slice()) {
            Some(v) => {
                return Some(v);
            },
            None => {},
        }
        i = i + 1;
    }
    None
}

pub open spec fn field_in_line(l: Seq<char>, prefix: Seq<char>) -> Option<Seq<char>> {
    let t = trim(l);
    match find(t, prefix) {
        Some(pos) => {
            let w = words(trim(t.skip(pos + prefix.len())));
            if w.len() > 0 {
                Some(w[0])
            } else {
                None
            }
        },
        None => None,
    }
}

pub open spec fn field_f(prefix: Seq<char>) -> spec_fn(Seq<char>) -> Option<Seq<char>> {
    |l: Seq<char>| field_in_line(l, prefix)
}

/// The first word after `prefix` on the first line that has one.
pub open spec fn extract_field_spec(text: Seq<char>, prefix: Seq<char>) -> Option<Seq<char>> {
    find_map_from(lines_of(text), field_f(prefix), 0)
}

fn line_field(l: &[char], prefix: &[char]) -> (r: Option<Vec<char>>)
    ensures
        match r {
            Some(v) => field_in_line(l@, prefix@) == Some(v@),
            None => field_in_line(l@, prefix@) is None,
        },
{
    let t = trim_exec(l);
    match find_exec(t.as_slice(), prefix) {
        Some(pos) => {
            proof {
                crate::text::lemma_find(t@, prefix@);
            }
            let tl = t.len();
            let rest = slice_chars(t.as_slice(), pos + prefix.len(), tl);
            assert(rest@ =~= t@.skip(pos + prefix@.len()));
            let v = trim_exec(rest.as_slice());
            let w = words_exec(v.as_slice());
            if w.len() > 0 {
                assert(views(w@)[0] == w@[0]@);
                Some(slice_chars(w[0].as_slice(), 0, w[0].len()))
            } else {
                None
            }
        },
        None => None,
    }
}

/// The value after `prefix` in a report: the first whitespace-separated word
/// following it on the first line where there is one.
pub fn extract_field(text: &str, prefix: &str) -> (r: Option<String>)
    ensures
        opt_view(r) == extract_field_spec(text@, prefix@),
{
    let c = chars_of(text);
    let p = chars_of(prefix);
    let ls = lines_exec(c.as_slice());
    let ghost f = field_f(prefix@);
    let mut i: usize = 0;
    while i < ls.len()
        invariant
        f == field_f(prefix@),
            i <= ls@.len(),
            p@ == prefix@,
            views(ls@) == lines_of(text@),
            find_map_from(views(ls@), f, 0) == find_map_from(views(ls@), f, i as int),
        decreases ls@.len() - i,
    {
        assert(views(ls@)[i as int] == ls@[i as int]@);
        match line_field(ls[i].as_slice(), p.as_slice()) {
            Some(v) => {
                assert(v@.subrange(0, v@.len() as int) =~= v@);
                return Some(string_from_chars(v.as_slice()));
            },
            None => {},
        }
        i = i + 1;
    }
    None
}

/// Integer division that rounds toward zero, as Rust's `/` on integers does.
pub open spec fn div_toward_zero(a: int, b: int) -> int {
    if a >= 0 {
        a / b
    } else {
        -((-a) / b)
    }
}

/// The signal strength in dBm that ModemManager's quality percentage stands for:
/// `(pct - 113) + pct * 113 / 100` in `i32` arithmetic (which wraps).
pub open spec fn quality_to_dbm(pct: int) -> i32 {
    ((pct - 113) + div_toward_zero(((pct * 113) as i32) as int, 100)) as i32
}

pub open spec fn quality_signal(v: Seq<char>) -> Option<i32> {
    let t = trim(v);
    if t.len() > 0 && t.last() == '%' {
        match parse_i32_spec(trim(t.drop_last())) {
            Some(p) => Some(quality_to_dbm(p)),
            None => None,
        }
    } else {
        None
    }
}

fn signal_from_quality(v: &[char]) -> (r: Option<i32>)
    ensures
        r == quality_signal(v@),
{
    let t = trim_exec(v);
    if !(t.len() > 0 && t[t.len() - 1] == '%') {
        return None;
    }
    let body = slice_chars(t.as_slice(), 0, t.len() - 1);
    assert(body@ =~= t@.drop_last());
    let tb = trim_exec(body.as_slice());
    match parse_i32(tb.as_slice()) {
        Some(p) => {
            let m: i32 = ((p as i64) * 113) as i32;
            let q: i64 = if m >= 0 {
                (m as i64) / 100
            } else {
                -((-(m as i64)) / 100)
            };
            let v: i64 = ((p as i64) - 113) + q;
            Some(v as i32)
        },
        None => None,
    }
}

/// `mmcli`'s reports: the listing when `mmcli -L` succeeded, and the report on the
/// listed modem when `mmcli -m` could be run.
pub struct MmcliReplies {
    pub listing: Option<String>,
    pub report: Option<String>,
}

pub open spec fn absent_status() -> ModemStatusView {
    ModemStatusView {
        present: false,
        sim_ready: false,
        operator: None,
        signal_strength: None,
        access_technology: None,
        registered: false,
        connected: false,
    }
}

/// The status read through ModemManager.
pub open spec fn mmcli_status_spec(r: MmcliReplies) -> ModemStatusView {
    let index = match r.listing {
        Some(l) => modem_index_spec(l@),
        None => None,
    };
    if index is None {
        absent_status()
    } else {
        match r.report {
            None => ModemStatusView { present: true, ..absent_status() },
            Some(t) => {
                let text = t@;
                ModemStatusView {
                    present: true,
                    sim_ready: contains(text, "SIM: connected"@) || contains(
                        text,
                        "state: 'connected'"@,
                    ),
                    operator: extract_field_spec(text, "operator name:"@),
                    signal_strength: match extract_field_spec(text, "signal quality:"@) {
                        Some(q) => quality_signal(q),
                        None => None,
                    },
                    access_technology: extract_field_spec(text, "access tech:"@),
                    registered: contains(text, "state: 'registered'"@) || contains(
                        text,
                        "state: 'connected'"@,
                    ),
                    connected: contains(text, "state: 'connected'"@),
                }
            },
        }
    }
}

fn text_contains(t: &[char], p: &str) -> (r: bool)
    ensures
        r == contains(t@, p@),
{
    let pv = lit(p);
    contains_exec(t, pv.as_slice())
}

/// The modem's status from `mmcli`'s reports.
pub fn status_from_mmcli(r: &MmcliReplies) -> (s: ModemStatus)
    ensures
        s@ == mmcli_status_spec(*r),
{
    let index = match &r.listing {
        Some(l) => modem_index(l.as_str()),
        None => None,
    };
    if index.is_none() {
        return ModemStatus {
            present: false,
            sim_ready: false,
            operator: None,
            signal_strength: None,
            access_technology: None,
            registered: false,
            connected: false,
        };
    }
    match &r.report {
        None => ModemStatus {
            present: true,
            sim_ready: false,
            operator: None,
            signal_strength: None,
            access_technology: None,
            registered: false,
            connected: false,
        },
        Some(t) => {
            let text = chars_of(t.as_str());
            let sim_ready = text_contains(text.as_slice(), "SIM: connected") || text_contains(
                text.as_slice(),
                "state: 'connected'",
            );
            let operator = extract_field(t.as_str(), "operator name:");
            let signal = match extract_field(t.as_str(), "signal quality:") {
                Some(q) => {
                    let qc = chars_of(q.as_str());
                    signal_from_quality(qc.as_slice())
                },
                None => None,
            };
            let tech = extract_field(t.as_str(), "access tech:");
            let connected = text_contains(text.as_slice(), "state: 'connected'");
            let registered = text_contains(text.as_slice(), "state: 'registered'")
                || text_contains(text.as_slice(), "state: 'connected'");
            ModemStatus {
                present: true,
                sim_ready,
                operator,
                signal_strength: signal,
                access_technology: tech,
                registered,
                connected,
            }
        },
    }
}

// ---------------------------------------------------------------------
// The manager
// ---------------------------------------------------------------------

/// Where the modem's state is read from, as the manager asks for it.
pub enum StatusReplies {
    Serial(SerialReplies),
    Mmcli(MmcliReplies),
}

/// What the search for a serial modem does next.
#[derive(Clone, Copy, Debug, PartialEq, Eq, Structural)]
pub enum ProbeStep {
    /// Send `AT` to the port at this position.
    Probe(usize),
    /// The port at this position answered: it is the modem's.
    Found(usize),
    /// No port answered.
    NoneFound,
}

/// The next step of the search for a serial modem, from the candidate ports in
/// order and whether each port probed so far answered `AT` with `OK`
/// (`answers[k]` for port `k`): the first port that answered is the modem's;
/// else the next unprobed port is probed.
pub fn probe_step(port_count: usize, answers: &Vec<bool>) -> (r: ProbeStep)
    requires
        answers@.len() <= port_count,
    ensures
        r matches ProbeStep::Found(i) ==> i < answers@.len() && answers@[i as int] && forall|j: int|
            0 <= j < i ==> !answers@[j],
        r matches ProbeStep::Probe(i) ==> i == answers@.len() && i < port_count && forall|j: int|
            0 <= j < answers@.len() ==> !answers@[j],
        r is NoneFound ==> answers@.len() == port_count && forall|j: int|
            0 <= j < answers@.len() ==> !answers@[j],
        (exists|j: int| 0 <= j < answers@.len() && answers@[j]) ==> r is Found,
{
    let mut i: usize = 0;
    while i < answers.len()
        invariant
            i <= answers@.len(),
            answers@.len() <= port_count,
            forall|j: int| 0 <= j < i ==> !answers@[j],
        decreases answers@.len() - i,
    {
        if answers[i] {
            return ProbeStep::Found(i);
        }
        i = i + 1;
    }
    if answers.len() < port_count {
        ProbeStep::Probe(answers.len())
    } else {
        ProbeStep::NoneFound
    }
}

/// Whether a detection picks a serial port: ModemManager listed no modem, and a
/// port answered `AT`.
pub open spec fn selects_port(call: (bool, Option<Seq<char>>)) -> bool {
    !call.0 && call.1 is Some
}

/// The serial port kept after one more detection (`ModemManager::detect`).
pub open spec fn detect_step(port: Option<Seq<char>>, call: (bool, Option<Seq<char>>)) -> Option<
    Seq<char>,
> {
    if selects_port(call) {
        call.1
    } else {
        port
    }
}

/// The serial port kept after the detections `calls`, from a new manager.
pub open spec fn port_after(calls: Seq<(bool, Option<Seq<char>>)>) -> Option<Seq<char>>
    decreases calls.len(),
{
    if calls.len() == 0 {
        None
    } else {
        detect_step(port_after(calls.drop_last()), calls.last())
    }
}

/// After a new manager and any detections, a serial port is used exactly when
/// some detection picked one, and it is the port of the last detection that did;
/// otherwise the modem is read through ModemManager alone.
pub proof fn lemma_port_after(calls: Seq<(bool, Option<Seq<char>>)>)
    ensures
        port_after(calls) is None <==> forall|i: int|
            0 <= i < calls.len() ==> !#[trigger] selects_port(calls[i]),
        port_after(calls) is Some ==> exists|i: int|
            0 <= i < calls.len() && #[trigger] selects_port(calls[i]) && port_after(calls)
                == calls[i].1 && forall|j: int| i < j < calls.len() ==> !#[trigger] selects_port(
                calls[j],
            ),
    decreases calls.len(),
{
    if calls.len() > 0 {
        let p = calls.drop_last();
        lemma_port_after(p);
        let n = calls.len() - 1;
        assert forall|i: int| 0 <= i < p.len() implies calls[i] == p[i] by {}
        if selects_port(calls.last()) {
            assert(selects_port(calls[n]));
        } else if port_after(p) is Some {
            let i = choose|i: int|
                0 <= i < p.len() && #[trigger] selects_port(p[i]) && port_after(p) == p[i].1
                    && forall|j: int| i < j < p.len() ==> !#[trigger] selects_port(p[j]);
            assert(selects_port(calls[i]));
            assert forall|j: int| i < j < calls.len() implies !#[trigger] selects_port(calls[j]) by {
                if j < p.len() {
                    assert(!selects_port(p[j]));
                }
            }
        } else {
            assert forall|i: int| 0 <= i < calls.len() implies !#[trigger] selects_port(calls[i]) by {
                if i < p.len() {
                    assert(!selects_port(p[i]));
                }
            }
        }
        if port_after(calls) is None {
            assert(!selects_port(calls[n]));
        }
    }
}

/// Tracks how the modem is reached: through a serial port that answered `AT`,
/// or otherwise through ModemManager.
pub struct ModemManager {
    pub serial_port: Option<String>,
}

impl ModemManager {
    pub fn new() -> (r: Self)
        ensures
            r.serial_port is None,
            opt_view(r.serial_port) == port_after(Seq::empty()),
    {
        ModemManager { serial_port: None }
    }

    /// Records the outcome of looking for a modem: ModemManager listing one wins;
    /// otherwise the first serial port that answered `AT` is kept.
    pub fn detect(&mut self, modemmanager_found: bool, responding_port: Option<String>) -> (r: bool)
        ensures
            r == (modemmanager_found || responding_port is Some),
            modemmanager_found ==> opt_view(final(self).serial_port) == opt_view(
                old(self).serial_port,
            ),
            !modemmanager_found && responding_port is Some ==> opt_view(final(self).serial_port)
                == opt_view(responding_port),
            !modemmanager_found && responding_port is None ==> opt_view(final(self).serial_port)
                == opt_view(old(self).serial_port),
            opt_view(final(self).serial_port) == detect_step(
                opt_view(old(self).serial_port),
                (modemmanager_found, opt_view(responding_port)),
            ),
    {
        if modemmanager_found {
            return true;
        }
        match responding_port {
            Some(p) => {
                self.serial_port = Some(p);
                true
            },
            None => false,
        }
    }

    /// Whether the status must be read over the serial port.
    pub fn uses_serial(&self) -> (r: bool)
        ensures
            r == self.serial_port is Some,
    {
        self.serial_port.is_some()
    }

    /// The modem's status, from the replies gathered the way `uses_serial` says.
    pub fn get_status(&self, replies: &StatusReplies) -> (s: ModemStatus)
        requires
            self.serial_port is Some <==> replies is Serial,
        ensures
            match replies {
                StatusReplies::Serial(r) => s@ == serial_status_spec(*r),
                StatusReplies::Mmcli(r) => s@ == mmcli_status_spec(*r),
            },
    {
        match replies {
            StatusReplies::Serial(r) => status_from_serial(r),
            StatusReplies::Mmcli(r) => status_from_mmcli(r),
        }
    }
}

/// Read over a serial port that answered, the modem is present; read through
/// ModemManager, it is present exactly when `mmcli -L` lists a modem, and a modem
/// that is not listed is reported with nothing else known of it.
pub proof fn lemma_status_presence(r: StatusReplies)
    ensures
        r matches StatusReplies::Serial(x) ==> serial_status_spec(x).present,
        r matches StatusReplies::Mmcli(x) ==> (mmcli_status_spec(x).present <==> (
        x.listing matches Some(l) && modem_index_spec(l@) is Some)),
        r matches StatusReplies::Mmcli(x) ==> (!mmcli_status_spec(x).present ==> mmcli_status_spec(x)
            == absent_status()),
{
}

// ---------------------------------------------------------------------
// SMS listing
// ---------------------------------------------------------------------

pub struct SmsView {
    pub index: u32,
    pub sender: Seq<char>,
    pub body: Seq<char>,
    pub timestamp: i64,
}

impl View for SmsRecord {
    type V = SmsView;

    open spec fn view(&self) -> SmsView {
        SmsView {
            index: self.index,
            sender: self.sender@,
            body: self.body@,
            timestamp: self.timestamp,
        }
    }
}

pub open spec fn sms_index(header: Seq<char>) -> u32 {
    let head = split_on(split_on(header, ',')[0], ':');
    if head.len() > 1 {
        match parse_unsigned(trim(head[1]), u32::MAX as nat) {
            Some(v) => v as u32,
            None => 0,
        }
    } else {
        0
    }
}

pub open spec fn sms_sender(header: Seq<char>) -> Seq<char> {
    let p = split_on(header, ',');
    if p.len() > 2 {
        trim_char(p[2], '"')
    } else {
        Seq::empty()
    }
}

/// The messages in a `AT+CMGL` reply from line `i` on: each `+CMGL:` header line
/// followed by its body line, each stamped with `now`.
pub open spec fn sms_from(ls: Seq<Seq<char>>, i: int, now: i64) -> Seq<SmsView>
    decreases ls.len() + 1 - i,
{
    if i < 0 || i >= ls.len() {
        Seq::empty()
    } else if has_prefix(ls[i], "+CMGL:"@) {
        let body = if i + 1 < ls.len() {
            ls[i + 1]
        } else {
            Seq::empty()
        };
        seq![
            SmsView { index: sms_index(ls[i]), sender: sms_sender(ls[i]), body, timestamp: now },
        ] + sms_from(ls, i + 2, now)
    } else {
        sms_from(ls, i + 1, now)
    }
}

pub open spec fn sms_views(v: Seq<SmsRecord>) -> Seq<SmsView> {
    v.map_values(|m: SmsRecord| m@)
}

fn header_index(h: &[char]) -> (r: u32)
    ensures
        r == sms_index(h@),
{
    let p = split_exec(h, ',');
    proof {
        crate::text::lemma_split_nonempty(h@, ',');
    }
    assert(views(p@)[0] == p@[0]@);
    let head = split_exec(p[0].as_slice(), ':');
    if head.len() > 1 {
        assert(views(head@)[1] == head@[1]@);
        let t = trim_exec(head[1].as_slice());
        match parse_u32(t.as_slice()) {
            Some(v) => v,
            None => 0,
        }
    } else {
        0
    }
}

fn header_sender(h: &[char]) -> (r: Vec<char>)
    ensures
        r@ == sms_sender(h@),
{
    let p = split_exec(h, ',');
    if p.len() > 2 {
        assert(views(p@)[2] == p@[2]@);
        trim_char_exec(p[2].as_slice(), '"')
    } else {
        Vec::new()
    }
}

/// The messages listed in a reply to `AT+CMGL="ALL"`, read at `now` (seconds
/// since the Unix epoch).
pub fn parse_sms_list(reply: &str, now: i64) -> (r: Vec<SmsRecord>)
    ensures
        sms_views(r@) == sms_from(lines_of(reply@), 0, now),
{
    let c = chars_of(reply);
    let ls = lines_exec(c.as_slice());
    let ghost lv = views(ls@);
    let header = lit("+CMGL:");
    let mut out: Vec<SmsRecord> = Vec::new();
    let n = ls.len();
    let mut i: usize = 0;
    while i < n
        invariant
            n == ls@.len(),
            lv == views(ls@),
            lv == lines_of(reply@),
            header@ == "+CMGL:"@,
            i <= n,
            sms_views(out@) + sms_from(lv, i as int, now) == sms_from(lv, 0, now),
        decreases n - i,
    {
        assert(lv[i as int] == ls@[i as int]@);
        if starts_with(ls[i].as_slice(), header.as_slice()) {
            let index = header_index(ls[i].as_slice());
            let sender = header_sender(ls[i].as_slice());
            let body = if i + 1 < ls.len() {
                assert(lv[i + 1] == ls@[i + 1]@);
                slice_chars(ls[i + 1].as_slice(), 0, ls[i + 1].len())
            } else {
                Vec::new()
            };
            proof {
                if i + 1 < ls@.len() {
                    assert(ls@[i + 1]@.subrange(0, ls@[i + 1]@.len() as int) =~= ls@[i + 1]@);
                } else {
                    assert(body@ =~= Seq::<char>::empty());
                }
            }
            let rec = SmsRecord {
                index,
                sender: string_from_chars(sender.as_slice()),
                body: string_from_chars(body.as_slice()),
                timestamp: now,
            };
            let ghost before = sms_views(out@);
            out.push(rec);
            assert(sms_views(out@) =~= before.push(rec@));
            assert(sms_from(lv, i as int, now) == seq![rec@] + sms_from(lv, i + 2, now));
            assert(sms_views(out@) + sms_from(lv, i + 2, now) =~= before + sms_from(
                lv,
                i as int,
                now,
            ));
            if i + 1 < n {
                i = i + 2;
            } else {
                assert(sms_from(lv, i + 2, now) =~= Seq::<SmsView>::empty());
                assert(sms_from(lv, n as int, now) =~= Seq::<SmsView>::empty());
                i = n;
            }
        } else {
            i = i + 1;
        }
    }
    assert(sms_from(lv, i as int, now) =~= Seq::<SmsView>::empty());
    assert(sms_views(out@) =~= sms_views(out@) + sms_from(lv, i as int, now));
    out
}

// ---------------------------------------------------------------------
// Diagnostics
// ---------------------------------------------------------------------

pub open spec fn diagnostics_spec(entries: Seq<(String, Option<String>)>) -> Seq<char>
    decreases entries.len(),
{
    if entries.len() == 0 {
        Seq::empty()
    } else {
        let e = entries.last();
        diagnostics_spec(entries.drop_last()) + match e.1 {
            Some(resp) => e.0@ + " ->\n"@ + resp@ + "\n\n"@,
            None => Seq::empty(),
        }
    }
}

/// The diagnostics report: for each command that got a reply, the command, an
/// arrow, and the reply.
pub fn diagnostics_report(entries: &Vec<(String, Option<String>)>) -> (r: String)
    ensures
        r@ == diagnostics_spec(entries@),
{
    let mut b: Vec<char> = Vec::new();
    let mut i: usize = 0;
    assert(entries@.take(0) =~= Seq::<(String, Option<String>)>::empty());
    while i < entries.len()
        invariant
            i <= entries@.len(),
            b@ == diagnostics_spec(entries@.take(i as int)),
        decreases entries@.len() - i,
    {
        let ghost before = b@;
        let e = &entries[i];
        match &e.1 {
            Some(resp) => {
                extend_str(&mut b, e.0.as_str());
                extend_str(&mut b, " ->\n");
                extend_str(&mut b, resp.as_str());
                extend_str(&mut b, "\n\n");
            },
            None => {},
        }
        i = i + 1;
        assert(entries@.take(i as int).drop_last() =~= entries@.take(i - 1));
        assert(b@ =~= diagnostics_spec(entries@.take(i as int)));
    }
    assert(entries@.take(i as int) =~= entries@);
    string_from_chars(b.as_slice())
}

/// The commands whose replies make up the diagnostics report, in order.
pub fn diagnostic_commands() -> (r: Vec<&'static str>)
    ensures
        r@.map_values(|s: &str| s@) == seq![
            "ATI"@,
            "AT+CGMM"@,
            "AT+CGMR"@,
            "AT+CIMI"@,
            "AT+CPIN?"@,
            "AT+COPS?"@,
            "AT+CSQ"@,
            "AT+CREG?"@,
            "AT+CGREG?"@,
            "AT+CEREG?"@,
            "AT+CGACT?"@,
            "AT+CGDCONT?"@,
        ],
{
    let mut v: Vec<&'static str> = Vec::new();
    v.push("ATI");
    v.push("AT+CGMM");
    v.push("AT+CGMR");
    v.push("AT+CIMI");
    v.push("AT+CPIN?");
    v.push("AT+COPS?");
    v.push("AT+CSQ");
    v.push("AT+CREG?");
    v.push("AT+CGREG?");
    v.push("AT+CEREG?");
    v.push("AT+CGACT?");
    v.push("AT+CGDCONT?");
    assert(v@.map_values(|s: &str| s@) =~= seq![
        "ATI"@,
        "AT+CGMM"@,
        "AT+CGMR"@,
        "AT+CIMI"@,
        "AT+CPIN?"@,
        "AT+COPS?"@,
        "AT+CSQ"@,
        "AT+CREG?"@,
        "AT+CGREG?"@,
        "AT+CEREG?"@,
        "AT+CGACT?"@,
        "AT+CGDCONT?"@,
    ]);
    v
}

} // verus!
