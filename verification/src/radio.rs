//! The LoRa radio: finding its serial port, the mesh status, and the framing of
//! commands sent to it.
use vstd::prelude::*;
use crate::devices::{
    first_present, first_present_exec, radio_candidates, strs, DeviceScan,
};
use crate::text::{
    chars_eq, chars_of, contains, contains_exec, extend_chars, extend_str, has_prefix,
    starts_with, string_from_chars,
};

verus! {

pub open spec fn is_radio_entry(n: Seq<char>) -> bool {
    has_prefix(n, "ttyUSB"@) || has_prefix(n, "ttyACM"@)
}

/// The first USB serial device in `/dev` that is not one of the probed ports.
pub open spec fn first_radio_entry(entries: Seq<Seq<char>>) -> Option<Seq<char>>
    decreases entries.len(),
{
    if entries.len() == 0 {
        None
    } else {
        let p = "/dev/"@ + entries[0];
        if is_radio_entry(entries[0]) && !radio_candidates().contains(p) {
            Some(p)
        } else {
            first_radio_entry(entries.drop_first())
        }
    }
}

/// The radio's serial port: the first probed port present, else the first
/// other USB serial device.
pub open spec fn detect_radio_spec(scan: DeviceScan) -> Option<Seq<char>> {
    match first_present(scan, radio_candidates()) {
        Some(p) => Some(p),
        None => first_radio_entry(strs(scan.dev_entries@)),
    }
}

fn is_candidate(p: &[char], cands: &Vec<&str>) -> (r: bool)
    ensures
        r == cands@.map_values(|s: &str| s@).contains(p@),
{
    let ghost cs = cands@.map_values(|s: &str| s@);
    let mut i: usize = 0;
    while i < cands.len()
        invariant
            i <= cands@.len(),
            cs == cands@.map_values(|s: &str| s@),
            forall|j: int| 0 <= j < i ==> cs[j] != p@,
        decreases cands@.len() - i,
    {
        let c = chars_of(cands[i]);
        if chars_eq(c.as_slice(), p) {
            assert(cs[i as int] == p@);
            return true;
        }
        i = i + 1;
    }
    false
}

/// The serial port at which the radio is found.
pub fn detect_radio(scan: &DeviceScan) -> (r: Option<String>)
    ensures
        match r {
            Some(p) => detect_radio_spec(*scan) == Some(p@),
            None => detect_radio_spec(*scan) is None,
        },
{
    let cands: Vec<&str> = vec![
        "/dev/ttyAMA0",
        "/dev/serial0",
        "/dev/ttyUSB0",
        "/dev/ttyUSB1",
        "/dev/ttyACM0",
    ];
    assert(cands@.map_values(|s: &str| s@) =~= radio_candidates());
    match first_present_exec(scan, &cands) {
        Some(p) => {
            return Some(p);
        },
        None => {},
    }
    let ghost es = strs(scan.dev_entries@);
    let usb = chars_of("ttyUSB");
    let acm = chars_of("ttyACM");
    let mut i: usize = 0;
    assert(es.skip(0) =~= es);
    while i < scan.dev_entries.len()
        invariant
            i <= scan.dev_entries@.len(),
            es == strs(scan.dev_entries@),
            usb@ == "ttyUSB"@,
            acm@ == "ttyACM"@,
            cands@.map_values(|s: &str| s@) == radio_candidates(),
            first_present(*scan, radio_candidates()) is None,
            first_radio_entry(es) == first_radio_entry(es.skip(i as int)),
        decreases scan.dev_entries@.len() - i,
    {
        let name = chars_of(scan.dev_entries[i].as_str());
        assert(es.skip(i as int)[0] == name@);
        assert(es.skip(i as int).drop_first() =~= es.skip(i + 1));
        if starts_with(name.as_slice(), usb.as_slice()) || starts_with(
            name.as_slice(),
            acm.as_slice(),
        ) {
            let mut full = chars_of("/dev/");
            extend_chars(&mut full, name.as_slice());
            if !is_candidate(full.as_slice(), &cands) {
                assert(full@ == "/dev/"@ + es.skip(i as int)[0]);
                return Some(string_from_chars(full.as_slice()));
            }
        }
        i = i + 1;
    }
    None
}

/// One node of the mesh.
pub struct MeshNode {
    pub node_id: String,
    pub rssi: Option<i32>,
    pub hops: u32,
}

/// The state of the mesh as far as the radio reports it.
pub struct MeshStatus {
    pub radio_present: bool,
    pub node_id: Option<String>,
    pub tx_power_dbm: Option<i32>,
    pub nodes: Vec<MeshNode>,
}

/// The mesh radio, once its port is known.
pub struct MeshManager {
    pub port: Option<String>,
}

impl MeshManager {
    pub fn new() -> (r: Self)
        ensures
            r.port is None,
    {
        MeshManager { port: None }
    }

    /// Looks for the radio; on success the port is kept.
    pub fn detect(&mut self, scan: &DeviceScan) -> (r: bool)
        ensures
            r == detect_radio_spec(*scan) is Some,
            r ==> final(self).port is Some && final(self).port->0@ == detect_radio_spec(
                *scan,
            )->0,
            !r ==> final(self).port == old(self).port,
    {
        match detect_radio(scan) {
            Some(p) => {
                self.port = Some(p);
                true
            },
            None => false,
        }
    }

    /// The mesh status: whether the radio is present, nothing more known.
    pub fn get_status(&self) -> (r: MeshStatus)
        ensures
            r.radio_present == self.port is Some,
            r.node_id is None,
            r.tx_power_dbm is None,
            r.nodes@.len() == 0,
    {
        MeshStatus {
            radio_present: self.port.is_some(),
            node_id: None,
            tx_power_dbm: None,
            nodes: Vec::new(),
        }
    }
}

impl Default for MeshManager {
    fn default() -> (r: Self)
        ensures
            r.port is None,
    {
        MeshManager::new()
    }
}

/// The radio's serial port.
pub struct RadioSerial {
    pub port_path: String,
}

impl RadioSerial {
    pub fn new(port_path: &str) -> (r: Self)
        ensures
            r.port_path@ == port_path@,
    {
        RadioSerial { port_path: port_path.to_owned() }
    }
}

/// The line sent for a command: the command and CR LF.
pub fn radio_command_line(cmd: &str) -> (r: String)
    ensures
        r@ == cmd@ + "\r\n"@,
{
    let mut b = chars_of(cmd);
    extend_str(&mut b, "\r\n");
    string_from_chars(b.as_slice())
}

/// A reply is complete once it holds a line end.
pub fn radio_reply_complete(reply: &str) -> (r: bool)
    ensures
        r == contains(reply@, "\r\n"@),
{
    let s = chars_of(reply);
    let end = chars_of("\r\n");
    contains_exec(s.as_slice(), end.as_slice())
}

} // verus!
