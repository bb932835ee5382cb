//! Hardware detection from a scan of the device directories: which devices the
//! kiosk has, its serial ports and I2C devices, and the serial ports at which a
//! GPS receiver or a radio is found.
use vstd::prelude::*;
use crate::order::{lemma_string_le_total_ordering, sort_strings, string_le};
use vstd::relations::sorted_by;
use crate::text::{
    chars_eq, chars_of, contains, contains_exec, extend_chars, extend_str, has_prefix, split_exec,
    split_on, starts_with, string_from_chars, trim, trim_exec, views,
};

verus! {

/// The views of a sequence of strings.
pub open spec fn strs(v: Seq<String>) -> Seq<Seq<char>> {
    v.map_values(|s: String| s@)
}

/// The entries of one I2C adapter directory.
pub struct I2cAdapter {
    pub name: String,
    pub entries: Vec<String>,
}

/// What a look at the device directories found.
pub struct DeviceScan {
    /// The paths among `probe_paths()` that exist.
    pub present: Vec<String>,
    /// The names in `/dev`, in directory order.
    pub dev_entries: Vec<String>,
    /// The names in `/sys/class/spidev`.
    pub spidev_entries: Vec<String>,
    /// The adapters in `/sys/class/i2c-adapter`, each with its entries.
    pub i2c_adapters: Vec<I2cAdapter>,
    /// The contents of `/proc/asound/cards`, where it exists and was read.
    pub asound_cards: Option<String>,
}

/// The hardware found.
pub struct HardwareInventory {
    pub modem_present: bool,
    pub gps_present: bool,
    pub audio_present: bool,
    pub poe_hat_present: bool,
    pub camera_present: bool,
    pub radio_present: bool,
    pub serial_ports: Vec<String>,
    pub i2c_devices: Vec<String>,
}

pub open spec fn is_present(scan: DeviceScan, path: Seq<char>) -> bool {
    strs(scan.present@).contains(path)
}

pub open spec fn modem_candidates() -> Seq<Seq<char>> {
    seq!["/dev/ttyUSB0"@, "/dev/ttyUSB1"@, "/dev/ttyUSB2"@]
}

pub open spec fn gps_candidates() -> Seq<Seq<char>> {
    seq!["/dev/ttyAMA0"@, "/dev/serial0"@, "/dev/ttyACM0"@]
}

/// The serial ports, in the order probed, at which a GPS receiver may sit.
pub open spec fn gps_port_candidates() -> Seq<Seq<char>> {
    seq!["/dev/ttyAMA0"@, "/dev/serial0"@, "/dev/ttyACM0"@, "/dev/ttyUSB0"@, "/dev/ttyUSB1"@]
}

/// The serial ports, in the order probed, at which a modem may answer AT commands.
pub open spec fn at_port_candidates() -> Seq<Seq<char>> {
    seq![
        "/dev/ttyUSB0"@,
        "/dev/ttyUSB1"@,
        "/dev/ttyUSB2"@,
        "/dev/ttyACM0"@,
        "/dev/ttyACM1"@,
        "/dev/ttyACM2"@,
        "/dev/ttyS0"@,
    ]
}

/// The serial ports, in the order probed, at which a radio may sit.
pub open spec fn radio_candidates() -> Seq<Seq<char>> {
    seq!["/dev/ttyAMA0"@, "/dev/serial0"@, "/dev/ttyUSB0"@, "/dev/ttyUSB1"@, "/dev/ttyACM0"@]
}

pub open spec fn any_present(scan: DeviceScan, cands: Seq<Seq<char>>) -> bool {
    exists|i: int| 0 <= i < cands.len() && is_present(scan, #[trigger] cands[i])
}

/// The first candidate that is present.
pub open spec fn first_present(scan: DeviceScan, cands: Seq<Seq<char>>) -> Option<Seq<char>>
    decreases cands.len(),
{
    if cands.len() == 0 {
        None
    } else if is_present(scan, cands[0]) {
        Some(cands[0])
    } else {
        first_present(scan, cands.drop_first())
    }
}

pub open spec fn is_modem_entry(n: Seq<char>) -> bool {
    has_prefix(n, "ttyUSB"@) || has_prefix(n, "wwan"@)
}

pub open spec fn is_radio_node(n: Seq<char>) -> bool {
    n == "serial0"@ || n == "ttyAMA0"@
}

pub open spec fn is_serial_name(n: Seq<char>) -> bool {
    has_prefix(n, "ttyUSB"@) || has_prefix(n, "ttyACM"@) || has_prefix(n, "ttyAMA"@) || n
        == "serial0"@
}

pub open spec fn any_entry(entries: Seq<Seq<char>>, p: spec_fn(Seq<char>) -> bool) -> bool {
    exists|i: int| 0 <= i < entries.len() && p(#[trigger] entries[i])
}

pub open spec fn modem_spec(scan: DeviceScan) -> bool {
    any_present(scan, modem_candidates()) || any_entry(
        strs(scan.dev_entries@),
        |n: Seq<char>| is_modem_entry(n),
    )
}

pub open spec fn gps_spec(scan: DeviceScan) -> bool {
    any_present(scan, gps_candidates())
}

pub open spec fn camera_spec(scan: DeviceScan) -> bool {
    is_present(scan, "/dev/video0"@)
}

pub open spec fn audio_spec(scan: DeviceScan) -> bool {
    match scan.asound_cards {
        Some(c) => trim(c@).len() > 0,
        None => false,
    }
}

pub open spec fn radio_hw_spec(scan: DeviceScan) -> bool {
    any_entry(strs(scan.spidev_entries@), |n: Seq<char>| has_prefix(n, "spidev"@)) || any_entry(
        strs(scan.dev_entries@),
        |n: Seq<char>| is_radio_node(n),
    )
}

pub open spec fn is_poe_entry(n: Seq<char>) -> bool {
    contains(n, "0048"@) || contains(n, "poehat"@)
}

pub open spec fn poe_spec(scan: DeviceScan) -> bool {
    exists|a: int|
        0 <= a < scan.i2c_adapters@.len() && any_entry(
            strs(#[trigger] scan.i2c_adapters@[a].entries@),
            |n: Seq<char>| is_poe_entry(n),
        )
}

/// `/dev/` followed by each name that denotes a serial port, in scan order.
pub open spec fn serial_port_paths(entries: Seq<Seq<char>>) -> Seq<Seq<char>>
    decreases entries.len(),
{
    if entries.len() == 0 {
        Seq::empty()
    } else {
        let rest = serial_port_paths(entries.drop_last());
        if is_serial_name(entries.last()) {
            rest.push("/dev/"@ + entries.last())
        } else {
            rest
        }
    }
}

/// The I2C devices of one adapter: for each entry that starts with `-`, the
/// adapter's name, ` @ 0x` and the part of the entry after its first `-`.
pub open spec fn adapter_devices(bus: Seq<char>, entries: Seq<Seq<char>>) -> Seq<Seq<char>>
    decreases entries.len(),
{
    if entries.len() == 0 {
        Seq::empty()
    } else {
        let rest = adapter_devices(bus, entries.drop_last());
        let e = entries.last();
        if has_prefix(e, "-"@) {
            rest.push(bus + " @ 0x"@ + split_on(e, '-')[1])
        } else {
            rest
        }
    }
}

pub open spec fn i2c_device_names(adapters: Seq<I2cAdapter>) -> Seq<Seq<char>>
    decreases adapters.len(),
{
    if adapters.len() == 0 {
        Seq::empty()
    } else {
        i2c_device_names(adapters.drop_last()) + adapter_devices(
            adapters.last().name@,
            strs(adapters.last().entries@),
        )
    }
}

/// The paths whose existence a scan must report in `present`.
pub fn probe_paths() -> (r: Vec<String>)
    ensures
        forall|i: int| 0 <= i < modem_candidates().len() ==> strs(r@).contains(modem_candidates()[i]),
        forall|i: int| 0 <= i < gps_port_candidates().len() ==> strs(r@).contains(gps_port_candidates()[i]),
        forall|i: int| 0 <= i < radio_candidates().len() ==> strs(r@).contains(radio_candidates()[i]),
        forall|i: int| 0 <= i < at_port_candidates().len() ==> strs(r@).contains(at_port_candidates()[i]),
        strs(r@).contains("/dev/video0"@),
{
    let mut r: Vec<String> = Vec::new();
    r.push(String::from_str("/dev/ttyUSB0"));
    r.push(String::from_str("/dev/ttyUSB1"));
    r.push(String::from_str("/dev/ttyUSB2"));
    r.push(String::from_str("/dev/ttyAMA0"));
    r.push(String::from_str("/dev/serial0"));
    r.push(String::from_str("/dev/ttyACM0"));
    r.push(String::from_str("/dev/video0"));
    r.push(String::from_str("/dev/ttyACM1"));
    r.push(String::from_str("/dev/ttyACM2"));
    r.push(String::from_str("/dev/ttyS0"));
    proof {
        let s = strs(r@);
        assert(s[0] == "/dev/ttyUSB0"@);
        assert(s[1] == "/dev/ttyUSB1"@);
        assert(s[2] == "/dev/ttyUSB2"@);
        assert(s[3] == "/dev/ttyAMA0"@);
        assert(s[4] == "/dev/serial0"@);
        assert(s[5] == "/dev/ttyACM0"@);
        assert(s[6] == "/dev/video0"@);
        assert(s[7] == "/dev/ttyACM1"@);
        assert(s[8] == "/dev/ttyACM2"@);
        assert(s[9] == "/dev/ttyS0"@);
    }
    r
}

/// Whether `path` is among the paths found present.
pub fn path_present(scan: &DeviceScan, path: &str) -> (r: bool)
    ensures
        r == is_present(*scan, path@),
{
    let p = chars_of(path);
    let mut i: usize = 0;
    while i < scan.present.len()
        invariant
            i <= scan.present@.len(),
            p@ == path@,
            forall|j: int| 0 <= j < i ==> strs(scan.present@)[j] != path@,
        decreases scan.present@.len() - i,
    {
        let c = chars_of(scan.present[i].as_str());
        if chars_eq(c.as_slice(), p.as_slice()) {
            assert(strs(scan.present@)[i as int] == path@);
            return true;
        }
        i = i + 1;
    }
    false
}

fn any_present_exec(scan: &DeviceScan, cands: &Vec<&str>) -> (r: bool)
    ensures
        r == any_present(*scan, cands@.map_values(|s: &str| s@)),
{
    let ghost cs = cands@.map_values(|s: &str| s@);
    let mut i: usize = 0;
    while i < cands.len()
        invariant
            i <= cands@.len(),
            cs == cands@.map_values(|s: &str| s@),
            forall|j: int| 0 <= j < i ==> !is_present(*scan, #[trigger] cs[j]),
        decreases cands@.len() - i,
    {
        if path_present(scan, cands[i]) {
            assert(is_present(*scan, cs[i as int]));
            return true;
        }
        i = i + 1;
    }
    false
}

pub fn first_present_exec(scan: &DeviceScan, cands: &Vec<&str>) -> (r: Option<String>)
    ensures
        match r {
            Some(p) => first_present(*scan, cands@.map_values(|s: &str| s@)) == Some(p@),
            None => first_present(*scan, cands@.map_values(|s: &str| s@)) is None,
        },
{
    let ghost cs = cands@.map_values(|s: &str| s@);
    let mut i: usize = 0;
    assert(cs.skip(0) =~= cs);
    while i < cands.len()
        invariant
            i <= cands@.len(),
            cs == cands@.map_values(|s: &str| s@),
            first_present(*scan, cs) == first_present(*scan, cs.skip(i as int)),
        decreases cands@.len() - i,
    {
        assert(cs.skip(i as int)[0] == cs[i as int]);
        assert(cs.skip(i as int).drop_first() =~= cs.skip(i + 1));
        if path_present(scan, cands[i]) {
            return Some(String::from_str(cands[i]));
        }
        i = i + 1;
    }
    None
}

/// Whether some entry satisfies `prefix` or equals `exact` (when given).
fn entry_matches(entries: &Vec<String>, prefix1: &str, prefix2: &str) -> (r: bool)
    ensures
        r == any_entry(
            strs(entries@),
            |n: Seq<char>| has_prefix(n, prefix1@) || has_prefix(n, prefix2@),
        ),
{
    let a = chars_of(prefix1);
    let b = chars_of(prefix2);
    let mut i: usize = 0;
    while i < entries.len()
        invariant
            i <= entries@.len(),
            a@ == prefix1@,
            b@ == prefix2@,
            forall|j: int|
                0 <= j < i ==> !(has_prefix(#[trigger] strs(entries@)[j], prefix1@) || has_prefix(
                    strs(entries@)[j],
                    prefix2@,
                )),
        decreases entries@.len() - i,
    {
        let c = chars_of(entries[i].as_str());
        assert(strs(entries@)[i as int] == c@);
        if starts_with(c.as_slice(), a.as_slice()) || starts_with(c.as_slice(), b.as_slice()) {
            return true;
        }
        i = i + 1;
    }
    false
}

fn entry_named(entries: &Vec<String>, name1: &str, name2: &str) -> (r: bool)
    ensures
        r == any_entry(strs(entries@), |n: Seq<char>| n == name1@ || n == name2@),
{
    let a = chars_of(name1);
    let b = chars_of(name2);
    let mut i: usize = 0;
    while i < entries.len()
        invariant
            i <= entries@.len(),
            a@ == name1@,
            b@ == name2@,
            forall|j: int|
                0 <= j < i ==> !(#[trigger] strs(entries@)[j] == name1@ || strs(entries@)[j]
                    == name2@),
        decreases entries@.len() - i,
    {
        let c = chars_of(entries[i].as_str());
        assert(strs(entries@)[i as int] == c@);
        if chars_eq(c.as_slice(), a.as_slice()) || chars_eq(c.as_slice(), b.as_slice()) {
            return true;
        }
        i = i + 1;
    }
    false
}

/// Whether a cellular modem is attached: a USB serial port among the probed
/// ones, or a `ttyUSB` or `wwan` device.
pub fn detect_modem(scan: &DeviceScan) -> (r: bool)
    ensures
        r == modem_spec(*scan),
{
    let cands: Vec<&str> = vec!["/dev/ttyUSB0", "/dev/ttyUSB1", "/dev/ttyUSB2"];
    assert(cands@.map_values(|s: &str| s@) =~= modem_candidates());
    if any_present_exec(scan, &cands) {
        return true;
    }
    let r = entry_matches(&scan.dev_entries, "ttyUSB", "wwan");
    proof {
        let f1 = |n: Seq<char>| has_prefix(n, "ttyUSB"@) || has_prefix(n, "wwan"@);
        let f2 = |n: Seq<char>| is_modem_entry(n);
        assert(f1 =~= f2);
    }
    r
}

/// Whether a GPS receiver's serial port is present.
pub fn detect_gps(scan: &DeviceScan) -> (r: bool)
    ensures
        r == gps_spec(*scan),
{
    let cands: Vec<&str> = vec!["/dev/ttyAMA0", "/dev/serial0", "/dev/ttyACM0"];
    assert(cands@.map_values(|s: &str| s@) =~= gps_candidates());
    any_present_exec(scan, &cands)
}

/// Whether a camera device is present.
pub fn detect_camera(scan: &DeviceScan) -> (r: bool)
    ensures
        r == camera_spec(*scan),
{
    path_present(scan, "/dev/video0")
}

/// Whether a sound card is listed.
pub fn detect_audio(scan: &DeviceScan) -> (r: bool)
    ensures
        r == audio_spec(*scan),
{
    match &scan.asound_cards {
        Some(c) => {
            let t = trim_exec(chars_of(c.as_str()).as_slice());
            t.len() > 0
        },
        None => false,
    }
}

/// Whether a PoE HAT sits on an I2C bus (an entry naming address `0048` or
/// `poehat`).
pub fn detect_poe_hat(scan: &DeviceScan) -> (r: bool)
    ensures
        r == poe_spec(*scan),
{
    let k0 = chars_of("0048");
    let k1 = chars_of("poehat");
    let mut a: usize = 0;
    while a < scan.i2c_adapters.len()
        invariant
            a <= scan.i2c_adapters@.len(),
            k0@ == "0048"@,
            k1@ == "poehat"@,
            forall|j: int|
                0 <= j < a ==> !any_entry(
                    strs(#[trigger] scan.i2c_adapters@[j].entries@),
                    |n: Seq<char>| is_poe_entry(n),
                ),
        decreases scan.i2c_adapters@.len() - a,
    {
        let entries = &scan.i2c_adapters[a].entries;
        let mut e: usize = 0;
        while e < entries.len()
            invariant
                e <= entries@.len(),
                a < scan.i2c_adapters@.len(),
                entries@ == scan.i2c_adapters@[a as int].entries@,
                k0@ == "0048"@,
                k1@ == "poehat"@,
                forall|j: int| 0 <= j < e ==> !is_poe_entry(#[trigger] strs(entries@)[j]),
            decreases entries@.len() - e,
        {
            let c = chars_of(entries[e].as_str());
            assert(strs(entries@)[e as int] == c@);
            if contains_exec(c.as_slice(), k0.as_slice()) || contains_exec(
                c.as_slice(),
                k1.as_slice(),
            ) {
                assert(is_poe_entry(strs(entries@)[e as int]));
                assert(scan.i2c_adapters@[a as int].entries@ == entries@);
                assert(any_entry(
                    strs(scan.i2c_adapters@[a as int].entries@),
                    |n: Seq<char>| is_poe_entry(n),
                ));
                return true;
            }
            e = e + 1;
        }
        a = a + 1;
    }
    false
}

/// Whether a radio is attached: an SPI device, or the board's serial port.
pub fn detect_radio_hardware(scan: &DeviceScan) -> (r: bool)
    ensures
        r == radio_hw_spec(*scan),
{
    let spi = entry_matches(&scan.spidev_entries, "spidev", "spidev");
    proof {
        let f1 = |n: Seq<char>| has_prefix(n, "spidev"@) || has_prefix(n, "spidev"@);
        let f2 = |n: Seq<char>| has_prefix(n, "spidev"@);
        assert(f1 =~= f2);
    }
    if spi {
        return true;
    }
    let r = entry_named(&scan.dev_entries, "serial0", "ttyAMA0");
    proof {
        let f1 = |n: Seq<char>| n == "serial0"@ || n == "ttyAMA0"@;
        let f2 = |n: Seq<char>| is_radio_node(n);
        assert(f1 =~= f2);
    }
    r
}

fn is_serial_name_exec(n: &[char]) -> (r: bool)
    ensures
        r == is_serial_name(n@),
{
    let a = chars_of("ttyUSB");
    let b = chars_of("ttyACM");
    let c = chars_of("ttyAMA");
    let d = chars_of("serial0");
    starts_with(n, a.as_slice()) || starts_with(n, b.as_slice()) || starts_with(n, c.as_slice())
        || chars_eq(n, d.as_slice())
}

fn to_strings(v: Vec<Vec<char>>) -> (r: Vec<String>)
    ensures
        strs(r@) == views(v@),
{
    let mut r: Vec<String> = Vec::new();
    let mut i: usize = 0;
    while i < v.len()
        invariant
            i <= v@.len(),
            strs(r@) == views(v@).take(i as int),
        decreases v@.len() - i,
    {
        let s = string_from_chars(v[i].as_slice());
        let ghost prev = strs(r@);
        r.push(s);
        assert(strs(r@) =~= prev.push(v@[i as int]@));
        assert(views(v@).take(i + 1) =~= views(v@).take(i as int).push(v@[i as int]@));
        i = i + 1;
        assert(strs(r@) =~= views(v@).take(i as int));
    }
    assert(views(v@).take(i as int) =~= views(v@));
    r
}

/// The serial ports, as paths under `/dev`, in the order of strings.
pub fn list_serial_ports(scan: &DeviceScan) -> (r: Vec<String>)
    ensures
        strs(r@) == serial_port_paths(strs(scan.dev_entries@)).sort_by(string_le()),
{
    let ghost es = strs(scan.dev_entries@);
    let mut found: Vec<Vec<char>> = Vec::new();
    let mut i: usize = 0;
    assert(es.take(0) =~= Seq::<Seq<char>>::empty());
    while i < scan.dev_entries.len()
        invariant
            i <= scan.dev_entries@.len(),
            es == strs(scan.dev_entries@),
            views(found@) == serial_port_paths(es.take(i as int)),
        decreases scan.dev_entries@.len() - i,
    {
        let name = chars_of(scan.dev_entries[i].as_str());
        assert(es.take(i + 1).drop_last() =~= es.take(i as int));
        assert(es.take(i + 1).last() == name@);
        if is_serial_name_exec(name.as_slice()) {
            let mut path = chars_of("/dev/");
            extend_chars(&mut path, name.as_slice());
            let ghost before = views(found@);
            found.push(path);
            assert(views(found@) =~= before.push("/dev/"@ + name@));
        }
        i = i + 1;
    }
    assert(es.take(i as int) =~= es);
    let sorted = sort_strings(found);
    to_strings(sorted)
}

fn adapter_devices_exec(bus: &str, entries: &Vec<String>, out: &mut Vec<Vec<char>>)
    ensures
        views(final(out)@) == views(old(out)@) + adapter_devices(bus@, strs(entries@)),
{
    let ghost es = strs(entries@);
    let ghost start = views(out@);
    let dash = chars_of("-");
    let mut i: usize = 0;
    assert(es.take(0) =~= Seq::<Seq<char>>::empty());
    assert(start + adapter_devices(bus@, es.take(0)) =~= start);
    while i < entries.len()
        invariant
            i <= entries@.len(),
            es == strs(entries@),
            dash@ == "-"@,
            views(out@) == start + adapter_devices(bus@, es.take(i as int)),
        decreases entries@.len() - i,
    {
        let name = chars_of(entries[i].as_str());
        assert(es.take(i + 1).drop_last() =~= es.take(i as int));
        assert(es.take(i + 1).last() == name@);
        if starts_with(name.as_slice(), dash.as_slice()) {
            let pieces = split_exec(name.as_slice(), '-');
            proof {
                reveal_strlit("-");
                crate::text::lemma_split_nonempty(name@, '-');
                assert(name@.take(1)[0] == name@[0]);
                assert(name@[0] == '-');
                crate::text::lemma_split_pieces_free(name@, '-');
            }
            assert(views(pieces@).len() >= 2) by {
                lemma_split_two(name@);
            }
            assert(views(pieces@)[1] == pieces@[1]@);
            let mut dev = chars_of(bus);
            extend_str(&mut dev, " @ 0x");
            extend_chars(&mut dev, pieces[1].as_slice());
            let ghost before = views(out@);
            out.push(dev);
            assert(views(out@) =~= before.push(bus@ + " @ 0x"@ + split_on(name@, '-')[1]));
            assert(start + adapter_devices(bus@, es.take(i + 1)) =~= (start + adapter_devices(
                bus@,
                es.take(i as int),
            )).push(bus@ + " @ 0x"@ + split_on(name@, '-')[1]));
        }
        i = i + 1;
    }
    assert(es.take(i as int) =~= es);
}

/// A string that starts with the separator splits into at least two pieces.
proof fn lemma_split_two(s: Seq<char>)
    requires
        s.len() > 0,
        s[0] == '-',
    ensures
        split_on(s, '-').len() >= 2,
    decreases s.len(),
{
    if s.len() == 1 {
        assert(s.drop_last() =~= Seq::<char>::empty());
    } else {
        lemma_split_two(s.drop_last());
        crate::text::lemma_split_nonempty(s.drop_last(), '-');
    }
}

/// The I2C devices, as `<adapter> @ 0x<address>`, in the order of strings.
pub fn list_i2c_devices(scan: &DeviceScan) -> (r: Vec<String>)
    ensures
        strs(r@) == i2c_device_names(scan.i2c_adapters@).sort_by(string_le()),
{
    let mut found: Vec<Vec<char>> = Vec::new();
    let mut a: usize = 0;
    assert(scan.i2c_adapters@.take(0) =~= Seq::<I2cAdapter>::empty());
    assert(views(found@) =~= Seq::<Seq<char>>::empty());
    while a < scan.i2c_adapters.len()
        invariant
            a <= scan.i2c_adapters@.len(),
            views(found@) == i2c_device_names(scan.i2c_adapters@.take(a as int)),
        decreases scan.i2c_adapters@.len() - a,
    {
        let ad = &scan.i2c_adapters[a];
        adapter_devices_exec(ad.name.as_str(), &ad.entries, &mut found);
        assert(scan.i2c_adapters@.take(a + 1).drop_last() =~= scan.i2c_adapters@.take(a as int));
        assert(scan.i2c_adapters@.take(a + 1).last() == *ad);
        a = a + 1;
    }
    assert(scan.i2c_adapters@.take(a as int) =~= scan.i2c_adapters@);
    let sorted = sort_strings(found);
    to_strings(sorted)
}

proof fn lemma_serial_paths_contains(es: Seq<Seq<char>>, x: Seq<char>)
    ensures
        serial_port_paths(es).contains(x) <==> exists|i: int|
            0 <= i < es.len() && is_serial_name(es[i]) && x == "/dev/"@ + #[trigger] es[i],
    decreases es.len(),
{
    if es.len() > 0 {
        let p = es.drop_last();
        lemma_serial_paths_contains(p, x);
        let rest = serial_port_paths(p);
        if exists|i: int| 0 <= i < es.len() && is_serial_name(es[i]) && x == "/dev/"@ + #[trigger] es[i] {
            let i = choose|i: int|
                0 <= i < es.len() && is_serial_name(es[i]) && x == "/dev/"@ + #[trigger] es[i];
            if i < p.len() {
                assert(p[i] == es[i]);
                let k = choose|k: int| 0 <= k < rest.len() && rest[k] == x;
                if is_serial_name(es.last()) {
                    assert(rest.push("/dev/"@ + es.last())[k] == x);
                }
            } else {
                assert(serial_port_paths(es)[serial_port_paths(es).len() - 1] == x);
            }
        }
        if serial_port_paths(es).contains(x) {
            let k = choose|k: int|
                0 <= k < serial_port_paths(es).len() && serial_port_paths(es)[k] == x;
            if k < rest.len() {
                assert(rest[k] == x);
                let i = choose|i: int|
                    0 <= i < p.len() && is_serial_name(p[i]) && x == "/dev/"@ + #[trigger] p[i];
                assert(es[i] == p[i]);
            } else {
                assert(es[es.len() - 1] == es.last());
            }
        }
    }
}

/// The serial ports of an inventory come in ascending order, and a path is
/// listed exactly when it is `/dev/` followed by the name of a device entry that
/// is a serial port (`ttyUSB…`, `ttyACM…`, `ttyAMA…` or `serial0`).
pub proof fn lemma_serial_ports_listed(entries: Seq<Seq<char>>)
    ensures
        sorted_by(serial_port_paths(entries).sort_by(string_le()), string_le()),
        forall|x: Seq<char>|
            #[trigger] serial_port_paths(entries).sort_by(string_le()).contains(x) <==> exists|i: int|
                0 <= i < entries.len() && is_serial_name(entries[i]) && x == "/dev/"@
                    + #[trigger] entries[i],
{
    broadcast use vstd::seq_lib::to_multiset_contains;

    let s = serial_port_paths(entries);
    lemma_string_le_total_ordering();
    s.lemma_sort_by_ensures(string_le());
    assert forall|x: Seq<char>| #[trigger] s.sort_by(string_le()).contains(x) <==> exists|i: int|
        0 <= i < entries.len() && is_serial_name(entries[i]) && x == "/dev/"@
            + #[trigger] entries[i] by {
        lemma_serial_paths_contains(entries, x);
        assert(s.to_multiset().count(x) == s.sort_by(string_le()).to_multiset().count(x));
    }
}

/// What an inventory says of a scan: the serial ports are sorted, and are `/dev/`
/// and the name of each serial device entry (see `lemma_serial_ports_listed`);
/// the I2C devices are sorted; a camera is there exactly when `/dev/video0` is;
/// a GPS receiver exactly when `/dev/ttyAMA0`, `/dev/serial0` or `/dev/ttyACM0` is.
pub proof fn lemma_inventory(scan: DeviceScan)
    ensures
        sorted_by(serial_port_paths(strs(scan.dev_entries@)).sort_by(string_le()), string_le()),
        sorted_by(i2c_device_names(scan.i2c_adapters@).sort_by(string_le()), string_le()),
        camera_spec(scan) == is_present(scan, "/dev/video0"@),
        gps_spec(scan) == (is_present(scan, "/dev/ttyAMA0"@) || is_present(scan, "/dev/serial0"@)
            || is_present(scan, "/dev/ttyACM0"@)),
{
    lemma_serial_ports_listed(strs(scan.dev_entries@));
    lemma_string_le_total_ordering();
    i2c_device_names(scan.i2c_adapters@).lemma_sort_by_ensures(string_le());
    let c = gps_candidates();
    assert(c[0] == "/dev/ttyAMA0"@ && c[1] == "/dev/serial0"@ && c[2] == "/dev/ttyACM0"@);
}

/// The hardware that a scan shows.
pub fn detect_hardware(scan: &DeviceScan) -> (r: HardwareInventory)
    ensures
        r.modem_present == modem_spec(*scan),
        r.gps_present == gps_spec(*scan),
        r.audio_present == audio_spec(*scan),
        r.poe_hat_present == poe_spec(*scan),
        r.camera_present == camera_spec(*scan),
        r.radio_present == radio_hw_spec(*scan),
        strs(r.serial_ports@) == serial_port_paths(strs(scan.dev_entries@)).sort_by(string_le()),
        strs(r.i2c_devices@) == i2c_device_names(scan.i2c_adapters@).sort_by(string_le()),
{
    HardwareInventory {
        modem_present: detect_modem(scan),
        gps_present: detect_gps(scan),
        audio_present: detect_audio(scan),
        poe_hat_present: detect_poe_hat(scan),
        camera_present: detect_camera(scan),
        radio_present: detect_radio_hardware(scan),
        serial_ports: list_serial_ports(scan),
        i2c_devices: list_i2c_devices(scan),
    }
}


/// The probed AT ports that are present, in probe order.
pub open spec fn present_candidates(scan: DeviceScan, cands: Seq<Seq<char>>) -> Seq<Seq<char>>
    decreases cands.len(),
{
    if cands.len() == 0 {
        Seq::empty()
    } else {
        let rest = present_candidates(scan, cands.drop_last());
        if is_present(scan, cands.last()) {
            rest.push(cands.last())
        } else {
            rest
        }
    }
}

/// The serial ports a modem may answer at: the probed ones present, then each
/// other USB serial device of `/dev` not already listed.
pub open spec fn at_ports_spec(scan: DeviceScan, entries: Seq<Seq<char>>) -> Seq<Seq<char>>
    decreases entries.len(),
{
    if entries.len() == 0 {
        present_candidates(scan, at_port_candidates())
    } else {
        let rest = at_ports_spec(scan, entries.drop_last());
        let n = entries.last();
        let p = "/dev/"@ + n;
        if (has_prefix(n, "ttyUSB"@) || has_prefix(n, "ttyACM"@)) && !rest.contains(p) {
            rest.push(p)
        } else {
            rest
        }
    }
}

fn list_contains(list: &Vec<Vec<char>>, p: &[char]) -> (r: bool)
    ensures
        r == views(list@).contains(p@),
{
    let mut i: usize = 0;
    while i < list.len()
        invariant
            i <= list@.len(),
            forall|j: int| 0 <= j < i ==> views(list@)[j] != p@,
        decreases list@.len() - i,
    {
        assert(views(list@)[i as int] == list@[i as int]@);
        if chars_eq(list[i].as_slice(), p) {
            return true;
        }
        i = i + 1;
    }
    false
}

/// The serial ports at which to look for a modem that answers AT commands.
pub fn detect_serial_ports(scan: &DeviceScan) -> (r: Vec<String>)
    ensures
        strs(r@) == at_ports_spec(*scan, strs(scan.dev_entries@)),
{
    let cands: Vec<&str> = vec![
        "/dev/ttyUSB0",
        "/dev/ttyUSB1",
        "/dev/ttyUSB2",
        "/dev/ttyACM0",
        "/dev/ttyACM1",
        "/dev/ttyACM2",
        "/dev/ttyS0",
    ];
    let ghost cs = cands@.map_values(|s: &str| s@);
    assert(cs =~= at_port_candidates());
    let mut ports: Vec<Vec<char>> = Vec::new();
    let mut i: usize = 0;
    assert(cs.take(0) =~= Seq::<Seq<char>>::empty());
    assert(views(ports@) =~= Seq::<Seq<char>>::empty());
    while i < cands.len()
        invariant
            i <= cands@.len(),
            cs == cands@.map_values(|s: &str| s@),
            views(ports@) == present_candidates(*scan, cs.take(i as int)),
        decreases cands@.len() - i,
    {
        assert(cs.take(i + 1).drop_last() =~= cs.take(i as int));
        assert(cs.take(i + 1).last() == cs[i as int]);
        if path_present(scan, cands[i]) {
            let ghost before = views(ports@);
            ports.push(chars_of(cands[i]));
            assert(views(ports@) =~= before.push(cs[i as int]));
        }
        i = i + 1;
    }
    assert(cs.take(i as int) =~= at_port_candidates());
    let ghost es = strs(scan.dev_entries@);
    let usb = chars_of("ttyUSB");
    let acm = chars_of("ttyACM");
    let mut k: usize = 0;
    assert(es.take(0) =~= Seq::<Seq<char>>::empty());
    while k < scan.dev_entries.len()
        invariant
            k <= scan.dev_entries@.len(),
            es == strs(scan.dev_entries@),
            usb@ == "ttyUSB"@,
            acm@ == "ttyACM"@,
            views(ports@) == at_ports_spec(*scan, es.take(k as int)),
        decreases scan.dev_entries@.len() - k,
    {
        let name = chars_of(scan.dev_entries[k].as_str());
        assert(es.take(k + 1).drop_last() =~= es.take(k as int));
        assert(es.take(k + 1).last() == name@);
        if starts_with(name.as_slice(), usb.as_slice()) || starts_with(
            name.as_slice(),
            acm.as_slice(),
        ) {
            let mut full = chars_of("/dev/");
            extend_chars(&mut full, name.as_slice());
            if !list_contains(&ports, full.as_slice()) {
                let ghost before = views(ports@);
                ports.push(full);
                assert(views(ports@) =~= before.push("/dev/"@ + name@));
            }
        }
        k = k + 1;
    }
    assert(es.take(k as int) =~= es);
    to_strings(ports)
}

} // verus!
