//! The GPS receiver: finding its serial port and cutting its byte stream into
//! sentences.
use vstd::prelude::*;
use crate::devices::{first_present, first_present_exec, gps_port_candidates, strs, DeviceScan};
use crate::text::{chars_eq, chars_of, extend_chars, string_from_chars};

verus! {

/// The first of `ttyAMA0` and `serial0` listed in `/dev`.
pub open spec fn first_gps_entry(entries: Seq<Seq<char>>) -> Option<Seq<char>>
    decreases entries.len(),
{
    if entries.len() == 0 {
        None
    } else if entries[0] == "ttyAMA0"@ || entries[0] == "serial0"@ {
        Some("/dev/"@ + entries[0])
    } else {
        first_gps_entry(entries.drop_first())
    }
}

/// The receiver's serial port: the first probed port present, else the
/// board's serial port as listed in `/dev`.
pub open spec fn detect_port_spec(scan: DeviceScan) -> Option<Seq<char>> {
    match first_present(scan, gps_port_candidates()) {
        Some(p) => Some(p),
        None => first_gps_entry(strs(scan.dev_entries@)),
    }
}

/// A GPS receiver on a serial port.
pub struct GpsReader {
    pub port_path: String,
}

impl GpsReader {
    pub fn new(port_path: &str) -> (r: Self)
        ensures
            r.port_path@ == port_path@,
    {
        GpsReader { port_path: port_path.to_owned() }
    }

    /// The serial port at which the receiver is found.
    pub fn detect_port(scan: &DeviceScan) -> (r: Option<String>)
        ensures
            match r {
                Some(p) => detect_port_spec(*scan) == Some(p@),
                None => detect_port_spec(*scan) is None,
            },
    {
        let cands: Vec<&str> = vec![
            "/dev/ttyAMA0",
            "/dev/serial0",
            "/dev/ttyACM0",
            "/dev/ttyUSB0",
            "/dev/ttyUSB1",
        ];
        assert(cands@.map_values(|s: &str| s@) =~= gps_port_candidates());
        match first_present_exec(scan, &cands) {
            Some(p) => {
                return Some(p);
            },
            None => {},
        }
        let ghost es = strs(scan.dev_entries@);
        let ama = chars_of("ttyAMA0");
        let ser = chars_of("serial0");
        let mut i: usize = 0;
        assert(es.skip(0) =~= es);
        while i < scan.dev_entries.len()
            invariant
                i <= scan.dev_entries@.len(),
                es == strs(scan.dev_entries@),
                ama@ == "ttyAMA0"@,
                ser@ == "serial0"@,
                first_present(*scan, gps_port_candidates()) is None,
                first_gps_entry(es) == first_gps_entry(es.skip(i as int)),
            decreases scan.dev_entries@.len() - i,
        {
            let name = chars_of(scan.dev_entries[i].as_str());
            assert(es.skip(i as int)[0] == name@);
            assert(es.skip(i as int).drop_first() =~= es.skip(i + 1));
            if chars_eq(name.as_slice(), ama.as_slice()) || chars_eq(
                name.as_slice(),
                ser.as_slice(),
            ) {
                let mut full = chars_of("/dev/");
                extend_chars(&mut full, name.as_slice());
                return Some(string_from_chars(full.as_slice()));
            }
            i = i + 1;
        }
        None
    }
}

/// `s` split at every line feed byte.
pub open spec fn split_lines_bytes(s: Seq<u8>) -> Seq<Seq<u8>>
    decreases s.len(),
{
    if s.len() == 0 {
        seq![Seq::empty()]
    } else {
        let r = split_lines_bytes(s.drop_last());
        if s.last() == 10u8 {
            r.push(Seq::empty())
        } else {
            r.update(r.len() - 1, r.last().push(s.last()))
        }
    }
}

pub open spec fn byte_views(v: Seq<Vec<u8>>) -> Seq<Seq<u8>> {
    v.map_values(|x: Vec<u8>| x@)
}

/// Takes the complete lines out of a receive buffer: the lines before each line
/// feed, in order, without the line feed; what follows the last line feed
/// stays in the buffer.
pub fn take_lines(buffer: &mut Vec<u8>) -> (lines: Vec<Vec<u8>>)
    ensures
        byte_views(lines@).push(final(buffer)@) == split_lines_bytes(old(buffer)@),
{
    let ghost input = buffer@;
    let mut lines: Vec<Vec<u8>> = Vec::new();
    let mut cur: Vec<u8> = Vec::new();
    let mut i: usize = 0;
    assert(input.take(0) =~= Seq::<u8>::empty());
    assert(byte_views(lines@).push(cur@) =~= split_lines_bytes(input.take(0)));
    while i < buffer.len()
        invariant
            i <= buffer@.len(),
            buffer@ == input,
            byte_views(lines@).push(cur@) == split_lines_bytes(input.take(i as int)),
        decreases buffer@.len() - i,
    {
        let b = buffer[i];
        let ghost prev = byte_views(lines@);
        let ghost prev_cur = cur@;
        assert(input.take(i + 1).drop_last() =~= input.take(i as int));
        assert(input.take(i + 1).last() == b);
        if b == 10u8 {
            let done = cur;
            lines.push(done);
            cur = Vec::new();
            assert(byte_views(lines@) =~= prev.push(prev_cur));
        } else {
            cur.push(b);
            assert(byte_views(lines@) =~= prev);
        }
        i = i + 1;
        assert(byte_views(lines@).push(cur@) =~= split_lines_bytes(input.take(i as int)));
    }
    assert(input.take(i as int) =~= input);
    *buffer = cur;
    lines
}


/// The pieces joined back together with line feeds between them.
pub open spec fn join_lines_bytes(parts: Seq<Seq<u8>>) -> Seq<u8>
    decreases parts.len(),
{
    if parts.len() == 0 {
        Seq::empty()
    } else if parts.len() == 1 {
        parts[0]
    } else {
        join_lines_bytes(parts.drop_last()).push(10u8) + parts.last()
    }
}

proof fn lemma_split_lines_nonempty(s: Seq<u8>)
    ensures
        split_lines_bytes(s).len() >= 1,
    decreases s.len(),
{
    if s.len() > 0 {
        lemma_split_lines_nonempty(s.drop_last());
    }
}

/// Cutting a buffer into lines loses nothing: no line, nor what is left, holds a
/// line feed, and the lines and the rest joined with line feeds are the buffer.
pub proof fn lemma_take_lines_lossless(s: Seq<u8>)
    ensures
        join_lines_bytes(split_lines_bytes(s)) == s,
        forall|k: int, j: int|
            0 <= k < split_lines_bytes(s).len() && 0 <= j < split_lines_bytes(s)[k].len()
                ==> #[trigger] split_lines_bytes(s)[k][j] != 10u8,
    decreases s.len(),
{
    lemma_split_lines_nonempty(s);
    if s.len() == 0 {
        assert(join_lines_bytes(split_lines_bytes(s)) =~= s);
    } else {
        let r = split_lines_bytes(s.drop_last());
        lemma_take_lines_lossless(s.drop_last());
        lemma_split_lines_nonempty(s.drop_last());
        if s.last() == 10u8 {
            let n = r.push(Seq::empty());
            assert(n.drop_last() =~= r);
            assert(join_lines_bytes(n) =~= join_lines_bytes(r).push(10u8) + Seq::empty());
            assert(s =~= s.drop_last().push(10u8));
            assert forall|k: int, j: int|
                0 <= k < split_lines_bytes(s).len() && 0 <= j < split_lines_bytes(s)[k].len()
                    implies #[trigger] split_lines_bytes(s)[k][j] != 10u8 by {
                assert(k < r.len());
                assert(split_lines_bytes(s)[k] == r[k]);
            }
        } else {
            let n = r.update(r.len() - 1, r.last().push(s.last()));
            if r.len() == 1 {
                assert(join_lines_bytes(n) == n[0]);
                assert(s =~= s.drop_last().push(s.last()));
            } else {
                assert(n.drop_last() =~= r.drop_last());
                assert(join_lines_bytes(r) == join_lines_bytes(r.drop_last()).push(10u8) + r.last());
                assert(join_lines_bytes(n) =~= join_lines_bytes(r).push(s.last()));
                assert(s =~= s.drop_last().push(s.last()));
            }
            assert forall|k: int, j: int|
                0 <= k < split_lines_bytes(s).len() && 0 <= j < split_lines_bytes(s)[k].len()
                    implies #[trigger] split_lines_bytes(s)[k][j] != 10u8 by {
                if k < r.len() - 1 {
                    assert(split_lines_bytes(s)[k] == r[k]);
                } else {
                    assert(split_lines_bytes(s)[k] == r.last().push(s.last()));
                    if j < r.last().len() {
                        assert(r[r.len() - 1][j] != 10u8);
                    }
                }
            }
        }
    }
}

} // verus!
